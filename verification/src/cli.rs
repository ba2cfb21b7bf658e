//! The command line, as plain values.
use std::path::PathBuf;

use vstd::prelude::*;

verus! {

/// The parsed command line.
#[derive(Debug)]
pub struct Cli {
    pub command: Commands,
}

/// The subcommands and their arguments.
#[derive(Debug)]
pub enum Commands {
    /// Search components by keyword.
    Search { keyword: String, limit: usize },
    /// Search by keyword and download STEP by result index.
    DownloadStep { keyword: String, index: usize, output: PathBuf, force: bool },
    /// Search by keyword and download OBJ/MTL by result index.
    DownloadObj { keyword: String, index: usize, output: PathBuf, force: bool },
    /// Export EasyEDA symbol / footprint JSON sources only.
    ExportSource { keyword: String, index: usize, output: PathBuf, force: bool },
    /// Export an Altium schematic library (.SchLib).
    ExportSchlib { keyword: String, index: usize, output: PathBuf, force: bool },
    /// Export an Altium PCB footprint library (.PcbLib).
    ExportPcblib { keyword: String, index: usize, output: PathBuf, force: bool },
    /// Export an input bundle: sources, STEP and manifest.
    Bundle { keyword: String, index: usize, output: PathBuf, force: bool },
    /// Batch export Altium libraries from a text file of LCSC IDs.
    Batch {
        input: PathBuf,
        output: PathBuf,
        schlib: bool,
        pcblib: bool,
        full: bool,
        parallel: usize,
        continue_on_error: bool,
        force: bool,
    },
}

} // verus!
