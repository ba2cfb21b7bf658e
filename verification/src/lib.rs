pub mod altium;
pub mod batch;
pub mod cli;
pub mod error;
pub mod json;
pub mod lceda;
pub mod paths;
pub mod schlib;
pub mod text;
pub mod util;
pub mod workflow;

pub use cli::{Cli, Commands};
pub use error::AppError;
pub use lceda::SearchItem;
pub mod svg;
