use std::path::PathBuf;

use npnp::batch::{
    checkpoint_line, ids_or_error, parse_checkpoint, parse_lcsc_ids, partition_pending,
    plan_pending, runs_in_parallel, BatchOptions, BatchSummary, ExportTargets,
};
use npnp::AppError;

fn options(schlib: bool, pcblib: bool, full: bool, parallel: usize) -> BatchOptions {
    BatchOptions {
        input: PathBuf::from("ids.txt"),
        output: PathBuf::from("out"),
        schlib,
        pcblib,
        full,
        parallel,
        continue_on_error: false,
        force: false,
    }
}

#[test]
fn parse_ids_deduplicates_and_preserves_order() {
    let ids = parse_lcsc_ids("C2040\nfoo C5676243 bar c2040 baz C42");
    assert_eq!(ids, vec!["C2040", "C5676243", "C42"]);
}

#[test]
fn parse_ids_ignores_invalid_matches() {
    let ids = parse_lcsc_ids("C abc c-1 test");
    assert!(ids.is_empty());
}

#[test]
fn parse_ids_reads_ids_inside_words_and_after_digits() {
    assert_eq!(parse_lcsc_ids("xC12yc007 C12"), vec!["C12", "C007"]);
    assert_eq!(parse_lcsc_ids("C1C2"), vec!["C1", "C2"]);
    assert_eq!(parse_lcsc_ids("äC9ö"), vec!["C9"]);
    assert!(parse_lcsc_ids("").is_empty());
}

#[test]
fn resolve_refuses_zero_parallel() {
    let err = ExportTargets::resolve(&options(true, false, false, 0)).unwrap_err();
    assert_eq!(err, AppError::Other("--parallel must be at least 1".to_string()));
}

#[test]
fn resolve_refuses_no_target() {
    let err = ExportTargets::resolve(&options(false, false, false, 4)).unwrap_err();
    assert_eq!(
        err,
        AppError::Other(
            "at least one export target must be selected (--schlib, --pcblib, or --full)"
                .to_string()
        )
    );
}

#[test]
fn resolve_full_selects_both() {
    let t = ExportTargets::resolve(&options(false, false, true, 1)).unwrap();
    assert_eq!(t, ExportTargets { schlib: true, pcblib: true });
    let t = ExportTargets::resolve(&options(false, true, false, 2)).unwrap();
    assert_eq!(t, ExportTargets { schlib: false, pcblib: true });
}

#[test]
fn checkpoint_reads_back_what_was_appended() {
    let mut text = String::new();
    for id in ["C2040", "C42", "C2040"] {
        text.push_str(&checkpoint_line(id));
    }
    assert_eq!(text, "C2040\nC42\nC2040\n");
    let ids = parse_checkpoint(&text);
    assert_eq!(ids, vec!["C2040", "C42"]);
}

#[test]
fn checkpoint_trims_and_skips_blank_lines() {
    let ids = parse_checkpoint("  C1 \r\n\n\t\nC2");
    assert_eq!(ids, vec!["C1", "C2"]);
}

#[test]
fn partition_skips_completed_ids_in_order() {
    let ids: Vec<String> = vec!["C1".into(), "C2".into(), "C3".into(), "C4".into()];
    let completed: Vec<String> = vec!["C3".into(), "C1".into()];
    let (pending, skipped) = partition_pending(ids, &completed);
    assert_eq!(pending, vec!["C2", "C4"]);
    assert_eq!(skipped, 2);
}

#[test]
fn parsed_ids_read_back_from_their_lines() {
    let ids = parse_lcsc_ids("C2040\nfoo C5676243 bar c2040 baz C42 c7c8");
    assert_eq!(ids, vec!["C2040", "C5676243", "C42", "C7", "C8"]);
    assert_eq!(parse_lcsc_ids(&ids.join("\n")), ids);
}

#[test]
fn force_exports_every_id_again() {
    let ids: Vec<String> = vec!["C1".into(), "C2".into(), "C3".into()];
    let completed: Vec<String> = vec!["C3".into(), "C1".into()];
    let (pending, skipped) = plan_pending(ids.clone(), &completed, true);
    assert_eq!(pending, vec!["C1", "C2", "C3"]);
    assert_eq!(skipped, 0);
    let (pending, skipped) = plan_pending(ids, &completed, false);
    assert_eq!(pending, vec!["C2"]);
    assert_eq!(skipped, 2);
}

#[test]
fn empty_id_list_is_an_error() {
    assert_eq!(
        ids_or_error(Vec::new()).unwrap_err(),
        AppError::Other("no valid LCSC IDs found in batch input".to_string())
    );
    assert_eq!(ids_or_error(vec!["C1".to_string()]).unwrap(), vec!["C1"]);
}

#[test]
fn summary_counts_each_outcome_once() {
    let mut s = BatchSummary::start(3, 2, PathBuf::from("out"));
    assert_eq!(s.total, 5);
    assert!(s.record("C1".to_string(), true, false));
    assert!(!s.record("C2".to_string(), false, false));
    assert!(s.record("C3".to_string(), false, true));
    assert_eq!(s.success, 1);
    assert_eq!(s.failed, 2);
    assert_eq!(s.failed_ids, vec!["C2", "C3"]);
    s.record_lost_task();
    assert_eq!(s.failed, 3);
    assert!(s.parallel_batch_failed(false));
    assert!(!s.parallel_batch_failed(true));
    assert!(runs_in_parallel(4, 2));
    assert!(!runs_in_parallel(1, 5));
    assert!(!runs_in_parallel(4, 1));
}
