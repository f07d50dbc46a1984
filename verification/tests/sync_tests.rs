use simple_rust_backup::path::TreePath;
use simple_rust_backup::sync::{
    check_setup, conclude, copy_steps, decide, locate, report_file, step_failure, ChunkAction,
    CopyProgress, CopyStep, FileEvent, FileOutcome, Phase, Setup, SetupError, SyncDecision, SyncError, SyncSummary,
    TargetProbe, Timestamp, CHUNK_SIZE,
};

fn p(parts: &[&str]) -> TreePath {
    TreePath::new(parts.iter().map(|s| s.to_string()).collect())
}

fn at(secs: i64, nanos: u32) -> Timestamp {
    Timestamp { secs, nanos }
}

fn present(source: Timestamp, target: Timestamp) -> TargetProbe {
    TargetProbe::Present { source_mtime: Ok(source), target_mtime: Ok(target) }
}

#[test]
fn is_after_goes_by_seconds_then_nanoseconds() {
    assert!(at(11, 0).is_after(&at(10, 999_999_999)));
    assert!(at(10, 2).is_after(&at(10, 1)));
    assert!(!at(10, 1).is_after(&at(10, 1)));
    assert!(!at(10, 1).is_after(&at(10, 2)));
    assert!(!at(9, 5).is_after(&at(10, 0)));
    assert!(at(-1, 0).is_after(&at(-2, 999_999_999)));
}

#[test]
fn missing_target_is_copied() {
    assert_eq!(decide(TargetProbe::Absent), Ok(SyncDecision::CopyMissing));
}

#[test]
fn stale_target_is_copied() {
    assert_eq!(decide(present(at(200, 0), at(100, 0))), Ok(SyncDecision::CopyStale));
    assert_eq!(decide(present(at(100, 1), at(100, 0))), Ok(SyncDecision::CopyStale));
}

#[test]
fn equal_times_are_skipped() {
    assert_eq!(decide(present(at(100, 7), at(100, 7))), Ok(SyncDecision::Skip));
}

#[test]
fn newer_target_is_skipped() {
    assert_eq!(decide(present(at(100, 0), at(200, 0))), Ok(SyncDecision::Skip));
    assert_eq!(decide(present(at(100, 0), at(100, 1))), Ok(SyncDecision::Skip));
}

#[test]
fn unreadable_source_time_gives_the_file_up() {
    let probe = TargetProbe::Present {
        source_mtime: Err("denied".to_string()),
        target_mtime: Ok(at(1, 0)),
    };
    assert_eq!(decide(probe), Err(SyncError::SourceMtime("denied".to_string())));
}

#[test]
fn unreadable_target_time_gives_the_file_up() {
    let probe = TargetProbe::Present {
        source_mtime: Ok(at(5, 0)),
        target_mtime: Err("gone".to_string()),
    };
    assert_eq!(decide(probe), Err(SyncError::TargetMtime("gone".to_string())));
}

#[test]
fn source_time_is_read_first() {
    let probe = TargetProbe::Present {
        source_mtime: Err("first".to_string()),
        target_mtime: Err("second".to_string()),
    };
    assert_eq!(decide(probe), Err(SyncError::SourceMtime("first".to_string())));
}

#[test]
fn is_copy_tells_copies_from_skips() {
    assert!(SyncDecision::CopyMissing.is_copy());
    assert!(SyncDecision::CopyStale.is_copy());
    assert!(!SyncDecision::Skip.is_copy());
}

#[test]
fn locate_places_the_file_below_the_target() {
    let c = locate(&p(&["src"]), &p(&["dst"]), &p(&["src", "a", "b.txt"])).unwrap();
    assert_eq!(c.rel, p(&["a", "b.txt"]));
    assert_eq!(c.path, p(&["dst", "a", "b.txt"]));
}

#[test]
fn locate_gives_up_a_file_outside_the_source() {
    let r = locate(&p(&["src"]), &p(&["dst"]), &p(&["tmp", "b.txt"]));
    assert_eq!(r, Err(SyncError::OutsideRoot));
}

#[test]
fn missing_file_in_missing_directory_is_created() {
    let source = p(&["src", "a", "b.txt"]);
    let c = locate(&p(&["src"]), &p(&["dst"]), &source).unwrap();
    let decision = decide(TargetProbe::Absent).unwrap();
    let steps = copy_steps(decision, &source, &c.path);
    assert_eq!(
        steps,
        vec![
            CopyStep::CreateParents(p(&["dst", "a"])),
            CopyStep::CopyStream { from: p(&["src", "a", "b.txt"]), to: p(&["dst", "a", "b.txt"]) },
        ]
    );
    assert_eq!(conclude(Ok(decision), None), FileOutcome::Copied);
}

#[test]
fn newer_target_is_left_unchanged() {
    let source = p(&["src", "a", "b.txt"]);
    let target = p(&["dst", "a", "b.txt"]);
    let decision = decide(present(at(1_000, 0), at(2_000, 0))).unwrap();
    assert_eq!(decision, SyncDecision::Skip);
    assert_eq!(copy_steps(decision, &source, &target), vec![]);
    assert_eq!(conclude(Ok(decision), None), FileOutcome::Skipped);
}

#[test]
fn stale_copy_lifts_write_protection_before_writing() {
    let source = p(&["src", "f"]);
    let target = p(&["dst", "f"]);
    let steps = copy_steps(SyncDecision::CopyStale, &source, &target);
    assert_eq!(
        steps,
        vec![
            CopyStep::CreateParents(p(&["dst"])),
            CopyStep::ClearWriteProtection(p(&["dst", "f"])),
            CopyStep::CopyStream { from: p(&["src", "f"]), to: p(&["dst", "f"]) },
        ]
    );
}

#[test]
fn target_without_components_has_no_parent_step() {
    let steps = copy_steps(SyncDecision::CopyMissing, &p(&["f"]), &p(&[]));
    assert_eq!(steps, vec![CopyStep::CopyStream { from: p(&["f"]), to: p(&[]) }]);
}

#[test]
fn second_run_after_a_copy_skips() {
    let source_time = at(500, 0);
    let first = decide(TargetProbe::Absent).unwrap();
    assert!(first.is_copy());
    let written_at = at(900, 0);
    let second = decide(present(source_time, written_at)).unwrap();
    assert_eq!(second, SyncDecision::Skip);
    let third = decide(present(source_time, written_at)).unwrap();
    assert_eq!(third, SyncDecision::Skip);
}

#[test]
fn step_failure_names_the_step() {
    assert_eq!(
        step_failure(&CopyStep::CreateParents(p(&["d"])), "no space".to_string()),
        SyncError::CreateParents("no space".to_string())
    );
    assert_eq!(
        step_failure(&CopyStep::ClearWriteProtection(p(&["d", "f"])), "denied".to_string()),
        SyncError::ClearWriteProtection("denied".to_string())
    );
    assert_eq!(
        step_failure(&CopyStep::CopyStream { from: p(&["s"]), to: p(&["d"]) }, "io".to_string()),
        SyncError::Copy("io".to_string())
    );
}

#[test]
fn conclude_reports_failures_first() {
    assert_eq!(
        conclude(Err(SyncError::OutsideRoot), None),
        FileOutcome::Failed(SyncError::OutsideRoot)
    );
    assert_eq!(
        conclude(Ok(SyncDecision::CopyStale), Some(SyncError::Copy("io".to_string()))),
        FileOutcome::Failed(SyncError::Copy("io".to_string()))
    );
    assert_eq!(conclude(Ok(SyncDecision::CopyStale), None), FileOutcome::Copied);
    assert_eq!(conclude(Ok(SyncDecision::CopyMissing), None), FileOutcome::Copied);
    assert_eq!(conclude(Ok(SyncDecision::Skip), None), FileOutcome::Skipped);
}

#[test]
fn every_file_counts_once() {
    let mut summary = SyncSummary::new();
    assert_eq!(summary, SyncSummary { processed: 0, copied: 0, skipped: 0, failed: 0 });
    summary.record(&FileOutcome::Copied);
    summary.record(&FileOutcome::Skipped);
    summary.record(&FileOutcome::Failed(SyncError::OutsideRoot));
    summary.record(&FileOutcome::Copied);
    assert_eq!(summary, SyncSummary { processed: 4, copied: 2, skipped: 1, failed: 1 });
}

#[test]
fn chunks_are_counted_until_the_end() {
    assert_eq!(CHUNK_SIZE, 8192);
    let mut progress = CopyProgress::new();
    assert_eq!(progress.copied, 0);
    assert_eq!(progress.after_read(8192), ChunkAction::Write(8192));
    assert_eq!(progress.after_read(100), ChunkAction::Write(100));
    assert_eq!(progress.copied, 8292);
    assert_eq!(progress.after_read(0), ChunkAction::Finish);
    assert_eq!(progress.copied, 8292);
}

#[test]
fn setup_needs_a_source_directory() {
    assert_eq!(check_setup(false, true, true), Err(SetupError::SourceNotDirectory));
    assert_eq!(check_setup(false, false, false), Err(SetupError::SourceNotDirectory));
    assert_eq!(check_setup(false, true, false), Err(SetupError::SourceNotDirectory));
}

#[test]
fn setup_refuses_a_target_that_is_no_directory() {
    assert_eq!(check_setup(true, true, false), Err(SetupError::TargetNotDirectory));
}

#[test]
fn setup_uses_or_creates_the_target() {
    assert_eq!(check_setup(true, true, true), Ok(Setup::UseTarget));
    assert_eq!(check_setup(true, false, false), Ok(Setup::CreateTarget));
}

#[test]
fn pruning_follows_copying_only_when_asked() {
    assert_eq!(Phase::Copying.next(true), Phase::Pruning);
    assert_eq!(Phase::Copying.next(false), Phase::Done);
    assert_eq!(Phase::Pruning.next(true), Phase::Done);
    assert_eq!(Phase::Pruning.next(false), Phase::Done);
    assert_eq!(Phase::Done.next(true), Phase::Done);
}

#[test]
fn event_names_the_file_and_its_outcome() {
    let event = report_file(p(&["src", "a.txt"]), Ok(SyncDecision::CopyMissing), None);
    assert_eq!(event, FileEvent { path: p(&["src", "a.txt"]), outcome: FileOutcome::Copied });
    let failed = report_file(
        p(&["src", "b.txt"]),
        Ok(SyncDecision::CopyStale),
        Some(SyncError::CreateParents("denied".to_string())),
    );
    assert_eq!(failed.path, p(&["src", "b.txt"]));
    assert_eq!(failed.outcome, FileOutcome::Failed(SyncError::CreateParents("denied".to_string())));
}

#[test]
fn tally_counts_each_outcome() {
    let outcomes = vec![
        FileOutcome::Skipped,
        FileOutcome::Copied,
        FileOutcome::Failed(SyncError::Copy("io".to_string())),
        FileOutcome::Skipped,
        FileOutcome::Skipped,
    ];
    assert_eq!(
        SyncSummary::tally(&outcomes),
        SyncSummary { processed: 5, copied: 1, skipped: 3, failed: 1 }
    );
    assert_eq!(SyncSummary::tally(&vec![]), SyncSummary::new());
}

#[test]
fn second_run_tallies_no_copy() {
    let times = [at(10, 0), at(20, 5), at(30, 0)];
    let first: Vec<FileOutcome> =
        times.iter().map(|_| conclude(decide(TargetProbe::Absent), None)).collect();
    assert_eq!(SyncSummary::tally(&first).copied, 3);
    let written = at(40, 0);
    let second: Vec<FileOutcome> =
        times.iter().map(|t| conclude(decide(present(*t, written)), None)).collect();
    assert_eq!(
        SyncSummary::tally(&second),
        SyncSummary { processed: 3, copied: 0, skipped: 3, failed: 0 }
    );
}

#[test]
fn times_after_the_epoch_keep_their_parts() {
    assert_eq!(Timestamp::from_epoch_offset(false, 1_700_000_000, 123), Some(at(1_700_000_000, 123)));
    assert_eq!(Timestamp::from_epoch_offset(false, 0, 0), Some(at(0, 0)));
}

#[test]
fn times_before_the_epoch_count_down() {
    assert_eq!(Timestamp::from_epoch_offset(true, 0, 0), Some(at(0, 0)));
    assert_eq!(Timestamp::from_epoch_offset(true, 2, 0), Some(at(-2, 0)));
    assert_eq!(Timestamp::from_epoch_offset(true, 1, 250_000_000), Some(at(-2, 750_000_000)));
    assert_eq!(Timestamp::from_epoch_offset(true, 0, 1), Some(at(-1, 999_999_999)));
}

#[test]
fn times_out_of_range_are_refused() {
    assert_eq!(Timestamp::from_epoch_offset(false, 5, 1_000_000_000), None);
    assert_eq!(Timestamp::from_epoch_offset(false, i64::MAX as u64, 0), None);
    assert_eq!(Timestamp::from_epoch_offset(true, u64::MAX, 0), None);
    assert_eq!(
        Timestamp::from_epoch_offset(true, i64::MAX as u64 - 1, 5),
        Some(at(-(i64::MAX - 1) - 1, 999_999_995))
    );
}

#[test]
fn earlier_offsets_give_earlier_times() {
    let a = Timestamp::from_epoch_offset(true, 1, 250_000_000).unwrap();
    let b = Timestamp::from_epoch_offset(true, 1, 0).unwrap();
    let c = Timestamp::from_epoch_offset(false, 0, 1).unwrap();
    assert!(b.is_after(&a));
    assert!(c.is_after(&b));
    assert!(!a.is_after(&b));
}
