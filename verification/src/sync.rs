//! The copy phase: whether a file of the source is copied, by which steps,
//! and what is reported of it.

use vstd::prelude::*;
use crate::path::{counterpart, Counterpart, TreePath};

verus! {

/// A time of last modification: whole seconds since the epoch and the
/// nanoseconds past them.
#[derive(Clone, Copy, Debug, PartialEq, Eq, Structural)]
pub struct Timestamp {
    pub secs: i64,
    pub nanos: u32,
}

/// The nanoseconds from the epoch to the time that lies `secs` seconds and
/// `nanos` nanoseconds after it, or before it where `before` holds.
pub open spec fn offset_nanos(before: bool, secs: u64, nanos: u32) -> int {
    if before {
        -(secs * 1_000_000_000 + nanos)
    } else {
        secs * 1_000_000_000 + nanos
    }
}

impl Timestamp {
    /// The time that lies `secs` seconds and `nanos` nanoseconds after the
    /// epoch, or before it where `before` holds. There is none exactly when
    /// `nanos` reaches a full second or `secs` does not fit.
    pub fn from_epoch_offset(before: bool, secs: u64, nanos: u32) -> (r: Option<Timestamp>)
        ensures
            r.is_some() == (nanos < 1_000_000_000 && secs < i64::MAX),
            r matches Some(t) ==> t.normal() && t.total_nanos() == offset_nanos(before, secs, nanos),
    {
        if nanos >= 1_000_000_000 || secs >= 0x7fff_ffff_ffff_ffff {
            return None;
        }
        let whole: i64 = secs as i64;
        if !before {
            Some(Timestamp { secs: whole, nanos })
        } else if nanos == 0 {
            Some(Timestamp { secs: -whole, nanos: 0 })
        } else {
            Some(Timestamp { secs: -whole - 1, nanos: 1_000_000_000 - nanos })
        }
    }

    /// Whether this time is strictly later than `other`: first by the seconds,
    /// then by the nanoseconds.
    pub open spec fn later_than(self, other: Timestamp) -> bool {
        self.secs > other.secs || (self.secs == other.secs && self.nanos > other.nanos)
    }

    /// Whether the nanoseconds stay below one second.
    pub open spec fn normal(self) -> bool {
        self.nanos < 1_000_000_000
    }

    /// The time in nanoseconds since the epoch.
    pub open spec fn total_nanos(self) -> int {
        self.secs * 1_000_000_000 + self.nanos
    }

    /// Whether this time is strictly later than `other`. Between normal times
    /// that is whether it lies more nanoseconds after the epoch.
    pub fn is_after(&self, other: &Timestamp) -> (r: bool)
        ensures
            r == self.later_than(*other),
            self.normal() && other.normal() ==> r == (self.total_nanos() > other.total_nanos()),
    {
        self.secs > other.secs || (self.secs == other.secs && self.nanos > other.nanos)
    }

    /// Between normal times, later means more nanoseconds since the epoch.
    pub proof fn lemma_later_is_more(self, other: Timestamp)
        requires
            self.normal(),
            other.normal(),
        ensures
            self.later_than(other) <==> self.total_nanos() > other.total_nanos(),
    {
    }
}

/// What is to happen to one file of the source.
#[derive(Clone, Copy, Debug, PartialEq, Eq, Structural)]
pub enum SyncDecision {
    /// Copy: the target does not hold the file.
    CopyMissing,
    /// Copy: the target's file is older than the source's.
    CopyStale,
    /// Leave the target's file as it is.
    Skip,
}

impl SyncDecision {
    /// Whether the decision is to copy.
    pub open spec fn copies(self) -> bool {
        self != SyncDecision::Skip
    }

    /// Whether the decision is to copy.
    pub fn is_copy(&self) -> (r: bool)
        ensures
            r == self.copies(),
    {
        match self {
            SyncDecision::Skip => false,
            _ => true,
        }
    }
}

/// What was found at the place where the target would hold a source file.
#[derive(Debug, PartialEq, Eq)]
pub enum TargetProbe {
    /// Nothing is there.
    Absent,
    /// Something is there. Both modification times were then asked for; each
    /// is the time, or the reason why it could not be read.
    Present { source_mtime: Result<Timestamp, String>, target_mtime: Result<Timestamp, String> },
}

/// Why a file was given up. The run goes on with the next file.
#[derive(Debug, PartialEq, Eq)]
pub enum SyncError {
    /// The file does not lie below the source root.
    OutsideRoot,
    /// The source's modification time could not be read.
    SourceMtime(String),
    /// The target's modification time could not be read.
    TargetMtime(String),
    /// The directories above the target file could not be made.
    CreateParents(String),
    /// The target file's write protection could not be lifted.
    ClearWriteProtection(String),
    /// Opening, reading or writing failed while copying.
    Copy(String),
}

/// Where the source file at `path` belongs in the target: its path relative
/// to the source root, and that path below the target root. A file that does
/// not lie below the source root is given up, never copied elsewhere.
pub fn locate(source_root: &TreePath, target_root: &TreePath, path: &TreePath) -> (r: Result<
    Counterpart,
    SyncError,
>)
    ensures
        r.is_ok() == source_root@.is_prefix_of(path@),
        r matches Ok(c) ==> c.rel@ == path@.skip(source_root@.len() as int) && c.path@ == target_root@
            + c.rel@,
        r matches Err(e) ==> e == SyncError::OutsideRoot,
{
    match counterpart(source_root, target_root, path) {
        Some(c) => Ok(c),
        None => Err(SyncError::OutsideRoot),
    }
}

/// The decision that a probe leads to. A missing target is copied to without
/// a look at any time; a target that is there is copied over exactly when the
/// source is strictly later; a time that cannot be read gives the file up.
pub open spec fn decision(probe: TargetProbe) -> Result<SyncDecision, SyncError> {
    match probe {
        TargetProbe::Absent => Ok(SyncDecision::CopyMissing),
        TargetProbe::Present { source_mtime: Err(reason), target_mtime: _ } => Err(
            SyncError::SourceMtime(reason),
        ),
        TargetProbe::Present { source_mtime: Ok(_), target_mtime: Err(reason) } => Err(
            SyncError::TargetMtime(reason),
        ),
        TargetProbe::Present { source_mtime: Ok(s), target_mtime: Ok(t) } => if s.later_than(t) {
            Ok(SyncDecision::CopyStale)
        } else {
            Ok(SyncDecision::Skip)
        },
    }
}

/// Decides what is to happen to a source file, from what was found at its
/// place in the target.
pub fn decide(probe: TargetProbe) -> (r: Result<SyncDecision, SyncError>)
    ensures
        r == decision(probe),
{
    match probe {
        TargetProbe::Absent => Ok(SyncDecision::CopyMissing),
        TargetProbe::Present { source_mtime, target_mtime } => match source_mtime {
            Err(reason) => Err(SyncError::SourceMtime(reason)),
            Ok(s) => match target_mtime {
                Err(reason) => Err(SyncError::TargetMtime(reason)),
                Ok(t) => if s.is_after(&t) {
                    Ok(SyncDecision::CopyStale)
                } else {
                    Ok(SyncDecision::Skip)
                },
            },
        },
    }
}

/// One step of a copy.
#[derive(Debug, PartialEq, Eq)]
pub enum CopyStep {
    /// Make this directory and every missing one above it.
    CreateParents(TreePath),
    /// Lift the write protection of the file at this path, where the platform
    /// has such a thing.
    ClearWriteProtection(TreePath),
    /// Copy the bytes of `from` to `to` in chunks, replacing what `to` held.
    CopyStream { from: TreePath, to: TreePath },
}

/// What the contracts say of a `CopyStep`.
pub enum StepView {
    CreateParents(Seq<Seq<char>>),
    ClearWriteProtection(Seq<Seq<char>>),
    CopyStream { from: Seq<Seq<char>>, to: Seq<Seq<char>> },
}

impl View for CopyStep {
    type V = StepView;

    open spec fn view(&self) -> StepView {
        match self {
            CopyStep::CreateParents(dir) => StepView::CreateParents(dir@),
            CopyStep::ClearWriteProtection(file) => StepView::ClearWriteProtection(file@),
            CopyStep::CopyStream { from, to } => StepView::CopyStream { from: from@, to: to@ },
        }
    }
}

/// The views of a list of steps, in the same order.
pub open spec fn step_views(v: Seq<CopyStep>) -> Seq<StepView> {
    Seq::new(v.len(), |i: int| v[i]@)
}

/// The steps that a decision calls for, in order. A skipped file has none. A
/// copy first makes the directories above the target, where the target has
/// any component; lifts the write protection of a target that is there; and
/// then copies the bytes.
pub open spec fn steps_for(decision: SyncDecision, source: Seq<Seq<char>>, target: Seq<Seq<char>>) -> Seq<
    StepView,
> {
    let parents = if target.len() > 0 {
        seq![StepView::CreateParents(target.drop_last())]
    } else {
        Seq::empty()
    };
    let copy = seq![StepView::CopyStream { from: source, to: target }];
    match decision {
        SyncDecision::Skip => Seq::empty(),
        SyncDecision::CopyMissing => parents + copy,
        SyncDecision::CopyStale => parents + seq![StepView::ClearWriteProtection(target)] + copy,
    }
}

/// The steps to carry out for a file, in order; each is attempted only if
/// the one before succeeded.
pub fn copy_steps(decision: SyncDecision, source: &TreePath, target: &TreePath) -> (r: Vec<CopyStep>)
    ensures
        step_views(r@) == steps_for(decision, source@, target@),
{
    let mut out: Vec<CopyStep> = Vec::new();
    match decision {
        SyncDecision::Skip => {},
        _ => {
            match target.parent() {
                Some(dir) => {
                    out.push(CopyStep::CreateParents(dir));
                },
                None => {},
            }
            match decision {
                SyncDecision::CopyStale => {
                    out.push(CopyStep::ClearWriteProtection(target.duplicate()));
                },
                _ => {},
            }
            out.push(CopyStep::CopyStream { from: source.duplicate(), to: target.duplicate() });
        },
    }
    assert(step_views(out@) =~= steps_for(decision, source@, target@));
    out
}

/// The error that stands for the failure of a step.
pub open spec fn failure_of(step: StepView, reason: String) -> SyncError {
    match step {
        StepView::CreateParents(_) => SyncError::CreateParents(reason),
        StepView::ClearWriteProtection(_) => SyncError::ClearWriteProtection(reason),
        StepView::CopyStream { from: _, to: _ } => SyncError::Copy(reason),
    }
}

/// The error to report when `step` failed for `reason`.
pub fn step_failure(step: &CopyStep, reason: String) -> (r: SyncError)
    ensures
        r == failure_of(step@, reason),
{
    match step {
        CopyStep::CreateParents(_) => SyncError::CreateParents(reason),
        CopyStep::ClearWriteProtection(_) => SyncError::ClearWriteProtection(reason),
        CopyStep::CopyStream { from: _, to: _ } => SyncError::Copy(reason),
    }
}

/// The number of bytes read at a time while copying.
pub const CHUNK_SIZE: usize = 8192;

/// What to do with a chunk that was read.
#[derive(Clone, Copy, Debug, PartialEq, Eq, Structural)]
pub enum ChunkAction {
    /// Write this many bytes from the front of the buffer, then read on.
    Write(usize),
    /// The source is at its end: the copy is complete.
    Finish,
}

/// How far the copy of one file has come.
#[derive(Clone, Copy, Debug, PartialEq, Eq, Structural)]
pub struct CopyProgress {
    /// The bytes handed on for writing so far.
    pub copied: u64,
}

impl CopyProgress {
    /// The progress of a copy that has not read anything yet.
    pub fn new() -> (r: CopyProgress)
        ensures
            r.copied == 0,
    {
        CopyProgress { copied: 0 }
    }

    /// Takes note of a read of `n` bytes. A read of nothing ends the copy and
    /// leaves the count as it is; any other read is to be written out in
    /// full, and is counted.
    pub fn after_read(&mut self, n: usize) -> (r: ChunkAction)
        requires
            old(self).copied + n <= u64::MAX,
        ensures
            n == 0 ==> r == ChunkAction::Finish && *final(self) == *old(self),
            n > 0 ==> r == ChunkAction::Write(n) && final(self).copied == old(self).copied + n,
    {
        if n == 0 {
            ChunkAction::Finish
        } else {
            self.copied = self.copied + n as u64;
            ChunkAction::Write(n)
        }
    }
}

/// What is reported of one file.
#[derive(Debug, PartialEq, Eq)]
pub enum FileOutcome {
    Copied,
    Skipped,
    Failed(SyncError),
}

/// What is reported of a file once its decision was attempted: the failure
/// where there was one, else whether it was copied or skipped.
pub open spec fn outcome_of(verdict: Result<SyncDecision, SyncError>, failure: Option<SyncError>) -> FileOutcome {
    match verdict {
        Err(e) => FileOutcome::Failed(e),
        Ok(decision) => match failure {
            Some(e) => FileOutcome::Failed(e),
            None => if decision.copies() {
                FileOutcome::Copied
            } else {
                FileOutcome::Skipped
            },
        },
    }
}

/// The outcome of a file: `verdict` is what was decided of it, `failure` the
/// error of the first step that failed, if one did.
pub fn conclude(verdict: Result<SyncDecision, SyncError>, failure: Option<SyncError>) -> (r: FileOutcome)
    ensures
        r == outcome_of(verdict, failure),
{
    match verdict {
        Err(e) => FileOutcome::Failed(e),
        Ok(decision) => match failure {
            Some(e) => FileOutcome::Failed(e),
            None => if decision.is_copy() {
                FileOutcome::Copied
            } else {
                FileOutcome::Skipped
            },
        },
    }
}

/// What a run reports of one file: which file, and what became of it.
#[derive(Debug, PartialEq, Eq)]
pub struct FileEvent {
    /// The file's path in the source.
    pub path: TreePath,
    pub outcome: FileOutcome,
}

/// The event to report for the source file at `path`, from what was decided
/// of it and from the error of the first step that failed, if one did.
pub fn report_file(path: TreePath, verdict: Result<SyncDecision, SyncError>, failure: Option<SyncError>) -> (r:
    FileEvent)
    ensures
        r.path == path,
        r.outcome == outcome_of(verdict, failure),
{
    FileEvent { path, outcome: conclude(verdict, failure) }
}

/// How many of the outcomes are copies.
pub open spec fn count_copied(s: Seq<FileOutcome>) -> nat
    decreases s.len(),
{
    if s.len() == 0 {
        0
    } else {
        count_copied(s.drop_last()) + if s.last() == FileOutcome::Copied {
            1nat
        } else {
            0nat
        }
    }
}

/// How many of the outcomes are skips.
pub open spec fn count_skipped(s: Seq<FileOutcome>) -> nat
    decreases s.len(),
{
    if s.len() == 0 {
        0
    } else {
        count_skipped(s.drop_last()) + if s.last() == FileOutcome::Skipped {
            1nat
        } else {
            0nat
        }
    }
}

/// How many of the outcomes are failures.
pub open spec fn count_failed(s: Seq<FileOutcome>) -> nat
    decreases s.len(),
{
    if s.len() == 0 {
        0
    } else {
        count_failed(s.drop_last()) + if s.last() is Failed {
            1nat
        } else {
            0nat
        }
    }
}

/// Every outcome is a copy, a skip or a failure, and only one of them.
pub proof fn lemma_counts_add_up(s: Seq<FileOutcome>)
    ensures
        count_copied(s) + count_skipped(s) + count_failed(s) == s.len(),
    decreases s.len(),
{
    if s.len() > 0 {
        lemma_counts_add_up(s.drop_last());
    }
}

/// The count of a run: how many files were dealt with, and how.
#[derive(Clone, Copy, Debug, PartialEq, Eq, Structural)]
pub struct SyncSummary {
    pub processed: u64,
    pub copied: u64,
    pub skipped: u64,
    pub failed: u64,
}

impl SyncSummary {
    /// Whether every file dealt with was counted under exactly one outcome.
    pub open spec fn balanced(self) -> bool {
        self.processed == self.copied + self.skipped + self.failed
    }

    /// The summary after one more file with the given outcome.
    pub open spec fn with(self, outcome: FileOutcome) -> SyncSummary
        recommends
            self.processed < u64::MAX,
    {
        match outcome {
            FileOutcome::Copied => SyncSummary {
                processed: (self.processed + 1) as u64,
                copied: (self.copied + 1) as u64,
                ..self
            },
            FileOutcome::Skipped => SyncSummary {
                processed: (self.processed + 1) as u64,
                skipped: (self.skipped + 1) as u64,
                ..self
            },
            FileOutcome::Failed(_) => SyncSummary {
                processed: (self.processed + 1) as u64,
                failed: (self.failed + 1) as u64,
                ..self
            },
        }
    }

    /// The summary of a run that has not dealt with any file yet.
    pub fn new() -> (r: SyncSummary)
        ensures
            r == (SyncSummary { processed: 0, copied: 0, skipped: 0, failed: 0 }),
            r.balanced(),
    {
        SyncSummary { processed: 0, copied: 0, skipped: 0, failed: 0 }
    }

    /// The summary of a run with the given outcomes, one for each file.
    pub fn tally(outcomes: &Vec<FileOutcome>) -> (r: SyncSummary)
        ensures
            r.processed == outcomes@.len(),
            r.copied == count_copied(outcomes@),
            r.skipped == count_skipped(outcomes@),
            r.failed == count_failed(outcomes@),
            r.balanced(),
    {
        let mut summary = SyncSummary::new();
        let mut i: usize = 0;
        while i < outcomes.len()
            invariant
                i <= outcomes@.len(),
                summary.processed == i,
                summary.copied == count_copied(outcomes@.take(i as int)),
                summary.skipped == count_skipped(outcomes@.take(i as int)),
                summary.failed == count_failed(outcomes@.take(i as int)),
                summary.balanced(),
            decreases outcomes@.len() - i,
        {
            proof {
                assert(outcomes@.take(i + 1).drop_last() =~= outcomes@.take(i as int));
                assert(outcomes@.take(i + 1).last() == outcomes@[i as int]);
            }
            summary.record(&outcomes[i]);
            i += 1;
        }
        proof {
            assert(outcomes@.take(outcomes@.len() as int) =~= outcomes@);
        }
        summary
    }

    /// Counts one file: the number of files dealt with goes up by one,
    /// whatever the outcome, and so does the count of that outcome.
    pub fn record(&mut self, outcome: &FileOutcome)
        requires
            old(self).balanced(),
            old(self).processed < u64::MAX,
        ensures
            *final(self) == old(self).with(*outcome),
            final(self).processed == old(self).processed + 1,
            final(self).balanced(),
    {
        self.processed = self.processed + 1;
        match outcome {
            FileOutcome::Copied => {
                self.copied = self.copied + 1;
            },
            FileOutcome::Skipped => {
                self.skipped = self.skipped + 1;
            },
            FileOutcome::Failed(_) => {
                self.failed = self.failed + 1;
            },
        }
    }
}

/// Why a run cannot start.
#[derive(Debug, PartialEq, Eq)]
pub enum SetupError {
    /// The source is not a directory.
    SourceNotDirectory,
    /// Something that is not a directory stands where the target should be.
    TargetNotDirectory,
    /// The target directory is missing and could not be made.
    TargetNotCreatable(String),
}

/// What to do about the target root before the first file.
#[derive(Clone, Copy, Debug, PartialEq, Eq, Structural)]
pub enum Setup {
    /// The target directory is there.
    UseTarget,
    /// The target directory has to be made first.
    CreateTarget,
}

/// Whether a run can start, and whether the target has to be made first.
pub open spec fn setup_for(source_is_dir: bool, target_exists: bool, target_is_dir: bool) -> Result<
    Setup,
    SetupError,
> {
    if !source_is_dir {
        Err(SetupError::SourceNotDirectory)
    } else if !target_exists {
        Ok(Setup::CreateTarget)
    } else if target_is_dir {
        Ok(Setup::UseTarget)
    } else {
        Err(SetupError::TargetNotDirectory)
    }
}

/// Checks the two roots before anything is touched. The source must be a
/// directory; the target must be a directory or not be there at all.
pub fn check_setup(source_is_dir: bool, target_exists: bool, target_is_dir: bool) -> (r: Result<
    Setup,
    SetupError,
>)
    ensures
        r == setup_for(source_is_dir, target_exists, target_is_dir),
{
    if !source_is_dir {
        Err(SetupError::SourceNotDirectory)
    } else if !target_exists {
        Ok(Setup::CreateTarget)
    } else if target_is_dir {
        Ok(Setup::UseTarget)
    } else {
        Err(SetupError::TargetNotDirectory)
    }
}

/// The part of a run that is under way.
#[derive(Clone, Copy, Debug, PartialEq, Eq, Structural)]
pub enum Phase {
    Copying,
    Pruning,
    Done,
}

impl Phase {
    /// The phase that follows this one. Pruning comes only after all copying,
    /// and only where it was asked for.
    pub open spec fn following(self, prune: bool) -> Phase {
        match self {
            Phase::Copying => if prune {
                Phase::Pruning
            } else {
                Phase::Done
            },
            _ => Phase::Done,
        }
    }

    /// The phase to enter when this one is over.
    pub fn next(self, prune: bool) -> (r: Phase)
        ensures
            r == self.following(prune),
    {
        match self {
            Phase::Copying => if prune {
                Phase::Pruning
            } else {
                Phase::Done
            },
            _ => Phase::Done,
        }
    }
}

} // verus!
