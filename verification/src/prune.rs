//! Removal of what the target holds and the source does not: which entries
//! go, and in what order.

use vstd::prelude::*;
use crate::path::TreePath;
use crate::prune_laws::{
    descending, lemma_deepest_first_descending, lemma_plan_descending, lemma_plan_sound, plan_descending,
};

verus! {

/// An entry found below the target root.
#[derive(Debug, PartialEq, Eq)]
pub struct TargetEntry {
    /// Its path relative to the target root.
    pub rel: TreePath,
    /// Whether it is a regular file; anything else is removed as a directory.
    pub is_file: bool,
    /// Whether the source holds an entry at the same relative path.
    pub in_source: bool,
}

/// What the contracts say of a `TargetEntry`.
pub struct EntryView {
    pub rel: Seq<Seq<char>>,
    pub is_file: bool,
    pub in_source: bool,
}

impl View for TargetEntry {
    type V = EntryView;

    open spec fn view(&self) -> EntryView {
        EntryView { rel: self.rel@, is_file: self.is_file, in_source: self.in_source }
    }
}

impl EntryView {
    /// The number of components below the root; the root itself has depth 0.
    pub open spec fn depth(self) -> nat {
        self.rel.len()
    }
}

/// The views of a list of entries, in the same order.
pub open spec fn entry_views(v: Seq<TargetEntry>) -> Seq<EntryView> {
    Seq::new(v.len(), |i: int| v[i]@)
}

/// The entries of `s` that lie at depth `d`, in the order in which `s` has them.
pub open spec fn at_depth(s: Seq<EntryView>, d: nat) -> Seq<EntryView>
    decreases s.len(),
{
    if s.len() == 0 {
        Seq::empty()
    } else if s.last().depth() == d {
        at_depth(s.drop_last(), d).push(s.last())
    } else {
        at_depth(s.drop_last(), d)
    }
}

/// The entries of `s` at depths `d` down to 1: first those at depth `d`, then
/// those at `d - 1`, and so on. Entries at one depth keep the order of `s`.
pub open spec fn from_depth_down(s: Seq<EntryView>, d: nat) -> Seq<EntryView>
    decreases d,
{
    if d == 0 {
        Seq::empty()
    } else {
        at_depth(s, d) + from_depth_down(s, (d - 1) as nat)
    }
}

/// The greatest depth among the entries of `s`; 0 where there is none.
pub open spec fn max_depth(s: Seq<EntryView>) -> nat
    decreases s.len(),
{
    if s.len() == 0 {
        0
    } else if s.last().depth() > max_depth(s.drop_last()) {
        s.last().depth()
    } else {
        max_depth(s.drop_last())
    }
}

/// Every entry of `s` but the root, deepest first. Entries of equal depth keep
/// the order of `s`.
pub open spec fn deepest_first_spec(s: Seq<EntryView>) -> Seq<EntryView> {
    from_depth_down(s, max_depth(s))
}

impl TargetEntry {
    /// A copy of the entry.
    pub fn duplicate(&self) -> (r: TargetEntry)
        ensures
            r@ == self@,
    {
        TargetEntry { rel: self.rel.duplicate(), is_file: self.is_file, in_source: self.in_source }
    }
}

/// The greatest depth among `entries`.
pub fn deepest(entries: &Vec<TargetEntry>) -> (r: usize)
    ensures
        r == max_depth(entry_views(entries@)),
{
    let ghost s = entry_views(entries@);
    let mut best: usize = 0;
    let mut i: usize = 0;
    while i < entries.len()
        invariant
            i <= entries@.len(),
            s == entry_views(entries@),
            best == max_depth(s.take(i as int)),
        decreases entries@.len() - i,
    {
        proof {
            assert(s.take(i + 1).drop_last() =~= s.take(i as int));
            assert(s.take(i + 1).last() == entries@[i as int]@);
        }
        let d: usize = entries[i].rel.depth();
        if d > best {
            best = d;
        }
        i += 1;
    }
    proof {
        assert(s.take(entries@.len() as int) =~= s);
    }
    best
}

/// Appends to `out` the entries of `entries` that lie at depth `d`.
fn push_at_depth(entries: &Vec<TargetEntry>, d: usize, out: &mut Vec<TargetEntry>)
    ensures
        entry_views(final(out)@) == entry_views(old(out)@) + at_depth(entry_views(entries@), d as nat),
{
    let ghost s = entry_views(entries@);
    let ghost before = entry_views(out@);
    let mut i: usize = 0;
    while i < entries.len()
        invariant
            i <= entries@.len(),
            s == entry_views(entries@),
            entry_views(out@) == before + at_depth(s.take(i as int), d as nat),
        decreases entries@.len() - i,
    {
        proof {
            assert(s.take(i + 1).drop_last() =~= s.take(i as int));
            assert(s.take(i + 1).last() == entries@[i as int]@);
        }
        if entries[i].rel.depth() == d {
            let ghost prev = entry_views(out@);
            out.push(entries[i].duplicate());
            assert(entry_views(out@) =~= prev.push(entries@[i as int]@));
            assert(entry_views(out@) =~= before + at_depth(s.take(i + 1), d as nat));
        }
        i += 1;
    }
    proof {
        assert(s.take(entries@.len() as int) =~= s);
    }
}

/// The order in which the entries below the target root are considered for
/// removal: deepest first, the root itself left out, and entries of equal
/// depth in the order in which they were found.
pub fn deepest_first(entries: &Vec<TargetEntry>) -> (r: Vec<TargetEntry>)
    ensures
        entry_views(r@) == deepest_first_spec(entry_views(entries@)),
        descending(entry_views(r@)),
{
    let ghost s = entry_views(entries@);
    let top: usize = deepest(entries);
    let mut out: Vec<TargetEntry> = Vec::new();
    let mut d: usize = top;
    assert(entry_views(out@) + from_depth_down(s, d as nat) =~= from_depth_down(s, top as nat));
    while d > 0
        invariant
            s == entry_views(entries@),
            entry_views(out@) + from_depth_down(s, d as nat) == from_depth_down(s, top as nat),
        decreases d,
    {
        let ghost prev = entry_views(out@);
        push_at_depth(entries, d, &mut out);
        d -= 1;
        assert(entry_views(out@) + from_depth_down(s, d as nat)
            =~= prev + from_depth_down(s, (d + 1) as nat));
    }
    proof {
        assert(entry_views(out@) + from_depth_down(s, 0) =~= entry_views(out@));
        lemma_deepest_first_descending(s);
    }
    out
}

/// One removal to attempt.
#[derive(Debug, PartialEq, Eq)]
pub struct Deletion {
    /// The entry's path relative to the target root.
    pub rel: TreePath,
    /// The entry's full path: the target root followed by `rel`.
    pub path: TreePath,
    /// Whether to remove it as a file; otherwise as a directory, which is
    /// expected to fail while the directory still holds something.
    pub is_file: bool,
}

/// What the contracts say of a `Deletion`.
pub struct DeletionView {
    pub rel: Seq<Seq<char>>,
    pub path: Seq<Seq<char>>,
    pub is_file: bool,
}

impl View for Deletion {
    type V = DeletionView;

    open spec fn view(&self) -> DeletionView {
        DeletionView { rel: self.rel@, path: self.path@, is_file: self.is_file }
    }
}

/// The views of a list of removals, in the same order.
pub open spec fn deletion_views(v: Seq<Deletion>) -> Seq<DeletionView> {
    Seq::new(v.len(), |i: int| v[i]@)
}

/// The removal of entry `e` below `root`.
pub open spec fn removal_of(root: Seq<Seq<char>>, e: EntryView) -> DeletionView {
    DeletionView { rel: e.rel, path: root + e.rel, is_file: e.is_file }
}

/// The removals that the entries of `s` call for, in the order of `s`: one for
/// each entry that the source does not hold, none for the others.
pub open spec fn removals(root: Seq<Seq<char>>, s: Seq<EntryView>) -> Seq<DeletionView>
    decreases s.len(),
{
    if s.len() == 0 {
        Seq::empty()
    } else if !s.last().in_source {
        removals(root, s.drop_last()).push(removal_of(root, s.last()))
    } else {
        removals(root, s.drop_last())
    }
}

/// The removals to attempt for the entries found below `root`, in the order
/// in which to attempt them.
pub open spec fn prune_plan_spec(root: Seq<Seq<char>>, s: Seq<EntryView>) -> Seq<DeletionView> {
    removals(root, deepest_first_spec(s))
}

/// The removals that `ordered` calls for, in its order: an entry that the
/// source holds is kept, every other entry is removed.
pub fn plan_removals(target_root: &TreePath, ordered: &Vec<TargetEntry>) -> (r: Vec<Deletion>)
    ensures
        deletion_views(r@) == removals(target_root@, entry_views(ordered@)),
{
    let ghost s = entry_views(ordered@);
    let mut out: Vec<Deletion> = Vec::new();
    let mut i: usize = 0;
    assert(deletion_views(out@) =~= removals(target_root@, s.take(0)));
    while i < ordered.len()
        invariant
            i <= ordered@.len(),
            s == entry_views(ordered@),
            deletion_views(out@) == removals(target_root@, s.take(i as int)),
        decreases ordered@.len() - i,
    {
        proof {
            assert(s.take(i + 1).drop_last() =~= s.take(i as int));
            assert(s.take(i + 1).last() == ordered@[i as int]@);
        }
        if !ordered[i].in_source {
            let ghost prev = deletion_views(out@);
            let rel = ordered[i].rel.duplicate();
            let path = target_root.join(&rel);
            out.push(Deletion { rel, path, is_file: ordered[i].is_file });
            assert(deletion_views(out@) =~= prev.push(removal_of(target_root@, ordered@[i as int]@)));
        }
        i += 1;
    }
    proof {
        assert(s.take(ordered@.len() as int) =~= s);
    }
    out
}

/// The removals to attempt for the entries found below the target root, in
/// the order in which to attempt them: deepest first, never the root, and
/// never an entry that the source holds.
pub fn prune_plan(target_root: &TreePath, entries: &Vec<TargetEntry>) -> (r: Vec<Deletion>)
    ensures
        deletion_views(r@) == prune_plan_spec(target_root@, entry_views(entries@)),
        plan_descending(deletion_views(r@)),
        forall|k: int|
            0 <= k < r@.len() ==> (#[trigger] r@[k]).rel@.len() > 0 && r@[k].path@ == target_root@
                + r@[k].rel@ && r@[k].path@ != target_root@,
{
    let ordered = deepest_first(entries);
    let plan = plan_removals(target_root, &ordered);
    proof {
        lemma_plan_descending(target_root@, entry_views(entries@));
        assert forall|k: int| 0 <= k < plan@.len() implies (#[trigger] plan@[k]).rel@.len() > 0
            && plan@[k].path@ == target_root@ + plan@[k].rel@ && plan@[k].path@ != target_root@ by {
            lemma_plan_sound(target_root@, entry_views(entries@), k);
            assert(deletion_views(plan@)[k] == plan@[k]@);
        }
    }
    plan
}

/// A removal that failed.
#[derive(Debug, PartialEq, Eq)]
pub struct Failure {
    /// The entry's path relative to the target root.
    pub rel: TreePath,
    /// Why the removal failed.
    pub reason: String,
}

/// What a pruning pass did.
#[derive(Debug, PartialEq, Eq)]
pub struct PruneReport {
    /// The relative paths that were removed, in the order of their removal.
    pub deleted: Vec<TreePath>,
    /// The removals that failed, in the order in which they were attempted.
    pub failures: Vec<Failure>,
}

/// What the contracts say of a `PruneReport`.
pub struct ReportView {
    pub deleted: Seq<Seq<Seq<char>>>,
    pub failures: Seq<(Seq<Seq<char>>, Seq<char>)>,
}

impl ReportView {
    /// The report of a pass in which nothing was attempted.
    pub open spec fn empty() -> ReportView {
        ReportView { deleted: Seq::empty(), failures: Seq::empty() }
    }

    /// The report after one more removal, of `rel`, that ended in `outcome`.
    pub open spec fn record(self, rel: Seq<Seq<char>>, outcome: Result<(), Seq<char>>) -> ReportView {
        match outcome {
            Ok(_) => ReportView { deleted: self.deleted.push(rel), failures: self.failures },
            Err(reason) => ReportView {
                deleted: self.deleted,
                failures: self.failures.push((rel, reason)),
            },
        }
    }
}

/// The report of a pass that attempted `plan` in order, where the removal at
/// each place ended in the outcome at the same place.
pub open spec fn report_of(plan: Seq<DeletionView>, outcomes: Seq<Result<(), Seq<char>>>) -> ReportView
    recommends
        plan.len() == outcomes.len(),
    decreases plan.len(),
{
    if plan.len() == 0 || outcomes.len() == 0 {
        ReportView::empty()
    } else {
        report_of(plan.drop_last(), outcomes.drop_last()).record(plan.last().rel, outcomes.last())
    }
}

/// The view of a removal's outcome.
pub open spec fn outcome_view(outcome: Result<(), String>) -> Result<(), Seq<char>> {
    match outcome {
        Ok(_) => Ok(()),
        Err(reason) => Err(reason@),
    }
}

/// The views of a list of outcomes, in the same order.
pub open spec fn outcome_views(v: Seq<Result<(), String>>) -> Seq<Result<(), Seq<char>>> {
    Seq::new(v.len(), |i: int| outcome_view(v[i]))
}

impl View for PruneReport {
    type V = ReportView;

    open spec fn view(&self) -> ReportView {
        ReportView {
            deleted: Seq::new(self.deleted@.len(), |i: int| self.deleted@[i]@),
            failures: Seq::new(self.failures@.len(), |i: int| (self.failures@[i].rel@, self.failures@[i].reason@)),
        }
    }
}

impl PruneReport {
    /// The report of a pass in which nothing was attempted yet.
    pub fn new() -> (r: PruneReport)
        ensures
            r@ == ReportView::empty(),
    {
        let r = PruneReport { deleted: Vec::new(), failures: Vec::new() };
        assert(r@.deleted =~= Seq::empty());
        assert(r@.failures =~= Seq::empty());
        r
    }

    /// Notes how the removal `deletion` ended: its relative path joins the
    /// removed ones on success, the failures, with the reason, otherwise.
    pub fn record(&mut self, deletion: &Deletion, outcome: Result<(), String>)
        ensures
            final(self)@ == old(self)@.record(deletion@.rel, outcome_view(outcome)),
    {
        let ghost before = self@;
        match outcome {
            Ok(_) => {
                self.deleted.push(deletion.rel.duplicate());
                assert(self@.deleted =~= before.deleted.push(deletion@.rel));
                assert(self@.failures =~= before.failures);
            },
            Err(reason) => {
                self.failures.push(Failure { rel: deletion.rel.duplicate(), reason });
                assert(self@.deleted =~= before.deleted);
                assert(self@.failures =~= before.failures.push((deletion@.rel, reason@)));
            },
        }
    }

    /// The report of a pass that attempted `plan` in order, where `outcomes`
    /// holds, place by place, how each removal ended. There is none exactly
    /// when the two lists differ in length.
    pub fn summarize(plan: &Vec<Deletion>, outcomes: &Vec<Result<(), String>>) -> (r: Option<PruneReport>)
        ensures
            r.is_some() == (plan@.len() == outcomes@.len()),
            r matches Some(report) ==> report@ == report_of(deletion_views(plan@), outcome_views(outcomes@)),
    {
        if plan.len() != outcomes.len() {
            return None;
        }
        let ghost ps = deletion_views(plan@);
        let ghost os = outcome_views(outcomes@);
        let mut report = PruneReport::new();
        let mut i: usize = 0;
        while i < plan.len()
            invariant
                i <= plan@.len(),
                plan@.len() == outcomes@.len(),
                ps == deletion_views(plan@),
                os == outcome_views(outcomes@),
                report@ == report_of(ps.take(i as int), os.take(i as int)),
            decreases plan@.len() - i,
        {
            proof {
                assert(ps.take(i + 1).drop_last() =~= ps.take(i as int));
                assert(os.take(i + 1).drop_last() =~= os.take(i as int));
                assert(ps.take(i + 1).last() == plan@[i as int]@);
                assert(os.take(i + 1).last() == outcome_view(outcomes@[i as int]));
            }
            match &outcomes[i] {
                Ok(_) => {
                    report.record(&plan[i], Ok(()));
                },
                Err(reason) => {
                    report.record(&plan[i], Err(reason.clone()));
                },
            }
            i += 1;
        }
        proof {
            assert(ps.take(plan@.len() as int) =~= ps);
            assert(os.take(plan@.len() as int) =~= os);
        }
        Some(report)
    }

    /// How many entries were removed.
    pub fn deleted_count(&self) -> (r: usize)
        ensures
            r == self@.deleted.len(),
    {
        self.deleted.len()
    }

    /// Whether the pass removed nothing.
    pub fn nothing_deleted(&self) -> (r: bool)
        ensures
            r == (self@.deleted.len() == 0),
    {
        self.deleted.len() == 0
    }
}

} // verus!
