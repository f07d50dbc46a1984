//! What holds of every pruning pass: what is removed, what is kept, and in
//! what order.

use vstd::prelude::*;
use crate::path::lemma_below_root_differs;
use crate::prune::{at_depth, deepest_first_spec, from_depth_down, max_depth, prune_plan_spec, removal_of, removals, report_of, DeletionView, EntryView, ReportView};

verus! {

proof fn lemma_push_contains<A>(a: Seq<A>, y: A, x: A)
    ensures
        a.push(y).contains(x) <==> (a.contains(x) || x == y),
{
    if a.contains(x) {
        let i = choose|i: int| 0 <= i < a.len() && a[i] == x;
        assert(a.push(y)[i] == x);
    }
    if x == y {
        assert(a.push(y)[a.len() as int] == x);
    }
    if a.push(y).contains(x) {
        let i = choose|i: int| 0 <= i < a.push(y).len() && a.push(y)[i] == x;
        if i < a.len() {
            assert(a[i] == x);
        }
    }
}

proof fn lemma_add_contains<A>(a: Seq<A>, b: Seq<A>, x: A)
    ensures
        (a + b).contains(x) <==> (a.contains(x) || b.contains(x)),
{
    if a.contains(x) {
        let i = choose|i: int| 0 <= i < a.len() && a[i] == x;
        assert((a + b)[i] == x);
    }
    if b.contains(x) {
        let i = choose|i: int| 0 <= i < b.len() && b[i] == x;
        assert((a + b)[a.len() + i] == x);
    }
    if (a + b).contains(x) {
        let i = choose|i: int| 0 <= i < (a + b).len() && (a + b)[i] == x;
        if i < a.len() {
            assert(a[i] == x);
        } else {
            assert(b[i - a.len()] == x);
        }
    }
}

proof fn lemma_last_contains<A>(s: Seq<A>, x: A)
    requires
        s.len() > 0,
    ensures
        s.contains(x) <==> (s.drop_last().contains(x) || x == s.last()),
{
    assert(s =~= s.drop_last().push(s.last()));
    lemma_push_contains(s.drop_last(), s.last(), x);
}

/// The entries picked at one depth are those of the list that lie there.
pub proof fn lemma_at_depth_members(s: Seq<EntryView>, d: nat, x: EntryView)
    ensures
        at_depth(s, d).contains(x) <==> (s.contains(x) && x.depth() == d),
    decreases s.len(),
{
    if s.len() > 0 {
        lemma_at_depth_members(s.drop_last(), d, x);
        lemma_last_contains(s, x);
        lemma_push_contains(at_depth(s.drop_last(), d), s.last(), x);
    }
}

proof fn lemma_from_depth_down_members(s: Seq<EntryView>, d: nat, x: EntryView)
    ensures
        from_depth_down(s, d).contains(x) <==> (s.contains(x) && 1 <= x.depth() <= d),
    decreases d,
{
    if d > 0 {
        lemma_from_depth_down_members(s, (d - 1) as nat, x);
        lemma_at_depth_members(s, d, x);
        lemma_add_contains(at_depth(s, d), from_depth_down(s, (d - 1) as nat), x);
    }
}

/// No entry lies deeper than the greatest depth.
pub proof fn lemma_max_depth_bounds(s: Seq<EntryView>, x: EntryView)
    requires
        s.contains(x),
    ensures
        x.depth() <= max_depth(s),
    decreases s.len(),
{
    lemma_last_contains(s, x);
    if s.drop_last().contains(x) {
        lemma_max_depth_bounds(s.drop_last(), x);
    }
}

/// The deepest-first order holds exactly the entries below the root: none is
/// lost, none is made up, and the root is not among them.
pub proof fn lemma_deepest_first_members(s: Seq<EntryView>, x: EntryView)
    ensures
        deepest_first_spec(s).contains(x) <==> (s.contains(x) && x.depth() > 0),
{
    lemma_from_depth_down_members(s, max_depth(s), x);
    if s.contains(x) {
        lemma_max_depth_bounds(s, x);
    }
}

/// Whether no entry of `s` comes before a deeper one.
pub open spec fn descending(s: Seq<EntryView>) -> bool {
    forall|i: int, j: int| 0 <= i < j < s.len() ==> s[i].depth() >= s[j].depth()
}

proof fn lemma_from_depth_down_descending(s: Seq<EntryView>, d: nat)
    ensures
        descending(from_depth_down(s, d)),
    decreases d,
{
    if d > 0 {
        let a = at_depth(s, d);
        let b = from_depth_down(s, (d - 1) as nat);
        let r = a + b;
        lemma_from_depth_down_descending(s, (d - 1) as nat);
        assert forall|i: int, j: int| 0 <= i < j < r.len() implies r[i].depth() >= r[j].depth() by {
            if i < a.len() {
                assert(a.contains(a[i]));
                lemma_at_depth_members(s, d, a[i]);
            }
            if j < a.len() {
                assert(a.contains(a[j]));
                lemma_at_depth_members(s, d, a[j]);
            } else {
                assert(b.contains(b[j - a.len()]));
                lemma_from_depth_down_members(s, (d - 1) as nat, b[j - a.len()]);
            }
            if i >= a.len() {
                assert(r[i] == b[i - a.len()]);
                assert(r[j] == b[j - a.len()]);
            }
        }
    }
}

/// In the deepest-first order no entry comes before a deeper one.
pub proof fn lemma_deepest_first_descending(s: Seq<EntryView>)
    ensures
        descending(deepest_first_spec(s)),
{
    lemma_from_depth_down_descending(s, max_depth(s));
}

/// Whether some entry of `s` that the source does not hold calls for the
/// removal `dv`.
pub open spec fn called_for(root: Seq<Seq<char>>, s: Seq<EntryView>, dv: DeletionView) -> bool {
    exists|m: int| 0 <= m < s.len() && !(#[trigger] s[m]).in_source && dv == removal_of(root, s[m])
}

/// The removals are those of the entries that the source does not hold.
pub proof fn lemma_removals_members(root: Seq<Seq<char>>, s: Seq<EntryView>, dv: DeletionView)
    ensures
        removals(root, s).contains(dv) <==> called_for(root, s, dv),
    decreases s.len(),
{
    if s.len() > 0 {
        let t = s.drop_last();
        lemma_removals_members(root, t, dv);
        lemma_push_contains(removals(root, t), removal_of(root, s.last()), dv);
        if called_for(root, t, dv) {
            let m = choose|m: int| 0 <= m < t.len() && !(#[trigger] t[m]).in_source && dv == removal_of(root, t[m]);
            assert(s[m] == t[m]);
        }
        if !s.last().in_source && dv == removal_of(root, s.last()) {
            assert(s[s.len() - 1] == s.last());
        }
        if called_for(root, s, dv) {
            let m = choose|m: int| 0 <= m < s.len() && !(#[trigger] s[m]).in_source && dv == removal_of(root, s[m]);
            if m < t.len() {
                assert(t[m] == s[m]);
            }
        }
    }
}

/// Whether no removal of `p` comes before one of a deeper entry.
pub open spec fn plan_descending(p: Seq<DeletionView>) -> bool {
    forall|i: int, j: int| 0 <= i < j < p.len() ==> p[i].rel.len() >= p[j].rel.len()
}

proof fn lemma_removals_descending(root: Seq<Seq<char>>, s: Seq<EntryView>)
    requires
        descending(s),
    ensures
        plan_descending(removals(root, s)),
    decreases s.len(),
{
    if s.len() > 0 {
        let t = s.drop_last();
        let pt = removals(root, t);
        assert(descending(t)) by {
            assert forall|i: int, j: int| 0 <= i < j < t.len() implies t[i].depth() >= t[j].depth() by {
                assert(t[i] == s[i] && t[j] == s[j]);
            }
        }
        lemma_removals_descending(root, t);
        if !s.last().in_source {
            let p = pt.push(removal_of(root, s.last()));
            assert forall|i: int, j: int| 0 <= i < j < p.len() implies p[i].rel.len() >= p[j].rel.len() by {
                if j == pt.len() {
                    assert(pt.contains(pt[i]));
                    lemma_removals_members(root, t, pt[i]);
                    let m = choose|m: int| 0 <= m < t.len() && !(#[trigger] t[m]).in_source && pt[i] == removal_of(root, t[m]);
                    assert(t[m] == s[m]);
                    assert(s[m].depth() >= s[s.len() - 1].depth());
                } else {
                    assert(p[i] == pt[i] && p[j] == pt[j]);
                }
            }
        }
    }
}

/// In the plan no removal comes before that of a deeper entry.
pub proof fn lemma_plan_descending(root: Seq<Seq<char>>, entries: Seq<EntryView>)
    ensures
        plan_descending(prune_plan_spec(root, entries)),
{
    lemma_deepest_first_descending(entries);
    lemma_removals_descending(root, deepest_first_spec(entries));
}

/// Deletion ordering: in the plan, the removal of a deeper entry always comes
/// before that of a shallower one. So no directory is attempted before
/// anything below it that is to go as well.
pub proof fn lemma_deeper_first(root: Seq<Seq<char>>, entries: Seq<EntryView>, i: int, j: int)
    requires
        0 <= i < prune_plan_spec(root, entries).len(),
        0 <= j < prune_plan_spec(root, entries).len(),
        prune_plan_spec(root, entries)[i].rel.len() > prune_plan_spec(root, entries)[j].rel.len(),
    ensures
        i < j,
{
    lemma_plan_descending(root, entries);
}

/// Deletion ordering, of a directory and what it holds: where the plan
/// removes both an entry and something below it, it removes the latter first.
pub proof fn lemma_descendants_first(root: Seq<Seq<char>>, entries: Seq<EntryView>, i: int, j: int)
    requires
        0 <= i < prune_plan_spec(root, entries).len(),
        0 <= j < prune_plan_spec(root, entries).len(),
        prune_plan_spec(root, entries)[j].rel.is_prefix_of(prune_plan_spec(root, entries)[i].rel),
        prune_plan_spec(root, entries)[j].rel != prune_plan_spec(root, entries)[i].rel,
    ensures
        i < j,
{
    let plan = prune_plan_spec(root, entries);
    if plan[j].rel.len() == plan[i].rel.len() {
        assert(plan[i].rel.subrange(0, plan[j].rel.len() as int) =~= plan[i].rel);
    }
    lemma_deeper_first(root, entries, i, j);
}

/// Root protection and keeping: every removal of the plan is that of an entry
/// that was found, lies below the root and has no counterpart in the source;
/// its path is never the root.
pub proof fn lemma_plan_sound(root: Seq<Seq<char>>, entries: Seq<EntryView>, k: int)
    requires
        0 <= k < prune_plan_spec(root, entries).len(),
    ensures
        prune_plan_spec(root, entries)[k].rel.len() > 0,
        prune_plan_spec(root, entries)[k].path == root + prune_plan_spec(root, entries)[k].rel,
        prune_plan_spec(root, entries)[k].path != root,
        exists|m: int|
            0 <= m < entries.len() && !(#[trigger] entries[m]).in_source && entries[m].depth() > 0
                && prune_plan_spec(root, entries)[k] == removal_of(root, entries[m]),
{
    let ordered = deepest_first_spec(entries);
    let plan = prune_plan_spec(root, entries);
    assert(plan.contains(plan[k]));
    lemma_removals_members(root, ordered, plan[k]);
    let o = choose|o: int| 0 <= o < ordered.len() && !(#[trigger] ordered[o]).in_source && plan[k] == removal_of(root, ordered[o]);
    assert(ordered.contains(ordered[o]));
    lemma_deepest_first_members(entries, ordered[o]);
    let m = choose|m: int| 0 <= m < entries.len() && entries[m] == ordered[o];
    assert(!entries[m].in_source && entries[m].depth() > 0 && plan[k] == removal_of(root, entries[m]));
    lemma_below_root_differs(root, plan[k].rel);
}

/// Completeness of the plan: every entry below the root that has no
/// counterpart in the source has its removal in the plan.
pub proof fn lemma_plan_complete(root: Seq<Seq<char>>, entries: Seq<EntryView>, m: int)
    requires
        0 <= m < entries.len(),
        entries[m].depth() > 0,
        !entries[m].in_source,
    ensures
        prune_plan_spec(root, entries).contains(removal_of(root, entries[m])),
{
    let ordered = deepest_first_spec(entries);
    assert(entries.contains(entries[m]));
    lemma_deepest_first_members(entries, entries[m]);
    let o = choose|o: int| 0 <= o < ordered.len() && ordered[o] == entries[m];
    assert(!ordered[o].in_source && removal_of(root, entries[m]) == removal_of(root, ordered[o]));
    lemma_removals_members(root, ordered, removal_of(root, entries[m]));
}

/// Whether the report holds a failed removal of `rel`.
pub open spec fn failed(report: ReportView, rel: Seq<Seq<char>>) -> bool {
    exists|i: int| 0 <= i < report.failures.len() && (#[trigger] report.failures[i]).0 == rel
}

/// Whether `rel` is the path of a removal of `plan` that succeeded.
pub open spec fn removed_in(
    plan: Seq<DeletionView>,
    outcomes: Seq<Result<(), Seq<char>>>,
    rel: Seq<Seq<char>>,
) -> bool {
    exists|k: int| 0 <= k < plan.len() && (#[trigger] plan[k]).rel == rel && outcomes[k].is_ok()
}

/// The report holds every attempted removal once, among the removed paths or
/// among the failures, and nothing else among the removed paths.
pub proof fn lemma_report_members(plan: Seq<DeletionView>, outcomes: Seq<Result<(), Seq<char>>>)
    requires
        plan.len() == outcomes.len(),
    ensures
        report_of(plan, outcomes).deleted.len() + report_of(plan, outcomes).failures.len() == plan.len(),
        forall|k: int|
            0 <= k < plan.len() ==> report_of(plan, outcomes).deleted.contains((#[trigger] plan[k]).rel)
                || failed(report_of(plan, outcomes), plan[k].rel),
        forall|rel: Seq<Seq<char>>| #[trigger]
            report_of(plan, outcomes).deleted.contains(rel) ==> removed_in(plan, outcomes, rel),
    decreases plan.len(),
{
    if plan.len() > 0 {
        let pt = plan.drop_last();
        let ot = outcomes.drop_last();
        let before = report_of(pt, ot);
        let after = report_of(plan, outcomes);
        lemma_report_members(pt, ot);
        assert forall|k: int| 0 <= k < plan.len() implies after.deleted.contains((#[trigger] plan[k]).rel)
            || failed(after, plan[k].rel) by {
            if k < pt.len() {
                assert(pt[k] == plan[k]);
                if before.deleted.contains(plan[k].rel) {
                    lemma_push_contains(before.deleted, plan.last().rel, plan[k].rel);
                } else {
                    assert(failed(before, pt[k].rel));
                    let i = choose|i: int| 0 <= i < before.failures.len() && (#[trigger] before.failures[i]).0 == plan[k].rel;
                    assert(after.failures[i].0 == plan[k].rel);
                }
            } else {
                match outcomes.last() {
                    Ok(_) => {
                        lemma_push_contains(before.deleted, plan.last().rel, plan[k].rel);
                    },
                    Err(reason) => {
                        assert(after.failures[before.failures.len() as int].0 == plan[k].rel);
                    },
                }
            }
        }
        assert forall|rel: Seq<Seq<char>>| #[trigger] after.deleted.contains(rel) implies removed_in(plan, outcomes, rel) by {
            lemma_push_contains(before.deleted, plan.last().rel, rel);
            if before.deleted.contains(rel) {
                assert(removed_in(pt, ot, rel));
                let k = choose|k: int| 0 <= k < pt.len() && (#[trigger] pt[k]).rel == rel && ot[k].is_ok();
                assert(plan[k].rel == rel && outcomes[k].is_ok());
            } else {
                assert(plan[plan.len() - 1].rel == rel && outcomes[plan.len() - 1].is_ok());
            }
        }
    }
}

/// Purge correctness: after a pass that attempted the whole plan, every entry
/// found below the target root either has a counterpart in the source, or was
/// removed, or had its removal attempted and reported as failed; and every
/// removed path is that of an entry below the root without a counterpart in
/// the source.
pub proof fn lemma_purge_correct(
    root: Seq<Seq<char>>,
    entries: Seq<EntryView>,
    outcomes: Seq<Result<(), Seq<char>>>,
)
    requires
        outcomes.len() == prune_plan_spec(root, entries).len(),
    ensures
        forall|m: int|
            0 <= m < entries.len() && (#[trigger] entries[m]).depth() > 0 ==> entries[m].in_source
                || report_of(prune_plan_spec(root, entries), outcomes).deleted.contains(entries[m].rel)
                || failed(report_of(prune_plan_spec(root, entries), outcomes), entries[m].rel),
        forall|rel: Seq<Seq<char>>| #[trigger]
            report_of(prune_plan_spec(root, entries), outcomes).deleted.contains(rel) ==> exists|m: int|
                0 <= m < entries.len() && (#[trigger] entries[m]).rel == rel && !entries[m].in_source
                    && entries[m].depth() > 0,
{
    let plan = prune_plan_spec(root, entries);
    let report = report_of(plan, outcomes);
    lemma_report_members(plan, outcomes);
    assert forall|m: int| 0 <= m < entries.len() && (#[trigger] entries[m]).depth() > 0 implies entries[m].in_source
        || report.deleted.contains(entries[m].rel) || failed(report, entries[m].rel) by {
        if !entries[m].in_source {
            lemma_plan_complete(root, entries, m);
            let k = choose|k: int| 0 <= k < plan.len() && plan[k] == removal_of(root, entries[m]);
            assert(plan[k].rel == entries[m].rel);
        }
    }
    assert forall|rel: Seq<Seq<char>>| #[trigger] report.deleted.contains(rel) implies exists|m: int|
        0 <= m < entries.len() && (#[trigger] entries[m]).rel == rel && !entries[m].in_source
            && entries[m].depth() > 0 by {
        assert(removed_in(plan, outcomes, rel));
        let k = choose|k: int| 0 <= k < plan.len() && (#[trigger] plan[k]).rel == rel && outcomes[k].is_ok();
        lemma_plan_sound(root, entries, k);
        let m = choose|m: int|
            0 <= m < entries.len() && !(#[trigger] entries[m]).in_source && entries[m].depth() > 0
                && plan[k] == removal_of(root, entries[m]);
        assert(entries[m].rel == rel);
    }
}

} // verus!
