//! What holds of every copy phase, over a model of the two trees in which
//! every read and every copy succeeds.

use vstd::prelude::*;
use crate::sync::{decision, SyncDecision, SyncError, TargetProbe, Timestamp};

verus! {

/// A file of the model: when it was last modified and what it holds.
pub struct FileState {
    pub mtime: Timestamp,
    pub content: Seq<u8>,
}

/// A tree of the model: its files by their relative paths.
pub type Tree = Map<Seq<Seq<char>>, FileState>;

/// What probing finds for a source file and what the target holds at its
/// place, when every time can be read.
pub open spec fn probe_of(source: FileState, target: Option<FileState>) -> TargetProbe {
    match target {
        None => TargetProbe::Absent,
        Some(t) => TargetProbe::Present { source_mtime: Ok(source.mtime), target_mtime: Ok(t.mtime) },
    }
}

/// The decision for a source file and what the target holds at its place.
pub open spec fn decided(source: FileState, target: Option<FileState>) -> SyncDecision {
    match decision(probe_of(source, target)) {
        Ok(d) => d,
        Err(_) => SyncDecision::Skip,
    }
}

/// What the target holds at a file's place after the file was dealt with: the
/// source's bytes, written at time `stamp`, where the decision was to copy;
/// what it held before, otherwise.
pub open spec fn file_after(source: FileState, target: Option<FileState>, stamp: Timestamp) -> Option<
    FileState,
> {
    if decided(source, target).copies() {
        Some(FileState { mtime: stamp, content: source.content })
    } else {
        target
    }
}

/// The target tree after a copy phase in which the copy of the file at `rel`,
/// where one is made, is written at time `stamps[rel]`.
pub open spec fn tree_after(source: Tree, target: Tree, stamps: Map<Seq<Seq<char>>, Timestamp>) -> Tree {
    Map::new(
        |rel: Seq<Seq<char>>| source.dom().contains(rel) || target.dom().contains(rel),
        |rel: Seq<Seq<char>>|
            if source.dom().contains(rel) {
                let before = if target.dom().contains(rel) {
                    Some(target[rel])
                } else {
                    None
                };
                file_after(source[rel], before, stamps[rel]).unwrap()
            } else {
                target[rel]
            },
    )
}

/// With both times readable a decision is always reached, and it is to copy
/// exactly when the target is missing or strictly older than the source.
pub proof fn lemma_decision_total(source: FileState, target: Option<FileState>)
    ensures
        decision(probe_of(source, target)) == Ok::<SyncDecision, SyncError>(decided(source, target)),
        decided(source, target).copies() <==> (target matches Some(t) ==> source.mtime.later_than(t.mtime)),
        decided(source, target) == SyncDecision::CopyMissing <==> target.is_none(),
{
}

/// Freshness: where the target holds a file older than the source's, it holds
/// the source's bytes afterwards; where its file is as new or newer, neither
/// the bytes nor the time of that file change.
pub proof fn lemma_freshness(source: FileState, target: FileState, stamp: Timestamp)
    ensures
        source.mtime.later_than(target.mtime) ==> file_after(source, Some(target), stamp).unwrap().content
            == source.content,
        !source.mtime.later_than(target.mtime) ==> file_after(source, Some(target), stamp) == Some(target),
{
}

/// Idempotence, for one file: once a file was dealt with, and its copy, if
/// one was made, carries a time that is not earlier than the source's, the
/// decision for it is to skip.
pub proof fn lemma_second_decision_skips(source: FileState, target: Option<FileState>, stamp: Timestamp)
    requires
        !source.mtime.later_than(stamp),
    ensures
        decided(source, file_after(source, target, stamp)) == SyncDecision::Skip,
{
}

/// Idempotence, for a tree: after a copy phase whose copies carry times not
/// earlier than their sources', a second phase over the same source decides
/// to skip every file, and so leaves the target as it is.
pub proof fn lemma_second_run_copies_nothing(
    source: Tree,
    target: Tree,
    stamps: Map<Seq<Seq<char>>, Timestamp>,
    again: Map<Seq<Seq<char>>, Timestamp>,
)
    requires
        forall|rel: Seq<Seq<char>>| #[trigger]
            source.dom().contains(rel) ==> !source[rel].mtime.later_than(stamps[rel]),
    ensures
        forall|rel: Seq<Seq<char>>| #[trigger]
            source.dom().contains(rel) ==> decided(source[rel], Some(tree_after(source, target, stamps)[rel]))
                == SyncDecision::Skip,
        tree_after(source, tree_after(source, target, stamps), again) == tree_after(source, target, stamps),
{
    let once = tree_after(source, target, stamps);
    let twice = tree_after(source, once, again);
    assert forall|rel: Seq<Seq<char>>| #[trigger] source.dom().contains(rel) implies decided(
        source[rel],
        Some(once[rel]),
    ) == SyncDecision::Skip by {
        let before = if target.dom().contains(rel) {
            Some(target[rel])
        } else {
            None
        };
        lemma_second_decision_skips(source[rel], before, stamps[rel]);
    }
    assert(twice =~= once);
}

/// Completeness: after a copy phase every file of the source has a file at
/// the same relative path in the target. That file holds the source's bytes
/// where the target had none or an older one; it is the target's own file,
/// untouched, where that was as new or newer.
pub proof fn lemma_every_source_file_present(
    source: Tree,
    target: Tree,
    stamps: Map<Seq<Seq<char>>, Timestamp>,
    rel: Seq<Seq<char>>,
)
    requires
        source.dom().contains(rel),
    ensures
        tree_after(source, target, stamps).dom().contains(rel),
        !target.dom().contains(rel) || source[rel].mtime.later_than(target[rel].mtime) ==> tree_after(
            source,
            target,
            stamps,
        )[rel].content == source[rel].content,
        target.dom().contains(rel) && !source[rel].mtime.later_than(target[rel].mtime) ==> tree_after(
            source,
            target,
            stamps,
        )[rel] == target[rel],
{
}

/// Completeness, byte for byte: where every file that the target already
/// holds as new or newer than the source's has the source's bytes, every file
/// of the source has the same bytes in the target after a copy phase.
pub proof fn lemma_target_matches_source(
    source: Tree,
    target: Tree,
    stamps: Map<Seq<Seq<char>>, Timestamp>,
)
    requires
        forall|rel: Seq<Seq<char>>|
            #![trigger source.dom().contains(rel)]
            source.dom().contains(rel) && target.dom().contains(rel) && !source[rel].mtime.later_than(
                target[rel].mtime,
            ) ==> target[rel].content == source[rel].content,
    ensures
        forall|rel: Seq<Seq<char>>| #[trigger]
            source.dom().contains(rel) ==> tree_after(source, target, stamps).dom().contains(rel)
                && tree_after(source, target, stamps)[rel].content == source[rel].content,
{
    assert forall|rel: Seq<Seq<char>>| #[trigger] source.dom().contains(rel) implies tree_after(
        source,
        target,
        stamps,
    ).dom().contains(rel) && tree_after(source, target, stamps)[rel].content == source[rel].content by {
        lemma_every_source_file_present(source, target, stamps, rel);
    }
}

/// A copy phase never takes a file out of the target, and leaves alone every
/// file of the target that the source does not hold.
pub proof fn lemma_copying_removes_nothing(
    source: Tree,
    target: Tree,
    stamps: Map<Seq<Seq<char>>, Timestamp>,
    rel: Seq<Seq<char>>,
)
    requires
        target.dom().contains(rel),
    ensures
        tree_after(source, target, stamps).dom().contains(rel),
        !source.dom().contains(rel) ==> tree_after(source, target, stamps)[rel] == target[rel],
{
}

} // verus!
