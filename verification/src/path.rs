//! Paths as sequences of components.

use vstd::prelude::*;

verus! {

/// A path, held as the list of its components from the outermost inwards.
#[derive(Debug, PartialEq, Eq)]
pub struct TreePath {
    pub parts: Vec<String>,
}

impl View for TreePath {
    type V = Seq<Seq<char>>;

    /// The components, each as its characters.
    open spec fn view(&self) -> Seq<Seq<char>> {
        Seq::new(self.parts@.len(), |i: int| self.parts@[i]@)
    }
}

impl TreePath {
    /// The path with the given components.
    pub fn new(parts: Vec<String>) -> (r: TreePath)
        ensures
            r.parts == parts,
            r@.len() == parts@.len(),
            forall|i: int| 0 <= i < parts@.len() ==> r@[i] == #[trigger] parts@[i]@,
    {
        TreePath { parts }
    }

    /// The number of components.
    pub fn depth(&self) -> (r: usize)
        ensures
            r == self@.len(),
    {
        self.parts.len()
    }

    /// A copy with the same components.
    pub fn duplicate(&self) -> (r: TreePath)
        ensures
            r@ == self@,
    {
        let mut parts: Vec<String> = Vec::new();
        let mut i: usize = 0;
        while i < self.parts.len()
            invariant
                i <= self.parts@.len(),
                parts@.len() == i,
                forall|k: int| 0 <= k < i ==> (#[trigger] parts@[k])@ == self.parts@[k]@,
            decreases self.parts@.len() - i,
        {
            parts.push(self.parts[i].clone());
            i += 1;
        }
        let r = TreePath { parts };
        assert(r@ =~= self@);
        r
    }

    /// Whether both paths have the same components.
    pub fn same_as(&self, other: &TreePath) -> (r: bool)
        ensures
            r == (self@ == other@),
    {
        if self.parts.len() != other.parts.len() {
            assert(self@.len() != other@.len());
            return false;
        }
        let mut i: usize = 0;
        while i < self.parts.len()
            invariant
                i <= self.parts@.len(),
                self.parts@.len() == other.parts@.len(),
                forall|k: int| 0 <= k < i ==> self@[k] == other@[k],
            decreases self.parts@.len() - i,
        {
            if self.parts[i] != other.parts[i] {
                assert(self@[i as int] != other@[i as int]);
                return false;
            }
            i += 1;
        }
        assert(self@ =~= other@);
        true
    }

    /// Whether `root` is a leading part of this path.
    pub fn starts_with(&self, root: &TreePath) -> (r: bool)
        ensures
            r == root@.is_prefix_of(self@),
    {
        if root.parts.len() > self.parts.len() {
            return false;
        }
        let mut i: usize = 0;
        while i < root.parts.len()
            invariant
                i <= root.parts@.len(),
                root.parts@.len() <= self.parts@.len(),
                forall|k: int| 0 <= k < i ==> self@[k] == root@[k],
            decreases root.parts@.len() - i,
        {
            if self.parts[i] != root.parts[i] {
                assert(self@.subrange(0, root@.len() as int)[i as int] != root@[i as int]);
                return false;
            }
            i += 1;
        }
        assert(root@ =~= self@.subrange(0, root@.len() as int));
        true
    }

    /// The path relative to `root`: what is left of this path once the
    /// components of `root` are taken from its front. There is none exactly
    /// when `root` is not a leading part of this path.
    pub fn strip_prefix(&self, root: &TreePath) -> (r: Option<TreePath>)
        ensures
            r.is_some() == root@.is_prefix_of(self@),
            r matches Some(rel) ==> rel@ == self@.skip(root@.len() as int),
            r matches Some(rel) ==> root@ + rel@ == self@,
    {
        if !self.starts_with(root) {
            return None;
        }
        let mut parts: Vec<String> = Vec::new();
        let start: usize = root.parts.len();
        let mut i: usize = start;
        while i < self.parts.len()
            invariant
                start <= i <= self.parts@.len(),
                parts@.len() == i - start,
                forall|k: int| 0 <= k < i - start ==> (#[trigger] parts@[k])@ == self.parts@[start + k]@,
            decreases self.parts@.len() - i,
        {
            parts.push(self.parts[i].clone());
            i += 1;
        }
        let rel = TreePath { parts };
        assert(rel@ =~= self@.skip(root@.len() as int));
        assert(root@ + rel@ =~= self@);
        Some(rel)
    }

    /// This path followed by the components of `rel`.
    pub fn join(&self, rel: &TreePath) -> (r: TreePath)
        ensures
            r@ == self@ + rel@,
    {
        let mut out = self.duplicate();
        let mut i: usize = 0;
        while i < rel.parts.len()
            invariant
                i <= rel.parts@.len(),
                out@ == self@ + rel@.take(i as int),
            decreases rel.parts@.len() - i,
        {
            let ghost before = out@;
            out.parts.push(rel.parts[i].clone());
            assert(out@ =~= before.push(rel@[i as int]));
            assert(rel@.take(i + 1) =~= rel@.take(i as int).push(rel@[i as int]));
            assert(out@ =~= self@ + rel@.take(i + 1));
            i += 1;
        }
        assert(rel@.take(rel@.len() as int) =~= rel@);
        out
    }

    /// The path without its last component; none for the empty path.
    pub fn parent(&self) -> (r: Option<TreePath>)
        ensures
            r.is_some() == (self@.len() > 0),
            r matches Some(p) ==> p@ == self@.drop_last(),
    {
        if self.parts.len() == 0 {
            return None;
        }
        let mut parts: Vec<String> = Vec::new();
        let end: usize = self.parts.len() - 1;
        let mut i: usize = 0;
        while i < end
            invariant
                i <= end < self.parts@.len(),
                parts@.len() == i,
                forall|k: int| 0 <= k < i ==> (#[trigger] parts@[k])@ == self.parts@[k]@,
            decreases end - i,
        {
            parts.push(self.parts[i].clone());
            i += 1;
        }
        let p = TreePath { parts };
        assert(p@ =~= self@.drop_last());
        Some(p)
    }
}

/// Where an entry of one tree belongs in the other.
#[derive(Debug, PartialEq, Eq)]
pub struct Counterpart {
    /// The entry's path relative to the root of its own tree.
    pub rel: TreePath,
    /// The path at the same relative place below the other root.
    pub path: TreePath,
}

/// The counterpart, below `to_root`, of the entry at `path` below `from_root`:
/// its relative path, and that path joined to `to_root`. There is none exactly
/// when `path` does not lie at or below `from_root`.
pub fn counterpart(from_root: &TreePath, to_root: &TreePath, path: &TreePath) -> (r: Option<Counterpart>)
    ensures
        r.is_some() == from_root@.is_prefix_of(path@),
        r matches Some(c) ==> c.rel@ == path@.skip(from_root@.len() as int) && c.path@ == to_root@
            + c.rel@,
{
    match path.strip_prefix(from_root) {
        None => None,
        Some(rel) => {
            let joined = to_root.join(&rel);
            Some(Counterpart { rel, path: joined })
        },
    }
}

/// Joining a relative path to a root and stripping the root again gives the
/// relative path back.
pub proof fn lemma_strip_undoes_join(root: Seq<Seq<char>>, rel: Seq<Seq<char>>)
    ensures
        root.is_prefix_of(root + rel),
        (root + rel).skip(root.len() as int) == rel,
{
    assert((root + rel).subrange(0, root.len() as int) =~= root);
    assert((root + rel).skip(root.len() as int) =~= rel);
}

/// A path below a root by at least one component is not the root.
pub proof fn lemma_below_root_differs(root: Seq<Seq<char>>, rel: Seq<Seq<char>>)
    requires
        rel.len() > 0,
    ensures
        root + rel != root,
{
    assert((root + rel).len() == root.len() + rel.len());
}

} // verus!
