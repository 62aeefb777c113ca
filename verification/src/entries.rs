//! Walked entries and the ordering of the two removal phases.
//!
//! The tree walker hands the engine one entry per discovered node. The
//! entries are split into the file subset, removed first, and the directory
//! subset, removed strictly deepest-first so that every directory is already
//! empty when its turn comes.

use vstd::prelude::*;

verus! {

/// One discovered filesystem node: its full path, its display name (last
/// segment), its distance from the target root, and whether it is a
/// directory.
pub struct WalkEntry {
    /// Full path of the node, as bytes.
    pub path: Vec<u8>,
    /// Display name of the node: its last path segment.
    pub name: Vec<u8>,
    /// Number of directory levels between the node and the target root.
    pub depth: u64,
    /// Whether the node is a directory.
    pub is_dir: bool,
}

/// Depths never increase along the sequence: deepest entries stand first.
pub open spec fn sorted_desc(s: Seq<WalkEntry>) -> bool {
    forall|i: int, j: int| 0 <= i < j < s.len() ==> s[i].depth >= s[j].depth
}

/// `child` lies strictly inside the directory at `parent`: the parent's
/// path, then a separator, then more.
pub open spec fn path_under(parent: Seq<u8>, child: Seq<u8>) -> bool {
    &&& parent.len() < child.len()
    &&& child.subrange(0, parent.len() as int) == parent
    &&& child[parent.len() as int] == 92
}

/// Split the walked entries into files and directories, each subset in walk
/// order.
pub fn partition_entries(entries: Vec<WalkEntry>) -> (r: (Vec<WalkEntry>, Vec<WalkEntry>))
    ensures
        r.0@ == entries@.filter(|e: WalkEntry| !e.is_dir),
        r.1@ == entries@.filter(|e: WalkEntry| e.is_dir),
{
    let ghost orig = entries@;
    let mut rest = entries;
    let mut files: Vec<WalkEntry> = Vec::new();
    let mut dirs: Vec<WalkEntry> = Vec::new();
    proof {
        reveal(Seq::filter);
        assert(orig.take(0) =~= Seq::<WalkEntry>::empty());
    }
    let n = rest.len();
    let mut taken: usize = 0;
    while taken < n
        invariant
            n == orig.len(),
            taken <= n,
            rest@ == orig.skip(taken as int),
            files@ == orig.take(taken as int).filter(|e: WalkEntry| !e.is_dir),
            dirs@ == orig.take(taken as int).filter(|e: WalkEntry| e.is_dir),
        decreases n - taken,
    {
        let e = rest.remove(0);
        proof {
            reveal(Seq::filter);
            assert(rest@ =~= orig.skip(taken + 1int));
            assert(orig.take(taken + 1int).drop_last() =~= orig.take(taken as int));
            assert(orig.take(taken + 1int).last() == e);
        }
        if e.is_dir {
            dirs.push(e);
        } else {
            files.push(e);
        }
        taken = taken + 1;
    }
    proof {
        assert(orig.take(orig.len() as int) =~= orig);
    }
    (files, dirs)
}

/// Order directories deepest-first: same entries, depth never increasing.
pub fn sort_dirs(dirs: Vec<WalkEntry>) -> (r: Vec<WalkEntry>)
    ensures
        r@.to_multiset() == dirs@.to_multiset(),
        sorted_desc(r@),
{
    let ghost orig = dirs@;
    let mut rest = dirs;
    let mut out: Vec<WalkEntry> = Vec::new();
    proof {
        broadcast use vstd::seq_lib::group_to_multiset_ensures;

        assert(out@.to_multiset().add(rest@.to_multiset()) =~= orig.to_multiset());
    }
    while rest.len() > 0
        invariant
            out@.to_multiset().add(rest@.to_multiset()) == orig.to_multiset(),
            sorted_desc(out@),
        decreases rest.len(),
    {
        let ghost out_before = out@;
        let e = rest.remove(0);
        let mut pos: usize = 0;
        while pos < out.len() && out[pos].depth >= e.depth
            invariant
                pos <= out@.len(),
                forall|k: int| 0 <= k < pos ==> out@[k].depth >= e.depth,
                out@ == out_before,
            decreases out.len() - pos,
        {
            pos = pos + 1;
        }
        out.insert(pos, e);
        proof {
            broadcast use vstd::seq_lib::group_to_multiset_ensures;

            out_before.insert_ensures(pos as int, e);
            assert forall|i: int, j: int| 0 <= i < j < out@.len() implies out@[i].depth
                >= out@[j].depth by {
                if j < pos {
                } else if i < pos && j == pos {
                } else if i == pos {
                    assert(out@[j] == out_before[j - 1]);
                } else if i < pos && j > pos {
                    assert(out@[j] == out_before[j - 1]);
                } else {
                    assert(out@[i] == out_before[i - 1]);
                    assert(out@[j] == out_before[j - 1]);
                }
            }
            assert(out@.to_multiset().add(rest@.to_multiset()) =~= orig.to_multiset());
        }
    }
    proof {
        broadcast use vstd::seq_lib::group_to_multiset_ensures;

        assert(rest@.to_multiset().len() == 0);
        assert(out@.to_multiset() =~= orig.to_multiset());
    }
    out
}

/// Deepest-first processing removes every entry before the directory it
/// lies in: whenever one entry's path is strictly under another's, the
/// deeper one stands earlier in the sorted sequence. The hypothesis states
/// what the walk guarantees, that an entry under a directory has a strictly
/// greater depth.
pub proof fn lemma_descendants_removed_first(s: Seq<WalkEntry>)
    requires
        sorted_desc(s),
        forall|i: int, j: int|
            0 <= i < s.len() && 0 <= j < s.len() && #[trigger] path_under(s[i].path@, s[j].path@)
                ==> s[i].depth < s[j].depth,
    ensures
        forall|i: int, j: int|
            0 <= i < s.len() && 0 <= j < s.len() && #[trigger] path_under(s[i].path@, s[j].path@)
                ==> j < i,
{
    assert forall|i: int, j: int|
        0 <= i < s.len() && 0 <= j < s.len() && #[trigger] path_under(
            s[i].path@,
            s[j].path@,
        ) implies j < i by {
        assert(s[i].depth < s[j].depth);
        if i < j {
            assert(s[i].depth >= s[j].depth);
        }
        if i == j {
            assert(false);
        }
    }
}

} // verus!
