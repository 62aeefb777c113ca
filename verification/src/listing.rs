//! Read-only collaborators of the engine: directory listings and drive
//! snapshots.
//!
//! The engine's surroundings enumerate one directory level or the mounted
//! volumes; the logic here fixes what those queries hand back: listings are
//! ordered directories-first and then by name, bytewise ascending, and a
//! drive's mount point is shown with its separators stripped.

use vstd::prelude::*;

verus! {

/// One row of a directory listing.
pub struct FileEntry {
    /// Display name: the entry's last path segment.
    pub name: Vec<u8>,
    /// Full path of the entry.
    pub path: Vec<u8>,
    /// Whether the entry is a directory.
    pub is_dir: bool,
    /// Byte size for files; nothing for directories.
    pub size: Option<u64>,
}

/// One row of a drive snapshot.
pub struct DriveInfo {
    /// The volume's name.
    pub name: Vec<u8>,
    /// The volume's mount point, separators stripped.
    pub mount_point: Vec<u8>,
    /// Total capacity in bytes.
    pub total_space: u64,
    /// Available capacity in bytes.
    pub available_space: u64,
}

/// Bytewise lexicographic order: `a` sorts at or before `b`.
pub open spec fn lex_le(a: Seq<u8>, b: Seq<u8>) -> bool
    decreases a.len(),
{
    if a.len() == 0 {
        true
    } else if b.len() == 0 {
        false
    } else if a[0] < b[0] {
        true
    } else if a[0] > b[0] {
        false
    } else {
        lex_le(a.drop_first(), b.drop_first())
    }
}

/// Listing order: directories before files, and names bytewise ascending
/// within each group.
pub open spec fn entry_le(a: FileEntry, b: FileEntry) -> bool {
    ||| (a.is_dir && !b.is_dir)
    ||| (a.is_dir == b.is_dir && lex_le(a.name@, b.name@))
}

/// The whole listing stands in listing order.
pub open spec fn sorted_entries(s: Seq<FileEntry>) -> bool {
    forall|i: int, j: int| 0 <= i < j < s.len() ==> entry_le(s[i], s[j])
}

/// The order is total: two names always compare one way or the other.
pub proof fn lemma_lex_le_total(a: Seq<u8>, b: Seq<u8>)
    ensures
        lex_le(a, b) || lex_le(b, a),
    decreases a.len(),
{
    if a.len() > 0 && b.len() > 0 && a[0] == b[0] {
        lemma_lex_le_total(a.drop_first(), b.drop_first());
    }
}

/// The order is transitive.
pub proof fn lemma_lex_le_trans(a: Seq<u8>, b: Seq<u8>, c: Seq<u8>)
    requires
        lex_le(a, b),
        lex_le(b, c),
    ensures
        lex_le(a, c),
    decreases a.len(),
{
    if a.len() > 0 && b.len() > 0 && c.len() > 0 && a[0] == b[0] && b[0] == c[0] {
        lemma_lex_le_trans(a.drop_first(), b.drop_first(), c.drop_first());
    }
}

proof fn lemma_entry_le_total(a: FileEntry, b: FileEntry)
    ensures
        entry_le(a, b) || entry_le(b, a),
{
    lemma_lex_le_total(a.name@, b.name@);
}

proof fn lemma_entry_le_trans(a: FileEntry, b: FileEntry, c: FileEntry)
    requires
        entry_le(a, b),
        entry_le(b, c),
    ensures
        entry_le(a, c),
{
    if a.is_dir == b.is_dir && b.is_dir == c.is_dir {
        lemma_lex_le_trans(a.name@, b.name@, c.name@);
    }
}

/// Whether `a` sorts at or before `b`, bytewise.
pub fn lex_le_exec(a: &Vec<u8>, b: &Vec<u8>) -> (r: bool)
    ensures
        r == lex_le(a@, b@),
{
    let mut i: usize = 0;
    proof {
        assert(a@.skip(0) =~= a@);
        assert(b@.skip(0) =~= b@);
    }
    while i < a.len() && i < b.len()
        invariant
            i <= a.len(),
            i <= b.len(),
            lex_le(a@, b@) == lex_le(a@.skip(i as int), b@.skip(i as int)),
        decreases a.len() - i,
    {
        proof {
            assert(a@.skip(i as int)[0] == a@[i as int]);
            assert(b@.skip(i as int)[0] == b@[i as int]);
        }
        if a[i] < b[i] {
            return true;
        }
        if a[i] > b[i] {
            return false;
        }
        proof {
            assert(a@.skip(i as int).drop_first() =~= a@.skip(i + 1int));
            assert(b@.skip(i as int).drop_first() =~= b@.skip(i + 1int));
        }
        i = i + 1;
    }
    if i >= a.len() {
        proof {
            assert(a@.skip(i as int).len() == 0);
        }
        true
    } else {
        proof {
            assert(b@.skip(i as int).len() == 0);
            assert(a@.skip(i as int).len() > 0);
        }
        false
    }
}

/// Whether `a` stands at or before `b` in listing order.
pub fn entry_le_exec(a: &FileEntry, b: &FileEntry) -> (r: bool)
    ensures
        r == entry_le(*a, *b),
{
    if a.is_dir && !b.is_dir {
        true
    } else if a.is_dir == b.is_dir {
        lex_le_exec(&a.name, &b.name)
    } else {
        false
    }
}

/// Order a directory listing: directories first, then names bytewise
/// ascending; same rows.
pub fn sort_entries(entries: Vec<FileEntry>) -> (r: Vec<FileEntry>)
    ensures
        r@.to_multiset() == entries@.to_multiset(),
        sorted_entries(r@),
{
    let ghost orig = entries@;
    let mut rest = entries;
    let mut out: Vec<FileEntry> = Vec::new();
    proof {
        broadcast use vstd::seq_lib::group_to_multiset_ensures;

        assert(out@.to_multiset().add(rest@.to_multiset()) =~= orig.to_multiset());
    }
    while rest.len() > 0
        invariant
            out@.to_multiset().add(rest@.to_multiset()) == orig.to_multiset(),
            sorted_entries(out@),
        decreases rest.len(),
    {
        let ghost out_before = out@;
        let e = rest.remove(0);
        let mut pos: usize = 0;
        while pos < out.len() && entry_le_exec(&out[pos], &e)
            invariant
                pos <= out@.len(),
                forall|k: int| 0 <= k < pos ==> entry_le(out@[k], e),
                out@ == out_before,
            decreases out.len() - pos,
        {
            pos = pos + 1;
        }
        proof {
            if (pos as int) < out_before.len() {
                lemma_entry_le_total(out_before[pos as int], e);
            }
        }
        out.insert(pos, e);
        proof {
            broadcast use vstd::seq_lib::group_to_multiset_ensures;

            out_before.insert_ensures(pos as int, e);
            assert forall|i: int, j: int| 0 <= i < j < out@.len() implies entry_le(
                out@[i],
                out@[j],
            ) by {
                if j < pos {
                } else if i < pos && j == pos {
                } else if i == pos {
                    assert(out@[j] == out_before[j - 1]);
                    if j - 1 > pos {
                        lemma_entry_le_trans(e, out_before[pos as int], out_before[j - 1]);
                    }
                } else if i < pos && j > pos {
                    assert(out@[j] == out_before[j - 1]);
                } else {
                    assert(out@[i] == out_before[i - 1]);
                    assert(out@[j] == out_before[j - 1]);
                }
            }
            assert(out@.to_multiset().add(rest@.to_multiset()) =~= orig.to_multiset());
        }
    }
    proof {
        broadcast use vstd::seq_lib::group_to_multiset_ensures;

        assert(rest@.to_multiset().len() == 0);
        assert(out@.to_multiset() =~= orig.to_multiset());
    }
    out
}

/// The display form of a mount point: the same bytes with every backslash
/// separator removed.
pub fn strip_separators(mount_point: &Vec<u8>) -> (r: Vec<u8>)
    ensures
        r@ == mount_point@.filter(|b: u8| b != 92),
{
    let mut out: Vec<u8> = Vec::new();
    let mut i: usize = 0;
    proof {
        reveal(Seq::filter);
        assert(mount_point@.take(0) =~= Seq::<u8>::empty());
    }
    while i < mount_point.len()
        invariant
            i <= mount_point@.len(),
            out@ == mount_point@.take(i as int).filter(|b: u8| b != 92),
        decreases mount_point.len() - i,
    {
        let b = mount_point[i];
        proof {
            reveal(Seq::filter);
            assert(mount_point@.take(i + 1int).drop_last() =~= mount_point@.take(i as int));
            assert(mount_point@.take(i + 1int).last() == b);
        }
        if b != 92 {
            out.push(b);
        }
        i = i + 1;
    }
    proof {
        assert(mount_point@.take(mount_point@.len() as int) =~= mount_point@);
    }
    out
}

} // verus!
