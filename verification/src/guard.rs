//! Safety guard: pre-flight validation of a deletion target.
//!
//! A target is rejected when it is a filesystem root or drive root, when it
//! equals the active OS installation directory, or when its last segment
//! directly under a drive root is one of the protected system folders.
//! Paths are handled as byte strings; comparison is case-insensitive for
//! ASCII letters, forward and backward separators are unified, and trailing
//! separators are stripped. The guard is pure: it touches nothing.

use vstd::prelude::*;

verus! {

/// Why a deletion target was refused.
#[derive(Clone, Copy, Debug, PartialEq, Eq, Structural)]
pub enum SafetyViolation {
    /// The target is a filesystem root or a `<letter>:\` drive root.
    DriveRoot,
    /// The target is the active OS installation directory.
    SystemRoot,
    /// The target is a protected system folder directly under a drive root.
    ProtectedFolder,
}

impl SafetyViolation {
    /// The user-facing message for this violation.
    pub fn message(&self) -> (m: &'static str)
        ensures
            *self == SafetyViolation::DriveRoot ==> m@
                == "SAFETY ALERT: Cannot delete a drive root using Turbo Delete."@,
            *self == SafetyViolation::SystemRoot ==> m@
                == "SAFETY ALERT: Cannot delete the active Windows System directory."@,
            *self == SafetyViolation::ProtectedFolder ==> m@
                == "SAFETY ALERT: Cannot delete core system folders."@,
    {
        match self {
            SafetyViolation::DriveRoot => "SAFETY ALERT: Cannot delete a drive root using Turbo Delete.",
            SafetyViolation::SystemRoot => "SAFETY ALERT: Cannot delete the active Windows System directory.",
            SafetyViolation::ProtectedFolder => "SAFETY ALERT: Cannot delete core system folders.",
        }
    }
}

/// ASCII case folding: `A`..`Z` become `a`..`z`; every other byte is kept.
pub open spec fn lower_byte(b: u8) -> u8 {
    if 65 <= b && b <= 90 {
        (b + 32) as u8
    } else {
        b
    }
}

/// One normalization step on a byte: case-fold, and unify `/` into `\`.
pub open spec fn norm_byte(b: u8) -> u8 {
    if lower_byte(b) == 47 {
        92
    } else {
        lower_byte(b)
    }
}

/// Drop every trailing separator byte.
pub open spec fn strip_trailing(s: Seq<u8>) -> Seq<u8>
    decreases s.len(),
{
    if s.len() > 0 && s.last() == 92 {
        strip_trailing(s.drop_last())
    } else {
        s
    }
}

/// The normalized form of a path: bytes case-folded and separator-unified,
/// then stripped of trailing separators.
pub open spec fn normalized(s: Seq<u8>) -> Seq<u8> {
    strip_trailing(s.map_values(|b: u8| norm_byte(b)))
}

/// `suffix` stands at the end of `s`.
pub open spec fn has_suffix(s: Seq<u8>, suffix: Seq<u8>) -> bool {
    s.len() >= suffix.len() && s.subrange(s.len() - suffix.len(), s.len() as int) == suffix
}

/// A separator byte: `\` or `/`.
pub open spec fn is_sep(b: u8) -> bool {
    b == 92 || b == 47
}

/// How many separator bytes the sequence holds.
pub open spec fn sep_count(s: Seq<u8>) -> int
    decreases s.len(),
{
    if s.len() == 0 {
        0
    } else {
        sep_count(s.drop_last()) + if is_sep(s.last()) {
            1int
        } else {
            0int
        }
    }
}

/// Shapes with no parent on the host's conventions: empty, a bare
/// separator, a bare `<letter>:` drive prefix, or a share/device prefix
/// root — two leading separators followed by at most one further separator,
/// which covers a share root like `\\srv\share` and a device root like
/// `\\.\x` while anything below them keeps its parent. Roots are spelled
/// in more ways than these (a trailing or doubled separator, either
/// separator byte), so the guard applies this test to the normalized path,
/// where every such spelling has already collapsed to one of these shapes.
pub open spec fn has_no_parent(s: Seq<u8>) -> bool {
    ||| s.len() == 0
    ||| (s.len() == 1 && is_sep(s[0]))
    ||| (s.len() == 2 && s[1] == 58)
    ||| (s.len() >= 2 && is_sep(s[0]) && is_sep(s[1]) && sep_count(
        s.subrange(2, s.len() as int),
    ) <= 1)
}

/// A path written as a drive root ends in these bytes: `:\`.
pub open spec fn drive_root_suffix() -> Seq<u8> {
    seq![58, 92]
}

/// Normalized suffix of the home-directories container under a drive root:
/// the bytes of `:\users`.
pub open spec fn users_suffix() -> Seq<u8> {
    seq![58, 92, 117, 115, 101, 114, 115]
}

/// Normalized suffix of the 64-bit program-install container: the bytes of
/// `:\program files`.
pub open spec fn program_files_suffix() -> Seq<u8> {
    seq![
        58, 92, 112, 114, 111, 103, 114, 97, 109, 32, 102, 105, 108, 101, 115,
    ]
}

/// Normalized suffix of the 32-bit program-install container on 64-bit
/// hosts: the bytes of `:\program files (x86)`.
pub open spec fn program_files_x86_suffix() -> Seq<u8> {
    seq![
        58, 92, 112, 114, 111, 103, 114, 97, 109, 32, 102, 105, 108, 101, 115,
        32, 40, 120, 56, 54, 41,
    ]
}

/// A normalized path whose last segment, directly under a drive root, is one
/// of the protected folder names.
pub open spec fn is_protected(n: Seq<u8>) -> bool {
    ||| has_suffix(n, users_suffix())
    ||| has_suffix(n, program_files_suffix())
    ||| has_suffix(n, program_files_x86_suffix())
}

/// The guard's verdict on a target, given the active OS installation root.
/// The first matching rule decides: root protection, then the installation
/// directory, then the protected folders. The no-parent test runs on the
/// normalized path, so every spelling of a root — `C:\`, `C:/`, `C:\\`,
/// `C:`, `/`, `//`, a share root `\\srv\share`, a device root `\\.\x` — is
/// caught by the first rule.
pub open spec fn spec_validate(target: Seq<u8>, system_root: Seq<u8>) -> Result<
    (),
    SafetyViolation,
> {
    if has_no_parent(normalized(target)) || has_suffix(target, drive_root_suffix()) {
        Err(SafetyViolation::DriveRoot)
    } else if normalized(target) == normalized(system_root) {
        Err(SafetyViolation::SystemRoot)
    } else if is_protected(normalized(target)) {
        Err(SafetyViolation::ProtectedFolder)
    } else {
        Ok(())
    }
}

fn norm_byte_exec(b: u8) -> (r: u8)
    ensures
        r == norm_byte(b),
{
    if 65 <= b && b <= 90 {
        b + 32
    } else if b == 47 {
        92
    } else {
        b
    }
}

/// Normalize a path: ASCII case fold, `/` to `\`, trailing `\` stripped.
pub fn normalize(path: &Vec<u8>) -> (r: Vec<u8>)
    ensures
        r@ == normalized(path@),
{
    let mut out: Vec<u8> = Vec::new();
    let mut i: usize = 0;
    while i < path.len()
        invariant
            i <= path.len(),
            out@ == path@.take(i as int).map_values(|b: u8| norm_byte(b)),
        decreases path.len() - i,
    {
        let f = norm_byte_exec(path[i]);
        out.push(f);
        proof {
            assert(out@ =~= path@.take(i + 1 as int).map_values(|b: u8| norm_byte(b)));
        }
        i = i + 1;
    }
    proof {
        assert(path@.take(path@.len() as int) =~= path@);
    }
    while out.len() > 0 && out[out.len() - 1] == 92
        invariant
            strip_trailing(out@) == normalized(path@),
        decreases out.len(),
    {
        proof {
            assert(strip_trailing(out@) == strip_trailing(out@.drop_last()));
        }
        let _dropped = out.pop();
    }
    proof {
        assert(strip_trailing(out@) == out@);
    }
    out
}

/// Whether `suffix` stands at the end of `s`.
pub fn ends_with(s: &Vec<u8>, suffix: &Vec<u8>) -> (r: bool)
    ensures
        r == has_suffix(s@, suffix@),
{
    if s.len() < suffix.len() {
        return false;
    }
    let off = s.len() - suffix.len();
    let mut i: usize = 0;
    while i < suffix.len()
        invariant
            i <= suffix.len(),
            off == s@.len() - suffix@.len(),
            off + suffix@.len() <= usize::MAX,
            forall|k: int| 0 <= k < i ==> s@[off + k] == suffix@[k],
        decreases suffix.len() - i,
    {
        if s[off + i] != suffix[i] {
            proof {
                assert(s@.subrange(s@.len() - suffix@.len(), s@.len() as int)[i as int] == s@[off
                    + i]);
            }
            return false;
        }
        i = i + 1;
    }
    proof {
        assert(s@.subrange(s@.len() - suffix@.len(), s@.len() as int) =~= suffix@);
    }
    true
}

/// Whether two byte strings hold the same bytes.
pub fn bytes_eq(a: &Vec<u8>, b: &Vec<u8>) -> (r: bool)
    ensures
        r == (a@ == b@),
{
    if a.len() != b.len() {
        return false;
    }
    let mut i: usize = 0;
    while i < a.len()
        invariant
            i <= a.len(),
            a@.len() == b@.len(),
            forall|k: int| 0 <= k < i ==> a@[k] == b@[k],
        decreases a.len() - i,
    {
        if a[i] != b[i] {
            return false;
        }
        i = i + 1;
    }
    proof {
        assert(a@ =~= b@);
    }
    true
}

fn drive_root_vec() -> (r: Vec<u8>)
    ensures
        r@ == drive_root_suffix(),
{
    let mut v: Vec<u8> = Vec::new();
    v.push(58);
    v.push(92);
    proof {
        assert(v@ =~= drive_root_suffix());
    }
    v
}

fn users_vec() -> (r: Vec<u8>)
    ensures
        r@ == users_suffix(),
{
    let mut v = drive_root_vec();
    v.push(117);
    v.push(115);
    v.push(101);
    v.push(114);
    v.push(115);
    proof {
        assert(v@ =~= users_suffix());
    }
    v
}

fn program_files_vec() -> (r: Vec<u8>)
    ensures
        r@ == program_files_suffix(),
{
    let mut v = drive_root_vec();
    v.push(112);
    v.push(114);
    v.push(111);
    v.push(103);
    v.push(114);
    v.push(97);
    v.push(109);
    v.push(32);
    v.push(102);
    v.push(105);
    v.push(108);
    v.push(101);
    v.push(115);
    proof {
        assert(v@ =~= program_files_suffix());
    }
    v
}

fn program_files_x86_vec() -> (r: Vec<u8>)
    ensures
        r@ == program_files_x86_suffix(),
{
    let mut v = program_files_vec();
    v.push(32);
    v.push(40);
    v.push(120);
    v.push(56);
    v.push(54);
    v.push(41);
    proof {
        assert(v@ =~= program_files_x86_suffix());
    }
    v
}

fn is_sep_exec(b: u8) -> (r: bool)
    ensures
        r == is_sep(b),
{
    b == 92 || b == 47
}

fn has_no_parent_exec(s: &Vec<u8>) -> (r: bool)
    ensures
        r == has_no_parent(s@),
{
    if s.len() == 0 {
        return true;
    }
    if s.len() == 1 {
        return s[0] == 47 || s[0] == 92;
    }
    if is_sep_exec(s[0]) && is_sep_exec(s[1]) {
        let mut count: usize = 0;
        let mut i: usize = 2;
        proof {
            assert(s@.subrange(2, 2) =~= Seq::<u8>::empty());
            assert(sep_count(Seq::<u8>::empty()) == 0);
        }
        while i < s.len()
            invariant
                2 <= i <= s@.len(),
                count == sep_count(s@.subrange(2, i as int)),
                count <= i,
            decreases s.len() - i,
        {
            proof {
                assert(s@.subrange(2, i + 1int).drop_last() =~= s@.subrange(2, i as int));
                assert(s@.subrange(2, i + 1int).last() == s@[i as int]);
            }
            if is_sep_exec(s[i]) {
                count = count + 1;
            }
            i = i + 1;
        }
        return count <= 1;
    }
    if s.len() == 2 {
        return s[1] == 58;
    }
    false
}

/// Validate a deletion target against the protected-path rules, given the
/// active OS installation root. Pure: runs before any mutation and has no
/// side effects of its own.
pub fn validate(target: &Vec<u8>, system_root: &Vec<u8>) -> (r: Result<(), SafetyViolation>)
    ensures
        r == spec_validate(target@, system_root@),
{
    let norm_target = normalize(target);
    if has_no_parent_exec(&norm_target) || ends_with(target, &drive_root_vec()) {
        return Err(SafetyViolation::DriveRoot);
    }
    let norm_sys = normalize(system_root);
    if bytes_eq(&norm_target, &norm_sys) {
        return Err(SafetyViolation::SystemRoot);
    }
    if ends_with(&norm_target, &users_vec()) || ends_with(&norm_target, &program_files_vec())
        || ends_with(&norm_target, &program_files_x86_vec()) {
        return Err(SafetyViolation::ProtectedFolder);
    }
    Ok(())
}

/// Every target that ends in the drive-root pattern `:\`, or that has no
/// parent — raw or once normalized, which catches `C:/`, `C:\\` and every
/// other separator spelling of a root — is refused, whatever the
/// installation root: no filesystem root can be deleted.
pub proof fn lemma_drive_root_rejected(target: Seq<u8>, system_root: Seq<u8>)
    requires
        has_suffix(target, drive_root_suffix()) || has_no_parent(target) || has_no_parent(
            normalized(target),
        ),
    ensures
        spec_validate(target, system_root) == Err::<(), SafetyViolation>(
            SafetyViolation::DriveRoot,
        ),
{
    lemma_no_parent_survives_normalization(target);
}

proof fn lemma_sep_count_pointwise(a: Seq<u8>, b: Seq<u8>)
    requires
        a.len() == b.len(),
        forall|k: int| 0 <= k < a.len() ==> is_sep(a[k]) == is_sep(b[k]),
    ensures
        sep_count(a) == sep_count(b),
    decreases a.len(),
{
    if a.len() > 0 {
        assert forall|k: int| 0 <= k < a.drop_last().len() implies is_sep(a.drop_last()[k])
            == is_sep(b.drop_last()[k]) by {
            assert(a.drop_last()[k] == a[k]);
            assert(b.drop_last()[k] == b[k]);
        }
        lemma_sep_count_pointwise(a.drop_last(), b.drop_last());
    }
}

proof fn lemma_strip_trailing_prefix(s: Seq<u8>)
    ensures
        strip_trailing(s).len() <= s.len(),
        strip_trailing(s) == s.take(strip_trailing(s).len() as int),
    decreases s.len(),
{
    if s.len() > 0 && s.last() == 92 {
        lemma_strip_trailing_prefix(s.drop_last());
        let l = strip_trailing(s).len() as int;
        assert(s.take(l) =~= s.drop_last().take(l));
    } else {
        assert(s.take(s.len() as int) =~= s);
    }
}

proof fn lemma_sep_count_take_le(s: Seq<u8>, l: int)
    requires
        0 <= l <= s.len(),
    ensures
        sep_count(s.take(l)) <= sep_count(s),
    decreases s.len(),
{
    if l == s.len() {
        assert(s.take(l) =~= s);
    } else {
        assert(s.take(l) =~= s.drop_last().take(l));
        lemma_sep_count_take_le(s.drop_last(), l);
    }
}

/// A parentless path is still parentless after normalization: the empty
/// path stays empty, a bare separator collapses to empty, a bare drive
/// prefix keeps its shape, and a share or device prefix root keeps its two
/// leading separators while normalization never adds a separator below
/// them.
pub proof fn lemma_no_parent_survives_normalization(s: Seq<u8>)
    ensures
        has_no_parent(s) ==> has_no_parent(normalized(s)),
{
    if has_no_parent(s) {
        let m = s.map_values(|b: u8| norm_byte(b));
        assert forall|k: int| 0 <= k < s.len() implies is_sep(m[k]) == is_sep(s[k]) by {
            assert(m[k] == norm_byte(s[k]));
        }
        if s.len() == 0 {
            assert(strip_trailing(m) == m);
        } else if s.len() == 1 && is_sep(s[0]) {
            assert(m.last() == 92);
            assert(strip_trailing(m) == strip_trailing(m.drop_last()));
            assert(m.drop_last().len() == 0);
            assert(strip_trailing(m.drop_last()) == m.drop_last());
        } else if s.len() == 2 && s[1] == 58 {
            assert(m.last() == 58);
            assert(strip_trailing(m) == m);
        } else {
            assert(s.len() >= 2 && is_sep(s[0]) && is_sep(s[1]));
            assert forall|k: int|
                0 <= k < m.subrange(2, m.len() as int).len() implies is_sep(
                m.subrange(2, m.len() as int)[k],
            ) == is_sep(s.subrange(2, s.len() as int)[k]) by {
                assert(m.subrange(2, m.len() as int)[k] == m[k + 2]);
                assert(s.subrange(2, s.len() as int)[k] == s[k + 2]);
            }
            lemma_sep_count_pointwise(m.subrange(2, m.len() as int), s.subrange(2, s.len() as int));
            lemma_strip_trailing_prefix(m);
            let n = strip_trailing(m);
            let l = n.len() as int;
            if l == 1 {
                assert(n[0] == m[0]);
            } else if l >= 2 {
                assert(n[0] == m[0] && n[1] == m[1]);
                assert(n.subrange(2, l) =~= m.subrange(2, m.len() as int).take(l - 2));
                lemma_sep_count_take_le(m.subrange(2, m.len() as int), l - 2);
            }
        }
    }
}

/// Every target whose normalized form equals the normalized installation
/// root is refused, whatever else it looks like.
pub proof fn lemma_system_root_rejected(target: Seq<u8>, system_root: Seq<u8>)
    requires
        normalized(target) == normalized(system_root),
    ensures
        spec_validate(target, system_root).is_err(),
{
}

/// Every target whose normalized form ends in a protected folder name
/// directly under a drive root is refused.
pub proof fn lemma_protected_folder_rejected(target: Seq<u8>, system_root: Seq<u8>)
    requires
        is_protected(normalized(target)),
    ensures
        spec_validate(target, system_root).is_err(),
{
}

/// Normalization ignores ASCII case: two paths equal up to case normalize to
/// the same bytes, so the guard's path comparisons are case-insensitive.
pub proof fn lemma_normalized_case_insensitive(a: Seq<u8>, b: Seq<u8>)
    requires
        a.len() == b.len(),
        forall|i: int| 0 <= i < a.len() ==> lower_byte(a[i]) == lower_byte(b[i]),
    ensures
        normalized(a) == normalized(b),
{
    assert(a.map_values(|x: u8| norm_byte(x)) =~= b.map_values(|x: u8| norm_byte(x)));
}

} // verus!
