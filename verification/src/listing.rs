//! The file-browser listing order: directories before files, then by name
//! without regard to ASCII case.  Reading the directory is the shell's
//! job; the ordering rule it sorts by is decided and verified here.
use vstd::prelude::*;

verus! {

/// One entry of a directory listing.
#[derive(Debug, PartialEq, Eq)]
pub struct FileEntry {
    pub name: String,
    pub path: String,
    pub is_directory: bool,
}

/// ASCII lowercase of one character.
pub open spec fn lower(c: char) -> char {
    if 'A' <= c && c <= 'Z' {
        ((c as u8) + 32) as char
    } else {
        c
    }
}

/// Case-insensitive lexicographic order on names.
pub open spec fn name_lt(a: Seq<char>, b: Seq<char>) -> bool
    decreases a.len(),
{
    if b.len() == 0 {
        false
    } else if a.len() == 0 {
        true
    } else if lower(a[0]) != lower(b[0]) {
        (lower(a[0]) as u32) < (lower(b[0]) as u32)
    } else {
        name_lt(a.drop_first(), b.drop_first())
    }
}

/// The listing order: directories strictly before files, same kinds by
/// name.
pub open spec fn entry_lt(a: FileEntry, b: FileEntry) -> bool {
    if a.is_directory != b.is_directory {
        a.is_directory
    } else {
        name_lt(a.name@, b.name@)
    }
}

fn lower_exec(c: char) -> (r: char)
    ensures
        r == lower(c),
{
    if 'A' <= c && c <= 'Z' {
        (((c as u8) + 32) as char)
    } else {
        c
    }
}

/// Whether `a` sorts strictly before `b` in the listing; the shell's sort
/// compares with this.
#[verifier::loop_isolation(false)]
pub fn entry_precedes(a: &FileEntry, b: &FileEntry) -> (r: bool)
    ensures
        r == entry_lt(*a, *b),
{
    if a.is_directory != b.is_directory {
        return a.is_directory;
    }
    let an = crate::chars::str_to_chars(a.name.as_str());
    let bn = crate::chars::str_to_chars(b.name.as_str());
    let mut i: usize = 0;
    while i < an.len() && i < bn.len()
        invariant
            i <= an@.len() && i <= bn@.len(),
            forall|k: int| 0 <= k < i ==> lower(#[trigger] an@[k]) == lower(bn@[k]),
        decreases an@.len() - i,
    {
        let ca = lower_exec(an[i]);
        let cb = lower_exec(bn[i]);
        if ca != cb {
            let r = (ca as u32) < (cb as u32);
            proof {
                lemma_name_lt_at(a.name@, b.name@, i as int);
            }
            return r;
        }
        i = i + 1;
    }
    let r = an.len() < bn.len();
    proof {
        lemma_name_lt_prefix(a.name@, b.name@, i as int);
    }
    r
}

/// When the first difference is at position `i`, the order is decided by
/// the characters there.
proof fn lemma_name_lt_at(a: Seq<char>, b: Seq<char>, i: int)
    requires
        0 <= i < a.len() && i < b.len(),
        forall|k: int| 0 <= k < i ==> lower(#[trigger] a[k]) == lower(b[k]),
        lower(a[i]) != lower(b[i]),
    ensures
        name_lt(a, b) == ((lower(a[i]) as u32) < (lower(b[i]) as u32)),
    decreases i,
{
    if i > 0 {
        assert(forall|k: int| 0 <= k < i - 1 ==> lower(#[trigger] a.drop_first()[k]) == lower(
            b.drop_first()[k],
        )) by {
            assert(forall|k: int| 0 <= k < i - 1 ==> #[trigger] a.drop_first()[k] == a[k + 1]
                && b.drop_first()[k] == b[k + 1]);
        }
        assert(a.drop_first()[i - 1] == a[i]);
        assert(b.drop_first()[i - 1] == b[i]);
        lemma_name_lt_at(a.drop_first(), b.drop_first(), i - 1);
    }
}

/// When one name is a case-insensitive prefix of the other, the shorter
/// comes first.
proof fn lemma_name_lt_prefix(a: Seq<char>, b: Seq<char>, i: int)
    requires
        0 <= i <= a.len() && i <= b.len(),
        i == a.len() || i == b.len(),
        forall|k: int| 0 <= k < i ==> lower(#[trigger] a[k]) == lower(b[k]),
    ensures
        name_lt(a, b) == (a.len() < b.len()),
    decreases i,
{
    if i > 0 {
        assert(forall|k: int| 0 <= k < i - 1 ==> lower(#[trigger] a.drop_first()[k]) == lower(
            b.drop_first()[k],
        )) by {
            assert(forall|k: int| 0 <= k < i - 1 ==> #[trigger] a.drop_first()[k] == a[k + 1]
                && b.drop_first()[k] == b[k + 1]);
        }
        lemma_name_lt_prefix(a.drop_first(), b.drop_first(), i - 1);
    }
}

} // verus!
