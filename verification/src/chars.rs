//! Character-level helpers shared by the executable codec: conversions
//! between `String` and `Vec<char>`, subsequence copies, and executable
//! searches proved equal to the spec-level `find`/`count` functions.
use vstd::prelude::*;
use crate::mdspec::{find_char, find_pair, count_leading, count_digits, is_digit};

verus! {

/// Relies on `Iterator::collect` for `String`: builds the string holding
/// exactly the given characters.
#[verifier::external_body]
pub fn chars_to_string(v: &Vec<char>) -> (r: String)
    ensures
        r@ == v@,
{
    v.iter().collect()
}

pub fn str_to_chars(s: &str) -> (r: Vec<char>)
    ensures
        r@ == s@,
{
    let n = s.unicode_len();
    let mut r: Vec<char> = Vec::new();
    let mut i: usize = 0;
    while i < n
        invariant
            n == s@.len(),
            i <= n,
            r@ == s@.subrange(0, i as int),
        decreases n - i,
    {
        r.push(s.get_char(i));
        i = i + 1;
        proof {
            assert(r@ =~= s@.subrange(0, i as int));
        }
    }
    proof {
        assert(s@.subrange(0, n as int) =~= s@);
    }
    r
}

/// Copy of `s[a..b]`.
pub fn sub_chars(s: &Vec<char>, a: usize, b: usize) -> (r: Vec<char>)
    requires
        a <= b <= s@.len(),
    ensures
        r@ == s@.subrange(a as int, b as int),
{
    let mut r: Vec<char> = Vec::new();
    let mut i: usize = a;
    while i < b
        invariant
            a <= i <= b <= s@.len(),
            r@ == s@.subrange(a as int, i as int),
        decreases b - i,
    {
        r.push(s[i]);
        i = i + 1;
        proof {
            assert(r@ =~= s@.subrange(a as int, i as int));
        }
    }
    r
}

pub proof fn lemma_find_char_is(s: Seq<char>, start: int, c: char, j: int)
    requires
        0 <= start <= j <= s.len(),
        forall|k: int| start <= k < j ==> s[k] != c,
        j == s.len() || s[j] == c,
    ensures
        find_char(s, start, c) == j,
    decreases j - start,
{
    if start < j {
        lemma_find_char_is(s, start + 1, c, j);
    }
}

pub proof fn lemma_find_pair_is(s: Seq<char>, start: int, c: char, j: int)
    requires
        0 <= start <= j <= s.len(),
        forall|k: int| start <= k < j && k + 1 < s.len()
            ==> !(#[trigger] s[k] == c && s[k + 1] == c),
        j == s.len() || (j + 1 < s.len() && s[j] == c && s[j + 1] == c),
    ensures
        find_pair(s, start, c) == j,
    decreases j - start,
{
    if start + 1 >= s.len() {
        assert(j == s.len() || (j + 1 < s.len()));
        assert(j == s.len());
    } else if start < j {
        lemma_find_pair_is(s, start + 1, c, j);
    }
}

pub proof fn lemma_count_leading_is(l: Seq<char>, i: int, c: char, j: int)
    requires
        0 <= i <= j <= l.len(),
        forall|k: int| i <= k < j ==> l[k] == c,
        j == l.len() || l[j] != c,
    ensures
        count_leading(l, i, c) == j - i,
    decreases j - i,
{
    if i < j {
        lemma_count_leading_is(l, i + 1, c, j);
    }
}

pub proof fn lemma_count_digits_is(l: Seq<char>, i: int, j: int)
    requires
        0 <= i <= j <= l.len(),
        forall|k: int| i <= k < j ==> is_digit(l[k]),
        j == l.len() || !is_digit(l[j]),
    ensures
        count_digits(l, i) == j - i,
    decreases j - i,
{
    if i < j {
        lemma_count_digits_is(l, i + 1, j);
    }
}

pub fn find_char_at(s: &Vec<char>, start: usize, c: char) -> (r: usize)
    requires
        start <= s@.len(),
    ensures
        r == find_char(s@, start as int, c),
        start <= r <= s@.len(),
{
    let mut i: usize = start;
    while i < s.len()
        invariant
            start <= i <= s@.len(),
            forall|k: int| start <= k < i ==> s@[k] != c,
        decreases s@.len() - i,
    {
        if s[i] == c {
            proof {
                lemma_find_char_is(s@, start as int, c, i as int);
            }
            return i;
        }
        i = i + 1;
    }
    proof {
        lemma_find_char_is(s@, start as int, c, s@.len() as int);
    }
    s.len()
}

pub fn find_pair_at(s: &Vec<char>, start: usize, c: char) -> (r: usize)
    requires
        start <= s@.len(),
    ensures
        r == find_pair(s@, start as int, c),
        start <= r <= s@.len(),
{
    let mut i: usize = start;
    while i < s.len() && i + 1 < s.len()
        invariant
            start <= i,
            i <= s@.len(),
            forall|k: int| start <= k < i && k + 1 < s@.len()
                ==> !(#[trigger] s@[k] == c && s@[k + 1] == c),
        decreases s@.len() - i,
    {
        if s[i] == c && s[i + 1] == c {
            proof {
                lemma_find_pair_is(s@, start as int, c, i as int);
            }
            return i;
        }
        i = i + 1;
    }
    proof {
        lemma_find_pair_is(s@, start as int, c, s@.len() as int);
    }
    s.len()
}

pub fn count_leading_at(s: &Vec<char>, start: usize, c: char) -> (r: usize)
    requires
        start <= s@.len(),
    ensures
        r == count_leading(s@, start as int, c),
        start + r <= s@.len(),
{
    let mut i: usize = start;
    while i < s.len() && s[i] == c
        invariant
            start <= i <= s@.len(),
            forall|k: int| start <= k < i ==> s@[k] == c,
        decreases s@.len() - i,
    {
        i = i + 1;
    }
    proof {
        lemma_count_leading_is(s@, start as int, c, i as int);
    }
    i - start
}

pub fn count_digits_at(s: &Vec<char>, start: usize) -> (r: usize)
    requires
        start <= s@.len(),
    ensures
        r == count_digits(s@, start as int),
        start + r <= s@.len(),
{
    let mut i: usize = start;
    while i < s.len() && '0' <= s[i] && s[i] <= '9'
        invariant
            start <= i <= s@.len(),
            forall|k: int| start <= k < i ==> is_digit(s@[k]),
        decreases s@.len() - i,
    {
        i = i + 1;
    }
    proof {
        lemma_count_digits_is(s@, start as int, i as int);
    }
    i - start
}

/// Whether two strings hold the same characters.
pub fn str_eq(a: &str, b: &str) -> (r: bool)
    ensures
        r == (a@ == b@),
{
    let na = a.unicode_len();
    let nb = b.unicode_len();
    if na != nb {
        proof {
            assert(a@.len() != b@.len());
        }
        return false;
    }
    let mut i: usize = 0;
    while i < na
        invariant
            i <= na,
            na == a@.len() && na == b@.len(),
            forall|k: int| 0 <= k < i ==> a@[k] == b@[k],
        decreases na - i,
    {
        if a.get_char(i) != b.get_char(i) {
            return false;
        }
        i = i + 1;
    }
    proof {
        assert(a@ =~= b@);
    }
    true
}

} // verus!
