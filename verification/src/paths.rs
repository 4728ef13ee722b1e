//! Classification of command-line "open this file" arguments: quote
//! stripping, launcher-token rejection, and the Markdown extension check.
//! Whether the path exists on disk, and `file://` URL decoding, are the
//! shell's job; everything decidable from the text alone is decided here.
use vstd::prelude::*;
use crate::mdspec::count_leading;
use crate::chars::{chars_to_string, str_to_chars, sub_chars, count_leading_at,
    lemma_count_leading_is};

verus! {

/// The argument with all leading and trailing double quotes removed.
pub open spec fn strip_quotes(s: Seq<char>) -> Seq<char> {
    let a = count_leading(s, 0, '"');
    let b = count_leading(s.reverse(), 0, '"');
    if a + b <= s.len() {
        s.subrange(a, s.len() - b)
    } else {
        Seq::empty()
    }
}

/// A macOS launcher process token, never a file path.
pub open spec fn is_psn_token(s: Seq<char>) -> bool {
    s.len() >= 5 && s[0] == '-' && s[1] == 'p' && s[2] == 's' && s[3] == 'n' && s[4] == '_'
}

/// Index of the last occurrence of `c`, or -1.
pub open spec fn last_index(s: Seq<char>, c: char) -> int
    decreases s.len(),
{
    if s.len() == 0 {
        -1
    } else if s[s.len() - 1] == c {
        s.len() - 1
    } else {
        last_index(s.drop_last(), c)
    }
}

pub proof fn lemma_last_index_bounds(s: Seq<char>, c: char)
    ensures
        -1 <= last_index(s, c) < s.len(),
    decreases s.len(),
{
    if s.len() > 0 && s[s.len() - 1] != c {
        lemma_last_index_bounds(s.drop_last(), c);
    }
}

pub proof fn lemma_last_index_is(s: Seq<char>, c: char, j: int)
    requires
        -1 <= j < s.len(),
        j >= 0 ==> s[j] == c,
        forall|k: int| j < k < s.len() ==> s[k] != c,
    ensures
        last_index(s, c) == j,
    decreases s.len(),
{
    if s.len() == 0 {
    } else if s[s.len() - 1] == c {
        assert(j == s.len() - 1);
    } else {
        assert(j < s.len() - 1);
        lemma_last_index_is(s.drop_last(), c, j);
    }
}

/// Where the file name begins: one past the last path separator.
pub open spec fn name_start(s: Seq<char>) -> int {
    let sl = last_index(s, '/');
    let bs = last_index(s, '\\');
    if sl >= bs {
        sl + 1
    } else {
        bs + 1
    }
}

/// A Markdown file extension, compared without regard to ASCII case.
pub open spec fn is_md_ext(e: Seq<char>) -> bool {
    (e.len() == 2 && (e[0] == 'm' || e[0] == 'M') && (e[1] == 'd' || e[1] == 'D')) || (e.len()
        == 8 && (e[0] == 'm' || e[0] == 'M') && (e[1] == 'a' || e[1] == 'A') && (e[2] == 'r'
        || e[2] == 'R') && (e[3] == 'k' || e[3] == 'K') && (e[4] == 'd' || e[4] == 'D') && (e[5]
        == 'o' || e[5] == 'O') && (e[6] == 'w' || e[6] == 'W') && (e[7] == 'n' || e[7] == 'N'))
}

/// Whether the path's file name has a Markdown extension: a dot strictly
/// inside the name, with `md` or `markdown` after it.
pub open spec fn has_md_ext(s: Seq<char>) -> bool {
    let d = last_index(s, '.');
    d > name_start(s) && is_md_ext(s.subrange(d + 1, s.len() as int))
}

/// What an open argument normalizes to, by text alone: the unquoted path,
/// or nothing when it is empty, a launcher token, or not a Markdown file.
pub open spec fn open_candidate(s: Seq<char>) -> Option<Seq<char>> {
    let t = strip_quotes(s);
    if t.len() == 0 || is_psn_token(t) || !has_md_ext(t) {
        Option::None
    } else {
        Option::Some(t)
    }
}

/// The candidates among a list of arguments, in order.
pub open spec fn open_candidates(args: Seq<Seq<char>>) -> Seq<Seq<char>>
    decreases args.len(),
{
    if args.len() == 0 {
        Seq::empty()
    } else {
        match open_candidate(args[0]) {
            Option::Some(p) => seq![p] + open_candidates(args.drop_first()),
            Option::None => open_candidates(args.drop_first()),
        }
    }
}

/// Index of the last occurrence of `c`, as found by a backward scan;
/// returns `(false, 0)` when absent.
#[verifier::loop_isolation(false)]
fn last_index_exec(s: &Vec<char>, c: char) -> (r: (bool, usize))
    ensures
        r.0 ==> r.1 < s@.len() && last_index(s@, c) == r.1,
        !r.0 ==> last_index(s@, c) == -1,
{
    let mut i: usize = s.len();
    while i > 0
        invariant
            i <= s@.len(),
            forall|k: int| i <= k < s@.len() ==> s@[k] != c,
        decreases i,
    {
        i = i - 1;
        if s[i] == c {
            proof {
                lemma_last_index_is(s@, c, i as int);
            }
            return (true, i);
        }
    }
    proof {
        lemma_last_index_is(s@, c, -1);
    }
    (false, 0)
}

/// The unquoted argument.
#[verifier::loop_isolation(false)]
fn strip_quotes_exec(s: &Vec<char>) -> (r: Vec<char>)
    ensures
        r@ == strip_quotes(s@),
{
    let n = s.len();
    let a = count_leading_at(s, 0, '"');
    let mut t: usize = 0;
    while t < n && s[n - 1 - t] == '"'
        invariant
            t <= n,
            forall|k: int| 0 <= k < t ==> #[trigger] s@[n - 1 - k] == '"',
        decreases n - t,
    {
        t = t + 1;
    }
    proof {
        assert forall|k: int| 0 <= k < t implies s@.reverse()[k] == '"' by {
            assert(s@.reverse()[k] == s@[n - 1 - k]);
        }
        if t < n {
            assert(s@.reverse()[t as int] == s@[n - 1 - t]);
        }
        lemma_count_leading_is(s@.reverse(), 0, '"', t as int);
    }
    if a <= n - t {
        sub_chars(s, a, n - t)
    } else {
        let r: Vec<char> = Vec::new();
        proof {
            assert(r@ =~= strip_quotes(s@));
        }
        r
    }
}

/// Classifies one open argument; shells still check that the surviving
/// candidate names an existing file.
pub fn open_path_candidate(arg: &str) -> (r: Option<String>)
    ensures
        match r {
            Option::Some(p) => open_candidate(arg@) == Option::Some(p@),
            Option::None => open_candidate(arg@) is None,
        },
{
    let cs = str_to_chars(arg);
    let t = strip_quotes_exec(&cs);
    if t.len() == 0 {
        return Option::None;
    }
    if t.len() >= 5 && t[0] == '-' && t[1] == 'p' && t[2] == 's' && t[3] == 'n' && t[4] == '_' {
        return Option::None;
    }
    let (dot_found, d) = last_index_exec(&t, '.');
    if !dot_found {
        proof {
            assert(last_index(t@, '.') == -1);
            lemma_last_index_bounds(t@, '/');
            lemma_last_index_bounds(t@, '\\');
            assert(!has_md_ext(t@));
        }
        return Option::None;
    }
    let (sl_found, sl) = last_index_exec(&t, '/');
    let (bs_found, bs) = last_index_exec(&t, '\\');
    let start: usize = if sl_found && bs_found {
        if sl >= bs {
            sl + 1
        } else {
            bs + 1
        }
    } else if sl_found {
        sl + 1
    } else if bs_found {
        bs + 1
    } else {
        0
    };
    proof {
        assert(start == name_start(t@) || (start == 0 && name_start(t@) == 0));
    }
    if !(d > start) {
        return Option::None;
    }
    let e = sub_chars(&t, d + 1, t.len());
    let ok = (e.len() == 2 && (e[0] == 'm' || e[0] == 'M') && (e[1] == 'd' || e[1] == 'D')) || (
    e.len() == 8 && (e[0] == 'm' || e[0] == 'M') && (e[1] == 'a' || e[1] == 'A') && (e[2] == 'r'
        || e[2] == 'R') && (e[3] == 'k' || e[3] == 'K') && (e[4] == 'd' || e[4] == 'D') && (e[5]
        == 'o' || e[5] == 'O') && (e[6] == 'w' || e[6] == 'W') && (e[7] == 'n' || e[7] == 'N'));
    if !ok {
        return Option::None;
    }
    Option::Some(chars_to_string(&t))
}

/// The open-file candidates among the launch arguments, in order.
#[verifier::loop_isolation(false)]
pub fn collect_open_paths(args: &Vec<String>) -> (r: Vec<String>)
    ensures
        r.deep_view() == open_candidates(args.deep_view()),
{
    let mut r: Vec<String> = Vec::new();
    let mut i: usize = 0;
    while i < args.len()
        invariant
            i <= args@.len(),
            r.deep_view() == open_candidates(args.deep_view().subrange(0, i as int)),
        decreases args@.len() - i,
    {
        let ghost pre = r.deep_view();
        match open_path_candidate(args[i].as_str()) {
            Option::Some(p) => {
                r.push(p);
            },
            Option::None => {},
        }
        proof {
            lemma_open_candidates_snoc(args.deep_view(), i as int);
            assert(args.deep_view()[i as int] == args@[i as int]@);
            match open_candidate(args.deep_view()[i as int]) {
                Option::Some(p) => {
                    assert(r.deep_view() =~~= pre + seq![p]);
                },
                Option::None => {},
            }
        }
        i = i + 1;
    }
    proof {
        assert(args.deep_view().subrange(0, args@.len() as int) =~= args.deep_view());
    }
    r
}

/// Extending the scanned prefix by one argument.
proof fn lemma_open_candidates_snoc(args: Seq<Seq<char>>, i: int)
    requires
        0 <= i < args.len(),
    ensures
        open_candidates(args.subrange(0, i + 1)) == match open_candidate(args[i]) {
            Option::Some(p) => open_candidates(args.subrange(0, i)) + seq![p],
            Option::None => open_candidates(args.subrange(0, i)),
        },
    decreases i,
{
    if i == 0 {
        assert(args.subrange(0, 1).drop_first() =~= Seq::<Seq<char>>::empty());
        assert(args.subrange(0, 0) =~= Seq::<Seq<char>>::empty());
        assert(args.subrange(0, 1)[0] == args[0]);
        match open_candidate(args[0]) {
            Option::Some(p) => {
                assert(open_candidates(args.subrange(0, 1)) =~= open_candidates(args.subrange(
                    0,
                    0,
                )) + seq![p]);
            },
            Option::None => {},
        }
    } else {
        lemma_open_candidates_snoc(args.drop_first(), i - 1);
        assert(args.subrange(0, i + 1).drop_first() =~= args.drop_first().subrange(0, i));
        assert(args.subrange(0, i).drop_first() =~= args.drop_first().subrange(0, i - 1));
        assert(args.subrange(0, i + 1)[0] == args[0]);
        assert(args.subrange(0, i)[0] == args[0]);
        assert(args.drop_first()[i - 1] == args[i]);
        match open_candidate(args[i]) {
            Option::Some(p) => {
                match open_candidate(args[0]) {
                    Option::Some(q) => {
                        assert(open_candidates(args.subrange(0, i + 1)) =~= open_candidates(
                            args.subrange(0, i),
                        ) + seq![p]);
                    },
                    Option::None => {
                        assert(open_candidates(args.subrange(0, i + 1)) =~= open_candidates(
                            args.subrange(0, i),
                        ) + seq![p]);
                    },
                }
            },
            Option::None => {},
        }
    }
}

} // verus!
