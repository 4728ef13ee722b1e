//! Executable line classification and line-window helpers for the block
//! scanner, each proved equal to its spec counterpart in `mdspec`.
use vstd::prelude::*;
use crate::mdspec::{is_blank, is_fence_line, fence_exact, heading_level_of, is_heading_line,
    is_hr_line, is_quote_line, is_bullet_line, is_ordered_line, is_indent_line, is_pipe_line,
    is_sep_line, is_image_line, is_para_line, find_char, count_leading, count_digits, trim,
    strip_quote, strip_indent, split_cells, row_cells, square_row};
use crate::chars::{sub_chars, find_char_at, count_leading_at, count_digits_at,
    lemma_find_char_is, lemma_count_leading_is};

verus! {

/// The views of a vector of lines.
pub open spec fn lines_view(lines: Seq<Vec<char>>) -> Seq<Seq<char>> {
    Seq::new(lines.len(), |i: int| lines[i]@)
}

/// The views of a vector of rows of cells.
pub open spec fn rows_view(rows: Seq<Vec<Vec<char>>>) -> Seq<Seq<Seq<char>>> {
    Seq::new(rows.len(), |i: int| lines_view(rows[i]@))
}

pub fn line_is_blank(l: &Vec<char>) -> (r: bool)
    ensures
        r == is_blank(l@),
{
    let mut i: usize = 0;
    while i < l.len()
        invariant
            i <= l@.len(),
            forall|k: int| 0 <= k < i ==> l@[k] == ' ',
        decreases l@.len() - i,
    {
        if l[i] != ' ' {
            return false;
        }
        i = i + 1;
    }
    true
}

pub fn line_is_fence(l: &Vec<char>) -> (r: bool)
    ensures
        r == is_fence_line(l@),
{
    l.len() >= 3 && l[0] == '`' && l[1] == '`' && l[2] == '`'
}

pub fn line_is_fence_exact(l: &Vec<char>) -> (r: bool)
    ensures
        r == (l@ =~= fence_exact()),
{
    let r = l.len() == 3 && l[0] == '`' && l[1] == '`' && l[2] == '`';
    proof {
        if r {
            assert(l@ =~= fence_exact());
        }
    }
    r
}

pub fn line_heading_level(l: &Vec<char>) -> (r: usize)
    ensures
        r == heading_level_of(l@),
{
    count_leading_at(l, 0, '#')
}

pub fn line_is_heading(l: &Vec<char>) -> (r: bool)
    ensures
        r == is_heading_line(l@),
{
    let k = line_heading_level(l);
    1 <= k && k <= 6 && k < l.len() && l[k] == ' '
}

pub fn line_is_hr(l: &Vec<char>) -> (r: bool)
    ensures
        r == is_hr_line(l@),
{
    let r = l.len() == 3 && ((l[0] == '-' && l[1] == '-' && l[2] == '-') || (l[0] == '*' && l[1]
        == '*' && l[2] == '*'));
    proof {
        if r {
            if l@[0] == '-' {
                assert(l@ =~= seq!['-', '-', '-']);
            } else {
                assert(l@ =~= seq!['*', '*', '*']);
            }
        } else {
            assert(!(l@ =~= seq!['-', '-', '-']));
            assert(!(l@ =~= seq!['*', '*', '*']));
        }
    }
    r
}

pub fn line_is_quote(l: &Vec<char>) -> (r: bool)
    ensures
        r == is_quote_line(l@),
{
    l.len() >= 1 && l[0] == '>'
}

pub fn line_is_bullet(l: &Vec<char>) -> (r: bool)
    ensures
        r == is_bullet_line(l@),
{
    l.len() >= 2 && (l[0] == '-' || l[0] == '*') && l[1] == ' '
}

pub fn line_is_ordered(l: &Vec<char>) -> (r: bool)
    ensures
        r == is_ordered_line(l@),
{
    let k = count_digits_at(l, 0);
    k >= 1 && k < l.len() && k + 1 < l.len() && l[k] == '.' && l[k + 1] == ' '
}

pub fn line_is_indent(l: &Vec<char>) -> (r: bool)
    ensures
        r == is_indent_line(l@),
{
    l.len() >= 2 && l[0] == ' ' && l[1] == ' '
}

pub fn line_is_pipe(l: &Vec<char>) -> (r: bool)
    ensures
        r == is_pipe_line(l@),
{
    l.len() >= 1 && l[0] == '|'
}

pub fn line_is_sep(l: &Vec<char>) -> (r: bool)
    ensures
        r == is_sep_line(l@),
{
    if !(l.len() >= 2 && l[0] == '|') {
        return false;
    }
    let mut i: usize = 0;
    let mut dash = false;
    while i < l.len()
        invariant
            i <= l@.len(),
            forall|k: int| 0 <= k < i ==> (l@[k] == '|' || l@[k] == '-' || l@[k] == ':'
                || l@[k] == ' '),
            dash == (exists|k: int| 0 <= k < i && l@[k] == '-'),
        decreases l@.len() - i,
    {
        let c = l[i];
        if !(c == '|' || c == '-' || c == ':' || c == ' ') {
            return false;
        }
        if c == '-' {
            dash = true;
        }
        i = i + 1;
    }
    dash
}

pub fn line_is_image(l: &Vec<char>) -> (r: bool)
    ensures
        r == is_image_line(l@),
{
    if !(l.len() >= 5 && l[0] == '!' && l[1] == '[') {
        proof {
            if l@.len() >= 5 {
                assert(!is_image_line(l@));
            } else {
                assert(!is_image_line(l@));
            }
        }
        return false;
    }
    let j = find_char_at(l, 2, ']');
    if !(j < l.len() && j + 1 < l.len() && l[j + 1] == '(') {
        return false;
    }
    let k = find_char_at(l, j + 2, ')');
    k == l.len() - 1
}

pub fn line_is_para(l: &Vec<char>) -> (r: bool)
    ensures
        r == is_para_line(l@),
{
    !line_is_blank(l) && !line_is_fence(l) && !line_is_heading(l) && !line_is_hr(l)
        && !line_is_quote(l) && !line_is_bullet(l) && !line_is_ordered(l) && !line_is_indent(l)
        && !line_is_pipe(l) && !line_is_image(l)
}

/// Copy of one line.
pub fn copy_line(l: &Vec<char>) -> (r: Vec<char>)
    ensures
        r@ == l@,
{
    let r = sub_chars(l, 0, l.len());
    proof {
        assert(l@.subrange(0, l@.len() as int) =~= l@);
    }
    r
}

/// Trimmed copy of a cell.
pub fn trim_exec(s: &Vec<char>) -> (r: Vec<char>)
    ensures
        r@ == trim(s@),
{
    let n = s.len();
    let a = count_leading_at(s, 0, ' ');
    let mut t: usize = 0;
    while t < n && s[n - 1 - t] == ' '
        invariant
            t <= n,
            n == s@.len(),
            forall|k: int| 0 <= k < t ==> #[trigger] s@[n - 1 - k] == ' ',
        decreases n - t,
    {
        t = t + 1;
    }
    proof {
        assert forall|k: int| 0 <= k < t implies s@.reverse()[k] == ' ' by {
            assert(s@.reverse()[k] == s@[n - 1 - k]);
        }
        if t < n {
            assert(s@.reverse()[t as int] == s@[n - 1 - t]);
        }
        lemma_count_leading_is(s@.reverse(), 0, ' ', t as int);
    }
    if a <= n - t {
        let r = sub_chars(s, a, n - t);
        r
    } else {
        let r: Vec<char> = Vec::new();
        proof {
            assert(r@ =~= trim(s@));
        }
        r
    }
}

/// Splits a cell body on `|`, as the spec `split_cells` does.
pub fn split_cells_exec(s: &Vec<char>) -> (r: Vec<Vec<char>>)
    ensures
        lines_view(r@) == split_cells(s@),
    decreases s@.len(),
{
    let j = find_char_at(s, 0, '|');
    if j >= s.len() {
        let mut r: Vec<Vec<char>> = Vec::new();
        r.push(copy_line(s));
        proof {
            assert(lines_view(r@) =~= split_cells(s@));
        }
        r
    } else {
        let head = sub_chars(s, 0, j);
        let rest_c = sub_chars(s, j + 1, s.len());
        let mut r = split_cells_exec(&rest_c);
        let ghost pre = r@;
        r.insert(0, head);
        proof {
            assert(lines_view(r@) =~= seq![s@.subrange(0, j as int)] + lines_view(pre));
            assert(lines_view(r@) =~= split_cells(s@));
        }
        r
    }
}

/// Splits a pipe row into trimmed cells, as the spec `row_cells` does.
pub fn row_cells_exec(l: &Vec<char>) -> (r: Vec<Vec<char>>)
    ensures
        lines_view(r@) == row_cells(l@),
{
    let n = l.len();
    let body1 = if n >= 1 && l[0] == '|' {
        let b = sub_chars(l, 1, n);
        proof {
            assert(b@ =~= l@.drop_first());
        }
        b
    } else {
        copy_line(l)
    };
    let m = body1.len();
    let body = if m >= 1 && body1[m - 1] == '|' {
        let b = sub_chars(&body1, 0, m - 1);
        proof {
            assert(b@ =~= body1@.drop_last());
        }
        b
    } else {
        copy_line(&body1)
    };
    let parts = split_cells_exec(&body);
    let mut r: Vec<Vec<char>> = Vec::new();
    let mut i: usize = 0;
    while i < parts.len()
        invariant
            i <= parts@.len(),
            lines_view(parts@) == split_cells(body@),
            r@.len() == i,
            forall|k: int| 0 <= k < i ==> #[trigger] r@[k]@ == trim(split_cells(body@)[k]),
        decreases parts@.len() - i,
    {
        let t = trim_exec(&parts[i]);
        r.push(t);
        proof {
            assert(lines_view(parts@)[i as int] == parts@[i as int]@);
        }
        i = i + 1;
    }
    proof {
        assert(lines_view(r@) =~= row_cells(l@));
    }
    r
}

/// Pads or truncates one row to exactly `w` cells.
pub fn square_row_exec(w: usize, row: Vec<Vec<char>>) -> (r: Vec<Vec<char>>)
    ensures
        lines_view(r@) == square_row(w as int, lines_view(row@)),
        r@.len() == w,
{
    let mut r = row;
    if r.len() < w {
        let ghost orig = r@;
        while r.len() < w
            invariant
                orig.len() <= r@.len() <= w,
                r@.subrange(0, orig.len() as int) =~= orig,
                forall|k: int| orig.len() <= k < r@.len() ==> r@[k]@ =~= Seq::<char>::empty(),
            decreases w - r@.len(),
        {
            let e: Vec<char> = Vec::new();
            r.push(e);
        }
        proof {
            assert(lines_view(r@) =~= square_row(w as int, lines_view(orig)));
        }
    } else {
        let ghost orig = r@;
        while r.len() > w
            invariant
                w <= r@.len() <= orig.len(),
                r@ =~= orig.subrange(0, r@.len() as int),
            decreases r@.len(),
        {
            let _dropped = r.pop();
            proof {
                assert(r@ =~= orig.subrange(0, r@.len() as int));
            }
        }
        proof {
            assert(lines_view(r@) =~= square_row(w as int, lines_view(orig)));
        }
    }
    r
}

} // verus!
