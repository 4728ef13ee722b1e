//! Executable block scanner: turns Markdown text into the document tree,
//! proved to compute exactly the spec-level `parse_blocks` / `md_parse`
//! functions.  Ragged table rows are repaired in place and reported through
//! the returned warnings, never as errors.
use vstd::prelude::*;
use crate::ir::{Block, ListItem, Doc, Warning, block_view, blocks_view, item_view,
    items_view, doc_view};
use crate::mdspec::{parse_blocks, parse_one, parse_items, block_extent, quote_run,
    bullet_run, ordered_run, pipe_run, indent_run, fence_close, fence_exact, strip_quote,
    strip_quote_all, strip_indent, strip_indent_all, bullet_rest, ordered_rest, row_cells,
    square_row, square_rows, split_nl, md_parse, chars_sum, lines_size, is_blank,
    is_quote_line, is_bullet_line, is_ordered_line, is_indent_line, is_pipe_line,
    lemma_chars_sum_nonneg, lemma_chars_sum_split, lemma_chars_sum_index,
    lemma_quote_run_bounds, lemma_bullet_run_bounds, lemma_ordered_run_bounds,
    lemma_pipe_run_bounds, lemma_indent_run_bounds, lemma_fence_close_bounds,
    lemma_block_extent_bounds, lemma_strip_quote_all_size, lemma_strip_indent_all_size,
    lemma_find_char};
use crate::mdlines::{lines_view, line_is_blank, line_is_fence, line_is_fence_exact,
    line_heading_level, line_is_heading, line_is_hr, line_is_quote, line_is_bullet,
    line_is_ordered, line_is_indent, line_is_pipe, line_is_sep, line_is_image, copy_line,
    row_cells_exec, square_row_exec};
use crate::chars::{chars_to_string, str_to_chars, sub_chars, find_char_at, count_digits_at};
use crate::inline::parse_inline_chars;

verus! {

/// The window `lines[a..b]`, viewed as a sequence of lines.
pub open spec fn win(lines: Seq<Vec<char>>, a: int, b: int) -> Seq<Seq<char>> {
    lines_view(lines).subrange(a, b)
}

/// `post` carries every earlier warning, in order, possibly followed by new
/// ones.
pub open spec fn warn_extends(post: Seq<Warning>, pre: Seq<Warning>) -> bool {
    post.len() >= pre.len() && post.subrange(0, pre.len() as int) == pre
}

pub proof fn lemma_warn_extends_trans(c: Seq<Warning>, b: Seq<Warning>, a: Seq<Warning>)
    requires
        warn_extends(c, b),
        warn_extends(b, a),
    ensures
        warn_extends(c, a),
{
    assert(c.subrange(0, a.len() as int) =~= c.subrange(0, b.len() as int).subrange(
        0,
        a.len() as int,
    ));
}

/// Strips one level of quote markers from the window.
#[verifier::loop_isolation(false)]
fn strip_quote_win(lines: &Vec<Vec<char>>, a: usize, b: usize) -> (r: Vec<Vec<char>>)
    requires
        a <= b <= lines@.len(),
    ensures
        lines_view(r@) == strip_quote_all(win(lines@, a as int, b as int)),
{
    let mut r: Vec<Vec<char>> = Vec::new();
    let mut i: usize = a;
    while i < b
        invariant
            a <= i <= b <= lines@.len(),
            r@.len() == i - a,
            forall|k: int| 0 <= k < i - a ==> #[trigger] r@[k]@ == strip_quote(
                lines@[a + k]@,
            ),
        decreases b - i,
    {
        let l = &lines[i];
        let st = if l.len() >= 2 && l[0] == '>' && l[1] == ' ' {
            let s = sub_chars(l, 2, l.len());
            s
        } else if l.len() >= 1 && l[0] == '>' {
            let s = sub_chars(l, 1, l.len());
            s
        } else {
            copy_line(l)
        };
        proof {
            assert(st@ == strip_quote(lines@[i as int]@));
        }
        r.push(st);
        i = i + 1;
    }
    proof {
        assert(lines_view(r@) =~~= strip_quote_all(win(lines@, a as int, b as int)));
    }
    r
}

/// Strips one level of list indentation from the window.
#[verifier::loop_isolation(false)]
fn strip_indent_win(lines: &Vec<Vec<char>>, a: usize, b: usize) -> (r: Vec<Vec<char>>)
    requires
        a <= b <= lines@.len(),
    ensures
        lines_view(r@) == strip_indent_all(win(lines@, a as int, b as int)),
{
    let mut r: Vec<Vec<char>> = Vec::new();
    let mut i: usize = a;
    while i < b
        invariant
            a <= i <= b <= lines@.len(),
            r@.len() == i - a,
            forall|k: int| 0 <= k < i - a ==> #[trigger] r@[k]@ == strip_indent(
                lines@[a + k]@,
            ),
        decreases b - i,
    {
        let l = &lines[i];
        let st = if line_is_indent(l) {
            let s = sub_chars(l, 2, l.len());
            s
        } else {
            copy_line(l)
        };
        proof {
            assert(st@ == strip_indent(lines@[i as int]@));
        }
        r.push(st);
        i = i + 1;
    }
    proof {
        assert(lines_view(r@) =~~= strip_indent_all(win(lines@, a as int, b as int)));
    }
    r
}

/// Length of the maximal quote run at the head of the window.
#[verifier::loop_isolation(false)]
fn quote_run_win(lines: &Vec<Vec<char>>, a: usize, b: usize) -> (r: usize)
    requires
        a <= b <= lines@.len(),
    ensures
        r == quote_run(win(lines@, a as int, b as int)),
        r <= b - a,
{
    let ghost w = win(lines@, a as int, b as int);
    let mut i: usize = a;
    while i < b && line_is_quote(&lines[i])
        invariant
            a <= i <= b,
            b <= lines@.len(),
            forall|k: int| 0 <= k < i - a ==> is_quote_line(#[trigger] w[k]),
        decreases b - i,
    {
        proof {
            assert(w[i - a] == lines@[i as int]@);
        }
        i = i + 1;
    }
    proof {
        lemma_quote_run_bounds(w);
        if i < b {
            assert(w[i - a] == lines@[i as int]@);
            assert(!is_quote_line(w[i - a]));
        }
        assert(quote_run(w) == i - a);
    }
    i - a
}

/// Length of the maximal bullet-or-indent run at the head of the window.
#[verifier::loop_isolation(false)]
fn bullet_run_win(lines: &Vec<Vec<char>>, a: usize, b: usize) -> (r: usize)
    requires
        a <= b <= lines@.len(),
    ensures
        r == bullet_run(win(lines@, a as int, b as int)),
        r <= b - a,
{
    let ghost w = win(lines@, a as int, b as int);
    let mut i: usize = a;
    while i < b && (line_is_bullet(&lines[i]) || line_is_indent(&lines[i]))
        invariant
            a <= i <= b,
            b <= lines@.len(),
            forall|k: int| 0 <= k < i - a ==> is_bullet_line(#[trigger] w[k]) || is_indent_line(
                w[k],
            ),
        decreases b - i,
    {
        proof {
            assert(w[i - a] == lines@[i as int]@);
        }
        i = i + 1;
    }
    proof {
        lemma_bullet_run_bounds(w);
        if i < b {
            assert(w[i - a] == lines@[i as int]@);
        }
        assert(bullet_run(w) == i - a);
    }
    i - a
}

/// Length of the maximal ordered-or-indent run at the head of the window.
#[verifier::loop_isolation(false)]
fn ordered_run_win(lines: &Vec<Vec<char>>, a: usize, b: usize) -> (r: usize)
    requires
        a <= b <= lines@.len(),
    ensures
        r == ordered_run(win(lines@, a as int, b as int)),
        r <= b - a,
{
    let ghost w = win(lines@, a as int, b as int);
    let mut i: usize = a;
    while i < b && (line_is_ordered(&lines[i]) || line_is_indent(&lines[i]))
        invariant
            a <= i <= b,
            b <= lines@.len(),
            forall|k: int| 0 <= k < i - a ==> is_ordered_line(#[trigger] w[k]) || is_indent_line(
                w[k],
            ),
        decreases b - i,
    {
        proof {
            assert(w[i - a] == lines@[i as int]@);
        }
        i = i + 1;
    }
    proof {
        lemma_ordered_run_bounds(w);
        if i < b {
            assert(w[i - a] == lines@[i as int]@);
        }
        assert(ordered_run(w) == i - a);
    }
    i - a
}

/// Length of the maximal pipe run at the head of the window.
#[verifier::loop_isolation(false)]
fn pipe_run_win(lines: &Vec<Vec<char>>, a: usize, b: usize) -> (r: usize)
    requires
        a <= b <= lines@.len(),
    ensures
        r == pipe_run(win(lines@, a as int, b as int)),
        r <= b - a,
{
    let ghost w = win(lines@, a as int, b as int);
    let mut i: usize = a;
    while i < b && line_is_pipe(&lines[i])
        invariant
            a <= i <= b,
            b <= lines@.len(),
            forall|k: int| 0 <= k < i - a ==> is_pipe_line(#[trigger] w[k]),
        decreases b - i,
    {
        proof {
            assert(w[i - a] == lines@[i as int]@);
        }
        i = i + 1;
    }
    proof {
        lemma_pipe_run_bounds(w);
        if i < b {
            assert(w[i - a] == lines@[i as int]@);
            assert(!is_pipe_line(w[i - a]));
        }
        assert(pipe_run(w) == i - a);
    }
    i - a
}

/// Length of the maximal indent run at the head of the window.
#[verifier::loop_isolation(false)]
fn indent_run_win(lines: &Vec<Vec<char>>, a: usize, b: usize) -> (r: usize)
    requires
        a <= b <= lines@.len(),
    ensures
        r == indent_run(win(lines@, a as int, b as int)),
        r <= b - a,
{
    let ghost w = win(lines@, a as int, b as int);
    let mut i: usize = a;
    while i < b && line_is_indent(&lines[i])
        invariant
            a <= i <= b,
            b <= lines@.len(),
            forall|k: int| 0 <= k < i - a ==> is_indent_line(#[trigger] w[k]),
        decreases b - i,
    {
        proof {
            assert(w[i - a] == lines@[i as int]@);
        }
        i = i + 1;
    }
    proof {
        lemma_indent_run_bounds(w);
        if i < b {
            assert(w[i - a] == lines@[i as int]@);
            assert(!is_indent_line(w[i - a]));
        }
        assert(indent_run(w) == i - a);
    }
    i - a
}

/// Window index of the closing code fence, searched from window index 1, or
/// the window length if the fence is unterminated.
#[verifier::loop_isolation(false)]
fn fence_close_win(lines: &Vec<Vec<char>>, a: usize, b: usize) -> (r: usize)
    requires
        a < b <= lines@.len(),
    ensures
        r == fence_close(win(lines@, a as int, b as int), 1),
        1 <= r <= b - a,
{
    let ghost w = win(lines@, a as int, b as int);
    let mut i: usize = a + 1;
    while i < b && !line_is_fence_exact(&lines[i])
        invariant
            a + 1 <= i <= b,
            b <= lines@.len(),
            forall|k: int| 1 <= k < i - a ==> !(#[trigger] w[k] =~= fence_exact()),
        decreases b - i,
    {
        proof {
            assert(w[i - a] == lines@[i as int]@);
        }
        i = i + 1;
    }
    proof {
        lemma_fence_close_bounds(w, 1);
        if i < b {
            assert(w[i - a] == lines@[i as int]@);
        }
        assert(fence_close(w, 1) == i - a);
    }
    i - a
}

/// How many lines the first (nonblank-led) block of the window consumes.
#[verifier::loop_isolation(false)]
fn block_extent_win(lines: &Vec<Vec<char>>, a: usize, b: usize) -> (r: usize)
    requires
        a < b <= lines@.len(),
        !is_blank(lines@[a as int]@),
    ensures
        r == block_extent(win(lines@, a as int, b as int)),
        1 <= r <= b - a,
{
    let ghost w = win(lines@, a as int, b as int);
    proof {
        assert(w[0] == lines@[a as int]@);
        lemma_block_extent_bounds(w);
    }
    let l = &lines[a];
    if line_is_fence(l) {
        let j = fence_close_win(lines, a, b);
        if j < b - a {
            j + 1
        } else {
            b - a
        }
    } else if line_is_heading(l) || line_is_hr(l) || line_is_image(l) {
        1
    } else if line_is_quote(l) {
        quote_run_win(lines, a, b)
    } else if line_is_bullet(l) {
        bullet_run_win(lines, a, b)
    } else if line_is_ordered(l) {
        ordered_run_win(lines, a, b)
    } else if line_is_pipe(l) && b - a >= 2 && line_is_sep(&lines[a + 1]) {
        proof {
            assert(w[1] == lines@[a + 1]@);
        }
        pipe_run_win(lines, a, b)
    } else {
        proof {
            if is_pipe_line(w[0]) && w.len() >= 2 {
                assert(w[1] == lines@[a + 1]@);
            }
        }
        1
    }
}

/// Converts cells to owned strings.
#[verifier::loop_isolation(false)]
fn cells_to_strings(cells: &Vec<Vec<char>>) -> (r: Vec<String>)
    ensures
        r.deep_view() == lines_view(cells@),
{
    let mut r: Vec<String> = Vec::new();
    let mut i: usize = 0;
    while i < cells.len()
        invariant
            i <= cells@.len(),
            r@.len() == i,
            forall|k: int| 0 <= k < i ==> #[trigger] r@[k]@ == cells@[k]@,
        decreases cells@.len() - i,
    {
        r.push(chars_to_string(&cells[i]));
        i = i + 1;
    }
    proof {
        assert forall|k: int| 0 <= k < r@.len() implies r.deep_view()[k] == lines_view(
            cells@,
        )[k] by {
            assert(r.deep_view()[k] == r@[k].deep_view());
            assert(r@[k]@ == cells@[k]@);
        }
        assert(r.deep_view() =~~= lines_view(cells@));
    }
    r
}

/// Parses the first block of the window, which spans exactly `[a, b)`.
#[verifier::loop_isolation(false)]
fn parse_one_win(lines: &Vec<Vec<char>>, a: usize, b: usize, warn: &mut Vec<Warning>) -> (r:
    Block)
    requires
        a < b <= lines@.len(),
    ensures
        block_view(r) == parse_one(win(lines@, a as int, b as int)),
        warn_extends(final(warn)@, old(warn)@),
    decreases lines_size(win(lines@, a as int, b as int)), 1int,
{
    proof {
        assert(warn@.subrange(0, warn@.len() as int) =~= warn@);
    }
    let ghost w = win(lines@, a as int, b as int);
    proof {
        assert(w[0] == lines@[a as int]@);
    }
    let l = &lines[a];
    let wlen = b - a;
    if line_is_fence(l) {
        let lang_c = sub_chars(l, 3, l.len());
        let lang = if lang_c.len() == 0 {
            Option::None
        } else {
            Option::Some(chars_to_string(&lang_c))
        };
        let close: usize = if wlen >= 2 && line_is_fence_exact(&lines[b - 1]) {
            proof {
                assert(w[wlen - 1] == lines@[b - 1]@);
            }
            wlen - 1
        } else {
            proof {
                if w.len() >= 2 {
                    assert(w[wlen - 1] == lines@[b - 1]@);
                }
            }
            wlen
        };
        let mut content: Vec<String> = Vec::new();
        let mut i: usize = 1;
        while i < close
            invariant
                1 <= i <= close <= wlen,
                a + wlen == b <= lines@.len(),
                content@.len() == i - 1,
                forall|k: int| 0 <= k < i - 1 ==> #[trigger] content@[k]@ == lines@[
                    a + 1 + k
                ]@,
            decreases close - i,
        {
            content.push(chars_to_string(&copy_line(&lines[a + i])));
            i = i + 1;
        }
        let r = Block::CodeBlock { lang, lines: content };
        proof {
            assert forall|k: int| 0 <= k < close - 1 implies r->CodeBlock_lines.deep_view()[k]
                == w.subrange(1, close as int)[k] by {
                assert(r->CodeBlock_lines.deep_view()[k] == content@[k]@);
                assert(w.subrange(1, close as int)[k] == lines@[a + 1 + k]@);
            }
            assert(r->CodeBlock_lines.deep_view() =~~= w.subrange(1, close as int));
            assert(block_view(r) =~~= parse_one(w));
        }
        return r;
    }
    if line_is_heading(l) {
        let k = line_heading_level(l);
        proof {
            crate::mdspec::lemma_count_leading(l@, 0, '#');
        }
        let content_c = sub_chars(l, k + 1, l.len());
        let content = parse_inline_chars(&content_c);
        let r = Block::Heading { level: k as u8, content };
        proof {
            assert(block_view(r) =~~= parse_one(w));
        }
        return r;
    }
    if line_is_hr(l) {
        let r = Block::HorizontalRule;
        proof {
            assert(block_view(r) =~~= parse_one(w));
        }
        return r;
    }
    if line_is_image(l) {
        let j = find_char_at(l, 2, ']');
        let ln = l.len();
        proof {
            lemma_find_char(l@, 2, ']');
            assert(ln >= 5);
            assert(j + 2 <= ln);
            lemma_find_char(l@, j + 2, ')');
        }
        let alt_c = sub_chars(l, 2, j);
        let src_c = sub_chars(l, j + 2, ln - 1);
        let r = Block::Image {
            alt: chars_to_string(&alt_c),
            src: chars_to_string(&src_c),
        };
        proof {
            assert(block_view(r) =~~= parse_one(w));
        }
        return r;
    }
    if line_is_quote(l) {
        let stripped = strip_quote_win(lines, a, b);
        proof {
            lemma_strip_quote_all_size(w);
            lemma_chars_sum_nonneg(strip_quote_all(w));
            assert(lines_view(stripped@) == strip_quote_all(w));
            assert(win(stripped@, 0, stripped@.len() as int) =~= lines_view(stripped@));
            assert(lines_size(win(stripped@, 0, stripped@.len() as int)) < lines_size(w));
        }
        let inner = parse_blocks_win(&stripped, 0, stripped.len(), warn);
        let r = Block::Blockquote { blocks: inner };
        proof {
            assert(block_view(r) =~~= parse_one(w));
        }
        return r;
    }
    if line_is_bullet(l) {
        let items = parse_items_win(lines, a, b, warn);
        let r = Block::BulletList { items };
        proof {
            assert(block_view(r) =~~= parse_one(w));
        }
        return r;
    }
    if line_is_ordered(l) {
        let items = parse_items_win(lines, a, b, warn);
        let r = Block::OrderedList { items };
        proof {
            assert(block_view(r) =~~= parse_one(w));
        }
        return r;
    }
    if line_is_pipe(l) && wlen >= 2 && line_is_sep(&lines[a + 1]) {
        proof {
            assert(w[1] == lines@[a + 1]@);
        }
        let header_c = row_cells_exec(l);
        let width = header_c.len();
        let header = cells_to_strings(&header_c);
        let mut rows: Vec<Vec<String>> = Vec::new();
        let mut i: usize = 2;
        while i < wlen
            invariant
                2 <= i <= wlen,
                a + wlen == b <= lines@.len(),
                width == row_cells(w[0]).len(),
                w == win(lines@, a as int, b as int),
                rows@.len() == i - 2,
                forall|k: int| 0 <= k < i - 2 ==> #[trigger] rows@[k].deep_view() == square_row(
                    width as int,
                    row_cells(lines@[a + 2 + k]@),
                ),
                warn_extends(warn@, old(warn)@),
            decreases wlen - i,
        {
            let rc = row_cells_exec(&lines[a + i]);
            let ghost wv = warn@;
            if rc.len() < width {
                warn.push(Warning::RowPadded { row: i - 2 });
            } else if rc.len() > width {
                warn.push(Warning::RowTruncated { row: i - 2 });
            }
            proof {
                assert(warn@.subrange(0, old(warn)@.len() as int) =~= wv.subrange(
                    0,
                    old(warn)@.len() as int,
                ));
            }
            let sq = square_row_exec(width, rc);
            let row = cells_to_strings(&sq);
            rows.push(row);
            i = i + 1;
        }
        let r = Block::Table { header, rows };
        proof {
            let raw = w.subrange(2, wlen as int).map(|q: int, rr: Seq<char>| row_cells(rr));
            let sq_spec = square_rows(row_cells(w[0]).len() as int, raw);
            assert(r->Table_rows.deep_view().len() == sq_spec.len());
            assert forall|k: int| 0 <= k < sq_spec.len() implies r->Table_rows.deep_view()[k]
                == sq_spec[k] by {
                assert(r->Table_rows.deep_view()[k] == rows@[k].deep_view());
                assert(raw[k] == row_cells(w.subrange(2, wlen as int)[k]));
                assert(w.subrange(2, wlen as int)[k] == lines@[a + 2 + k]@);
                assert(sq_spec[k] == square_row(row_cells(w[0]).len() as int, raw[k]));
            }
            assert(r->Table_rows.deep_view() =~~= sq_spec);
            assert(r->Table_header.deep_view() =~~= row_cells(w[0]));
            assert(block_view(r) =~~= parse_one(w));
        }
        return r;
    }
    let content = parse_inline_chars(&copy_line(l));
    let r = Block::Paragraph { content };
    proof {
        if is_pipe_line(w[0]) && w.len() >= 2 {
            assert(w[1] == lines@[a + 1]@);
        }
        assert(block_view(r) =~~= parse_one(w));
    }
    r
}

/// Splits a list run into items.
#[verifier::loop_isolation(false)]
fn parse_items_win(lines: &Vec<Vec<char>>, a: usize, b: usize, warn: &mut Vec<Warning>) -> (r:
    Vec<ListItem>)
    requires
        a <= b <= lines@.len(),
    ensures
        items_view(r@) == parse_items(win(lines@, a as int, b as int)),
        warn_extends(final(warn)@, old(warn)@),
    decreases lines_size(win(lines@, a as int, b as int)), 0int,
{
    proof {
        assert(warn@.subrange(0, warn@.len() as int) =~= warn@);
    }
    let ghost w = win(lines@, a as int, b as int);
    if a == b {
        let r: Vec<ListItem> = Vec::new();
        proof {
            assert(items_view(r@) =~= parse_items(w));
        }
        return r;
    }
    proof {
        assert(w[0] == lines@[a as int]@);
    }
    let head = &lines[a];
    let content_c = if line_is_bullet(head) {
        let s = if head.len() >= 2 {
            sub_chars(head, 2, head.len())
        } else {
            Vec::new()
        };
        proof {
            assert(s@ =~= bullet_rest(w[0]));
        }
        s
    } else {
        let k = count_digits_at(head, 0);
        let s = if k < head.len() && k + 1 < head.len() {
            sub_chars(head, k + 2, head.len())
        } else {
            Vec::new()
        };
        proof {
            assert(s@ =~= ordered_rest(w[0]));
        }
        s
    };
    let cont = indent_run_win(lines, a + 1, b);
    proof {
        assert(win(lines@, a + 1, a + 1 + cont) =~= w.subrange(1, 1 + cont as int));
        assert(w.drop_first() =~= win(lines@, a + 1, b as int));
        assert(indent_run(w.drop_first()) == indent_run(win(lines@, a + 1, b as int)));
    }
    let sub = strip_indent_win(lines, a + 1, a + 1 + cont);
    proof {
        // termination for the sub-parse: the de-indented continuation is
        // strictly smaller than the window
        let subw = w.subrange(1, 1 + cont as int);
        lemma_strip_indent_all_size(subw);
        lemma_chars_sum_nonneg(strip_indent_all(subw));
        lemma_chars_sum_split(w, 1 + cont as int);
        lemma_chars_sum_nonneg(w.subrange(0, 1 + cont as int));
        lemma_chars_sum_nonneg(w.subrange(1 + cont as int, w.len() as int));
        lemma_chars_sum_split(w.subrange(0, 1 + cont as int), 1);
        assert(w.subrange(0, 1 + cont as int).subrange(1, 1 + cont as int) =~= subw);
        assert(w.subrange(0, 1 + cont as int).subrange(0, 1)[0] == w[0]);
        lemma_chars_sum_index(w.subrange(0, 1 + cont as int).subrange(0, 1), 0);
        lemma_chars_sum_nonneg(subw);
        assert(win(sub@, 0, sub@.len() as int) =~= lines_view(sub@));
        assert(lines_size(win(sub@, 0, sub@.len() as int)) < lines_size(w));
    }
    let ghost w0 = warn@;
    let inner = parse_blocks_win(&sub, 0, sub.len(), warn);
    let para = Block::Paragraph { content: parse_inline_chars(&content_c) };
    let ghost pav = block_view(para);
    let mut blocks = inner;
    let ghost iv = blocks@;
    blocks.insert(0, para);
    let item = ListItem { blocks };
    proof {
        assert(item.blocks@.drop_first() =~= iv);
        assert(item_view(item) == blocks_view(item.blocks@));
        assert(blocks_view(item.blocks@) == seq![block_view(item.blocks@[0])] + blocks_view(
            item.blocks@.drop_first(),
        ));
        // the remaining run is strictly smaller
        lemma_chars_sum_split(w, 1 + cont as int);
        lemma_chars_sum_nonneg(w.subrange(0, 1 + cont as int));
        lemma_chars_sum_split(w.subrange(0, 1 + cont as int), 1);
        assert(w.subrange(0, 1 + cont as int).subrange(0, 1)[0] == w[0]);
        lemma_chars_sum_index(w.subrange(0, 1 + cont as int).subrange(0, 1), 0);
        lemma_chars_sum_nonneg(w.subrange(0, 1 + cont as int).subrange(1, 1 + cont as int));
        lemma_chars_sum_nonneg(w.subrange(1 + cont as int, w.len() as int));
        assert(win(lines@, a + 1 + cont, b as int) =~= w.subrange(1 + cont as int, w.len() as int));
        assert(lines_size(win(lines@, a + 1 + cont, b as int)) < lines_size(w));
    }
    let ghost w1 = warn@;
    let rest = parse_items_win(lines, a + 1 + cont, b, warn);
    let ghost rv = rest@;
    let mut r = rest;
    r.insert(0, item);
    proof {
        assert(r@.drop_first() =~= rv);
        assert(items_view(r@) == seq![item_view(r@[0])] + items_view(r@.drop_first()));
        assert(items_view(r@) =~~= parse_items(w));
        lemma_warn_extends_trans(warn@, w1, w0);
    }
    r
}

/// The block scanner over a window of lines.
#[verifier::loop_isolation(false)]
pub fn parse_blocks_win(lines: &Vec<Vec<char>>, a: usize, b: usize, warn: &mut Vec<Warning>)
    -> (r: Vec<Block>)
    requires
        a <= b <= lines@.len(),
    ensures
        blocks_view(r@) == parse_blocks(win(lines@, a as int, b as int)),
        warn_extends(final(warn)@, old(warn)@),
    decreases lines_size(win(lines@, a as int, b as int)), 2int,
{
    proof {
        assert(warn@.subrange(0, warn@.len() as int) =~= warn@);
    }
    let ghost w = win(lines@, a as int, b as int);
    if a == b {
        let r: Vec<Block> = Vec::new();
        proof {
            assert(blocks_view(r@) =~= parse_blocks(w));
        }
        return r;
    }
    proof {
        assert(w[0] == lines@[a as int]@);
    }
    if line_is_blank(&lines[a]) {
        proof {
            lemma_chars_sum_nonneg(w);
            lemma_chars_sum_nonneg(w.drop_first());
            assert(win(lines@, a + 1, b as int) =~= w.drop_first());
            assert(chars_sum(w) == w[0].len() + chars_sum(w.drop_first()));
        }
        let r = parse_blocks_win(lines, a + 1, b, warn);
        proof {
            assert(blocks_view(r@) == parse_blocks(w));
        }
        return r;
    }
    let n = block_extent_win(lines, a, b);
    proof {
        lemma_chars_sum_split(w, n as int);
        lemma_chars_sum_nonneg(w.subrange(0, n as int));
        lemma_chars_sum_nonneg(w.subrange(n as int, w.len() as int));
        assert(w.subrange(0, n as int)[0] == w[0]);
        lemma_chars_sum_index(w.subrange(0, n as int), 0);
        assert(win(lines@, a as int, a + n) =~= w.subrange(0, n as int));
        assert(win(lines@, a + n, b as int) =~= w.subrange(n as int, w.len() as int));
        assert(lines_size(win(lines@, a as int, a + n)) <= lines_size(w));
        assert(lines_size(win(lines@, a + n, b as int)) < lines_size(w));
    }
    let ghost w0 = warn@;
    let bl = parse_one_win(lines, a, a + n, warn);
    let ghost w1 = warn@;
    let rest = parse_blocks_win(lines, a + n, b, warn);
    let ghost rv = rest@;
    let mut r = rest;
    r.insert(0, bl);
    proof {
        assert(r@.drop_first() =~= rv);
        assert(blocks_view(r@) == seq![block_view(r@[0])] + blocks_view(r@.drop_first()));
        assert(blocks_view(r@) =~~= parse_blocks(w));
        lemma_warn_extends_trans(warn@, w1, w0);
    }
    r
}

/// Splits text into lines at newlines, as the spec `split_nl` does.
#[verifier::loop_isolation(false)]
pub fn split_text(text: &Vec<char>) -> (r: Vec<Vec<char>>)
    ensures
        lines_view(r@) == split_nl(text@),
    decreases text@.len(),
{
    let j = find_char_at(text, 0, '\n');
    if j >= text.len() {
        let mut r: Vec<Vec<char>> = Vec::new();
        r.push(copy_line(text));
        proof {
            assert(lines_view(r@) =~~= split_nl(text@));
        }
        r
    } else {
        let head = sub_chars(text, 0, j);
        let rest_c = sub_chars(text, j + 1, text.len());
        let mut r = split_text(&rest_c);
        let ghost pre = r@;
        r.insert(0, head);
        proof {
            assert(r@.drop_first() =~= pre);
            assert(lines_view(r@) =~~= seq![text@.subrange(0, j as int)] + lines_view(pre));
            assert(lines_view(r@) =~~= split_nl(text@));
        }
        r
    }
}

/// Parses Markdown text into a document, with the repair warnings that the
/// table scanner produced; parsing never fails.
pub fn parse_markdown(text: &str) -> (r: (Doc, Vec<Warning>))
    ensures
        doc_view(r.0) == md_parse(text@),
{
    let tc = str_to_chars(text);
    let lines = split_text(&tc);
    let mut warn: Vec<Warning> = Vec::new();
    proof {
        assert(win(lines@, 0, lines@.len() as int) =~= lines_view(lines@));
    }
    let blocks = parse_blocks_win(&lines, 0, lines.len(), &mut warn);
    (Doc { blocks }, warn)
}

} // verus!
