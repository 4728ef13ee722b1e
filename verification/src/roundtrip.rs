//! The codec's round-trip law: parsing a serialized tree gives the tree
//! back, for every tree in the codec's canonical grammar.  The canonical
//! form `wf_inline` pins down exactly the inline trees the scanner itself
//! produces: maximal plain-text runs without delimiter characters, and
//! styled spans wrapping one such run.
use vstd::prelude::*;
use crate::ir::{BlockV, SpanV};
use crate::mdspec::{render_span, render_spans, parse_inline, cons_char, text_of,
    ser_block, ser_blocks, ser_item,
    ser_bullet_items, ser_ordered_items, parse_blocks, parse_one, parse_items, block_extent,
    quote_run, bullet_run, ordered_run, pipe_run, indent_run, fence_close, fence_exact,
    strip_quote, strip_quote_all, strip_indent, strip_indent_all, bullet_rest, ordered_rest,
    row_cells, row_tail, render_row, sep_row, sep_tail, split_cells, square_row, square_rows,
    trim, quote_all, indent2_all, repeat_char, lang_chars, content_of, is_blank, is_fence_line,
    is_heading_line, is_hr_line, is_quote_line, is_bullet_line, is_ordered_line,
    is_indent_line, is_pipe_line, is_sep_line, is_image_line, is_para_line, heading_level_of,
    count_digits, lemma_quote_run_bounds, lemma_bullet_run_bounds,
    lemma_ordered_run_bounds, lemma_pipe_run_bounds, lemma_indent_run_bounds,
    lemma_fence_close_bounds, md_parse, md_render, join_nl, split_nl};
use crate::chars::{lemma_find_char_is, lemma_find_pair_is, lemma_count_leading_is,
    lemma_count_digits_is};

verus! {

/// A character that the inline scanner reads literally.
pub open spec fn plain_char(c: char) -> bool {
    c != '*' && c != '~' && c != '`' && c != '[' && c != ']' && c != '\n'
}

/// A canonical text run: nonempty, all literal characters.
pub open spec fn wf_text(t: Seq<char>) -> bool {
    t.len() > 0 && forall|i: int| 0 <= i < t.len() ==> plain_char(#[trigger] t[i])
}

/// A canonical styled-span body: one plain text run.
pub open spec fn wf_inner(inner: Seq<SpanV>) -> bool {
    inner.len() == 1 && inner[0] is Text && wf_text(text_of(inner[0]))
}

pub open spec fn wf_url(u: Seq<char>) -> bool {
    forall|i: int| 0 <= i < u.len() ==> #[trigger] u[i] != ')' && u[i] != '\n'
}

pub open spec fn wf_code_text(t: Seq<char>) -> bool {
    forall|i: int| 0 <= i < t.len() ==> #[trigger] t[i] != '`' && t[i] != '\n'
}

/// A canonical span.
pub open spec fn wf_span(s: SpanV) -> bool {
    match s {
        SpanV::Text { text } => wf_text(text),
        SpanV::Emphasis { inner } => wf_inner(inner),
        SpanV::Strong { inner } => wf_inner(inner),
        SpanV::Strike { inner } => wf_inner(inner),
        SpanV::InlineCode { text } => wf_code_text(text),
        SpanV::Link { inner, url } => wf_inner(inner) && wf_url(url),
        SpanV::LineBreak => false,
    }
}

/// A canonical inline sequence: canonical spans with maximal text runs
/// (no two texts side by side).
pub open spec fn wf_spans(spans: Seq<SpanV>) -> bool {
    (forall|i: int| 0 <= i < spans.len() ==> wf_span(#[trigger] spans[i])) && (forall|i: int|
        0 <= i < spans.len() - 1 ==> !(#[trigger] spans[i] is Text && spans[i + 1] is Text))
}

/// A nonempty canonical inline sequence, as headings and paragraphs hold.
pub open spec fn wf_inline(spans: Seq<SpanV>) -> bool {
    spans.len() > 0 && wf_spans(spans)
}

/// Scanning a literal run prepends it to the scan of what follows,
/// merging into a leading text span.
proof fn lemma_parse_literal(t: Seq<char>, r: Seq<char>)
    requires
        t.len() > 0,
        forall|i: int| 0 <= i < t.len() ==> plain_char(#[trigger] t[i]),
    ensures
        parse_inline(t + r) == cons_text(t, parse_inline(r)),
    decreases t.len(),
{
    let s = t + r;
    let ps = parse_inline(r);
    assert(s[0] == t[0]);
    assert(s.len() == t.len() + r.len());
    if t.len() == 1 {
        assert(s.drop_first() =~= r);
        assert(parse_inline(s) == cons_char(s[0], parse_inline(r)));
        if ps.len() > 0 && ps[0] is Text {
            assert(cons_char(s[0], ps)[0] == (SpanV::Text { text: seq![t[0]] + text_of(ps[0]) }));
            assert(seq![t[0]] + text_of(ps[0]) =~= t + text_of(ps[0]));
            assert(cons_char(s[0], ps) =~= cons_text(t, ps));
        } else {
            assert(seq![t[0]] =~= t);
            assert(cons_char(s[0], ps) =~= cons_text(t, ps));
        }
    } else {
        lemma_parse_literal(t.drop_first(), r);
        assert(s.drop_first() =~= t.drop_first() + r);
        assert(parse_inline(s) == cons_char(s[0], parse_inline(t.drop_first() + r)));
        let inner = cons_text(t.drop_first(), ps);
        assert(parse_inline(t.drop_first() + r) == inner);
        assert(inner[0] is Text);
        if ps.len() > 0 && ps[0] is Text {
            assert(text_of(inner[0]) == t.drop_first() + text_of(ps[0]));
            assert(inner.drop_first() =~= ps.drop_first());
            assert(seq![t[0]] + (t.drop_first() + text_of(ps[0])) =~= t + text_of(ps[0]));
            assert(cons_char(t[0], inner) =~= cons_text(t, ps));
        } else {
            assert(text_of(inner[0]) == t.drop_first());
            assert(inner.drop_first() =~= ps);
            assert(seq![t[0]] + t.drop_first() =~= t);
            assert(cons_char(t[0], inner) =~= cons_text(t, ps));
        }
    }
}

/// A literal run prepended to already-scanned spans.
pub open spec fn cons_text(t: Seq<char>, ps: Seq<SpanV>) -> Seq<SpanV> {
    if ps.len() > 0 && ps[0] is Text {
        seq![SpanV::Text { text: t + text_of(ps[0]) }] + ps.drop_first()
    } else {
        seq![SpanV::Text { text: t }] + ps
    }
}

/// A canonical literal run alone scans to one text span.
proof fn lemma_parse_text_alone(t: Seq<char>)
    requires
        t.len() > 0,
        forall|i: int| 0 <= i < t.len() ==> plain_char(#[trigger] t[i]),
    ensures
        parse_inline(t) == seq![SpanV::Text { text: t }],
{
    assert(t + Seq::<char>::empty() =~= t);
    lemma_parse_literal(t, Seq::empty());
    assert(parse_inline(Seq::<char>::empty()) =~= Seq::<SpanV>::empty());
    assert(cons_text(t, Seq::empty()) =~= seq![SpanV::Text { text: t }]);
}

/// Scanning one canonical span's rendering followed by the rendering of
/// the rest yields that span, then the rest.
proof fn lemma_parse_step(s0: SpanV, rest: Seq<SpanV>)
    requires
        wf_span(s0),
        parse_inline(render_spans(rest)) == rest,
        s0 is Text ==> !(rest.len() > 0 && rest[0] is Text),
    ensures
        parse_inline(render_span(s0) + render_spans(rest)) == seq![s0] + rest,
{
    let rr = render_spans(rest);
    let s = render_span(s0) + rr;
    match s0 {
        SpanV::Text { text } => {
            lemma_parse_literal(text, rr);
            assert(parse_inline(s) == cons_text(text, rest));
            assert(cons_text(text, rest) =~= seq![s0] + rest);
        },
        SpanV::Emphasis { inner } => {
            let u = text_of(inner[0]);
            assert(render_spans(inner) == render_span(inner[0]) + render_spans(
                inner.drop_first(),
            ));
            assert(inner.drop_first() =~= Seq::<SpanV>::empty());
            assert(render_spans(inner) =~= u);
            assert(s =~= seq!['*'] + u + seq!['*'] + rr);
            assert(s[0] == '*');
            assert(s[1] == u[0]);
            assert(s[1] != '*');
            assert forall|k: int| 1 <= k < 1 + u.len() implies s[k] != '*' by {
                assert(s[k] == u[k - 1]);
            }
            assert(s[1 + u.len() as int] == '*');
            lemma_find_char_is(s, 1, '*', 1 + u.len() as int);
            let j = 1 + u.len() as int;
            assert(s.subrange(1, j) =~= u);
            lemma_parse_text_alone(u);
            assert(parse_inline(s.subrange(1, j)) =~= inner);
            assert(s.subrange(j + 1, s.len() as int) =~= rr);
            assert(parse_inline(s) == seq![SpanV::Emphasis { inner: parse_inline(s.subrange(1, j)) }]
                + parse_inline(s.subrange(j + 1, s.len() as int)));
            assert(parse_inline(s) =~= seq![s0] + rest);
        },
        SpanV::Strong { inner } => {
            let u = text_of(inner[0]);
            assert(render_spans(inner) == render_span(inner[0]) + render_spans(
                inner.drop_first(),
            ));
            assert(inner.drop_first() =~= Seq::<SpanV>::empty());
            assert(render_spans(inner) =~= u);
            assert(s =~= seq!['*', '*'] + u + seq!['*', '*'] + rr);
            assert(s[0] == '*' && s[1] == '*');
            assert forall|k: int| 2 <= k < 2 + u.len() && k + 1 < s.len() implies !(
            #[trigger] s[k] == '*' && s[k + 1] == '*') by {
                assert(s[k] == u[k - 2]);
            }
            assert(s[2 + u.len() as int] == '*' && s[3 + u.len() as int] == '*');
            lemma_find_pair_is(s, 2, '*', 2 + u.len() as int);
            let j = 2 + u.len() as int;
            assert(s.subrange(2, j) =~= u);
            lemma_parse_text_alone(u);
            assert(parse_inline(s.subrange(2, j)) =~= inner);
            assert(s.subrange(j + 2, s.len() as int) =~= rr);
            assert(parse_inline(s) == seq![SpanV::Strong { inner: parse_inline(s.subrange(2, j)) }]
                + parse_inline(s.subrange(j + 2, s.len() as int)));
            assert(parse_inline(s) =~= seq![s0] + rest);
        },
        SpanV::Strike { inner } => {
            let u = text_of(inner[0]);
            assert(render_spans(inner) == render_span(inner[0]) + render_spans(
                inner.drop_first(),
            ));
            assert(inner.drop_first() =~= Seq::<SpanV>::empty());
            assert(render_spans(inner) =~= u);
            assert(s =~= seq!['~', '~'] + u + seq!['~', '~'] + rr);
            assert(s[0] == '~' && s[1] == '~');
            assert(s[0] != '*');
            assert forall|k: int| 2 <= k < 2 + u.len() && k + 1 < s.len() implies !(
            #[trigger] s[k] == '~' && s[k + 1] == '~') by {
                assert(s[k] == u[k - 2]);
            }
            assert(s[2 + u.len() as int] == '~' && s[3 + u.len() as int] == '~');
            lemma_find_pair_is(s, 2, '~', 2 + u.len() as int);
            let j = 2 + u.len() as int;
            assert(s.subrange(2, j) =~= u);
            lemma_parse_text_alone(u);
            assert(parse_inline(s.subrange(2, j)) =~= inner);
            assert(s.subrange(j + 2, s.len() as int) =~= rr);
            assert(parse_inline(s) == seq![SpanV::Strike { inner: parse_inline(s.subrange(2, j)) }]
                + parse_inline(s.subrange(j + 2, s.len() as int)));
            assert(parse_inline(s) =~= seq![s0] + rest);
        },
        SpanV::InlineCode { text } => {
            assert(s =~= seq!['`'] + text + seq!['`'] + rr);
            assert(s[0] == '`');
            assert(s[0] != '*' && s[0] != '~');
            assert forall|k: int| 1 <= k < 1 + text.len() implies s[k] != '`' by {
                assert(s[k] == text[k - 1]);
            }
            assert(s[1 + text.len() as int] == '`');
            lemma_find_char_is(s, 1, '`', 1 + text.len() as int);
            let j = 1 + text.len() as int;
            assert(s.subrange(1, j) =~= text);
            assert(s.subrange(j + 1, s.len() as int) =~= rr);
            assert(parse_inline(s) == seq![SpanV::InlineCode { text: s.subrange(1, j) }]
                + parse_inline(s.subrange(j + 1, s.len() as int)));
            assert(parse_inline(s) =~= seq![s0] + rest);
        },
        SpanV::Link { inner, url } => {
            let u = text_of(inner[0]);
            assert(render_spans(inner) == render_span(inner[0]) + render_spans(
                inner.drop_first(),
            ));
            assert(inner.drop_first() =~= Seq::<SpanV>::empty());
            assert(render_spans(inner) =~= u);
            assert(s =~= seq!['['] + u + seq![']', '('] + url + seq![')'] + rr);
            assert(s[0] == '[');
            assert(s[0] != '*' && s[0] != '~' && s[0] != '`');
            assert forall|k: int| 1 <= k < 1 + u.len() implies s[k] != ']' by {
                assert(s[k] == u[k - 1]);
            }
            assert(s[1 + u.len() as int] == ']');
            lemma_find_char_is(s, 1, ']', 1 + u.len() as int);
            let j = 1 + u.len() as int;
            assert(s[j + 1] == '(');
            assert forall|k: int| j + 2 <= k < j + 2 + url.len() implies s[k] != ')' by {
                assert(s[k] == url[k - (j + 2)]);
            }
            assert(s[j + 2 + url.len() as int] == ')');
            lemma_find_char_is(s, j + 2, ')', j + 2 + url.len() as int);
            let k = j + 2 + url.len() as int;
            assert(s.subrange(1, j) =~= u);
            lemma_parse_text_alone(u);
            assert(parse_inline(s.subrange(1, j)) =~= inner);
            assert(s.subrange(j + 2, k) =~= url);
            assert(s.subrange(k + 1, s.len() as int) =~= rr);
            assert(parse_inline(s) == seq![
                SpanV::Link {
                    inner: parse_inline(s.subrange(1, j)),
                    url: s.subrange(j + 2, k),
                },
            ] + parse_inline(s.subrange(k + 1, s.len() as int)));
            assert(parse_inline(s) =~= seq![s0] + rest);
        },
        SpanV::LineBreak => {
            assert(false);
        },
    }
}

/// The inline round trip: scanning the rendering of any canonical span
/// sequence gives the sequence back.
pub proof fn lemma_inline_round_trip(spans: Seq<SpanV>)
    requires
        wf_spans(spans),
    ensures
        parse_inline(render_spans(spans)) == spans,
    decreases spans.len(),
{
    if spans.len() == 0 {
        assert(render_spans(spans) =~= Seq::<char>::empty());
        assert(parse_inline(render_spans(spans)) =~= spans);
    } else {
        let rest = spans.drop_first();
        assert(wf_spans(rest)) by {
            assert(forall|i: int| 0 <= i < rest.len() ==> #[trigger] rest[i] == spans[i + 1]);
        }
        lemma_inline_round_trip(rest);
        assert(wf_span(spans[0]));
        if spans[0] is Text && rest.len() > 0 {
            assert(!(spans[0] is Text && spans[1] is Text));
            assert(rest[0] == spans[1]);
        }
        lemma_parse_step(spans[0], rest);
        assert(render_spans(spans) == render_span(spans[0]) + render_spans(rest));
        assert(parse_inline(render_spans(spans)) =~= spans);
    }
}

// ---------------------------------------------------------------------------
// block level
// ---------------------------------------------------------------------------

pub open spec fn wf_cell(c: Seq<char>) -> bool {
    (forall|i: int| 0 <= i < c.len() ==> #[trigger] c[i] != '|' && c[i] != '\n') && (c.len()
        == 0 || (c[0] != ' ' && c[c.len() - 1] != ' '))
}

pub open spec fn wf_cells(cells: Seq<Seq<char>>) -> bool {
    forall|i: int| 0 <= i < cells.len() ==> wf_cell(#[trigger] cells[i])
}

pub open spec fn wf_item(item: Seq<BlockV>) -> bool
    decreases item, 4int,
{
    item.len() > 0 && item[0] is Paragraph && wf_inline(content_of(item[0])) && wf_blocks(
        item.subrange(1, item.len() as int),
    )
}

pub open spec fn wf_items(items: Seq<Seq<BlockV>>) -> bool
    decreases items, 5int,
{
    forall|i: int| 0 <= i < items.len() ==> wf_item(#[trigger] items[i])
}

/// A canonical block: what the block scanner itself produces, stated
/// structurally.
pub open spec fn wf_block(b: BlockV) -> bool
    decreases b, 1int,
{
    match b {
        BlockV::Paragraph { content } => wf_inline(content) && is_para_line(render_spans(
            content,
        )),
        BlockV::Heading { level, content } => 1 <= level <= 6 && wf_inline(content),
        BlockV::HorizontalRule => true,
        BlockV::Image { alt, src } => (forall|i: int| 0 <= i < alt.len()
            ==> #[trigger] alt[i] != ']' && alt[i] != '\n') && (forall|i: int|
            0 <= i < src.len() ==> #[trigger] src[i] != ')' && src[i] != '\n'),
        BlockV::CodeBlock { lang, lines } => (match lang {
            Option::Some(l) => l.len() > 0 && forall|i: int| 0 <= i < l.len()
                ==> #[trigger] l[i] != '\n',
            Option::None => true,
        }) && (forall|i: int| 0 <= i < lines.len() ==> !(#[trigger] lines[i] =~= fence_exact())
            && forall|k: int| 0 <= k < lines[i].len() ==> lines[i][k] != '\n'),
        BlockV::Blockquote { blocks } => blocks.len() > 0 && wf_blocks(blocks),
        BlockV::BulletList { items } => items.len() > 0 && wf_items(items),
        BlockV::OrderedList { items } => items.len() > 0 && wf_items(items),
        BlockV::Table { header, rows } => header.len() > 0 && wf_cells(header) && (forall|
            i: int,
        | 0 <= i < rows.len() ==> #[trigger] rows[i].len() == header.len() && wf_cells(
            rows[i],
        )),
    }
}

pub open spec fn wf_blocks(blocks: Seq<BlockV>) -> bool
    decreases blocks, 2int,
{
    forall|i: int| 0 <= i < blocks.len() ==> wf_block(#[trigger] blocks[i])
}

proof fn lemma_ser_block_nonempty(b: BlockV)
    requires
        wf_block(b),
    ensures
        ser_block(b).len() >= 1,
    decreases b, 1int,
{
    match b {
        BlockV::Blockquote { blocks } => {
            lemma_ser_blocks_nonempty(blocks);
        },
        BlockV::BulletList { items } => {
            assert(ser_bullet_items(items).len() >= ser_item(seq!['-', ' '], items[0]).len());
        },
        BlockV::OrderedList { items } => {
            assert(ser_ordered_items(items).len() >= ser_item(seq!['1', '.', ' '],
                items[0]).len());
        },
        _ => {},
    }
}

proof fn lemma_ser_blocks_nonempty(blocks: Seq<BlockV>)
    requires
        blocks.len() > 0,
        wf_blocks(blocks),
    ensures
        ser_blocks(blocks).len() >= 1,
    decreases blocks, 2int,
{
    lemma_ser_block_nonempty(blocks[0]);
}

proof fn lemma_quote_run_is(lines: Seq<Seq<char>>, n: int)
    requires
        0 <= n <= lines.len(),
        forall|k: int| 0 <= k < n ==> is_quote_line(#[trigger] lines[k]),
        n == lines.len() || !is_quote_line(lines[n]),
    ensures
        quote_run(lines) == n,
{
    lemma_quote_run_bounds(lines);
}

proof fn lemma_bullet_run_is(lines: Seq<Seq<char>>, n: int)
    requires
        0 <= n <= lines.len(),
        forall|k: int| 0 <= k < n ==> is_bullet_line(#[trigger] lines[k]) || is_indent_line(
            lines[k],
        ),
        n == lines.len() || !(is_bullet_line(lines[n]) || is_indent_line(lines[n])),
    ensures
        bullet_run(lines) == n,
{
    lemma_bullet_run_bounds(lines);
}

proof fn lemma_ordered_run_is(lines: Seq<Seq<char>>, n: int)
    requires
        0 <= n <= lines.len(),
        forall|k: int| 0 <= k < n ==> is_ordered_line(#[trigger] lines[k]) || is_indent_line(
            lines[k],
        ),
        n == lines.len() || !(is_ordered_line(lines[n]) || is_indent_line(lines[n])),
    ensures
        ordered_run(lines) == n,
{
    lemma_ordered_run_bounds(lines);
}

proof fn lemma_pipe_run_is(lines: Seq<Seq<char>>, n: int)
    requires
        0 <= n <= lines.len(),
        forall|k: int| 0 <= k < n ==> is_pipe_line(#[trigger] lines[k]),
        n == lines.len() || !is_pipe_line(lines[n]),
    ensures
        pipe_run(lines) == n,
{
    lemma_pipe_run_bounds(lines);
}

proof fn lemma_indent_run_is(lines: Seq<Seq<char>>, n: int)
    requires
        0 <= n <= lines.len(),
        forall|k: int| 0 <= k < n ==> is_indent_line(#[trigger] lines[k]),
        n == lines.len() || !is_indent_line(lines[n]),
    ensures
        indent_run(lines) == n,
{
    lemma_indent_run_bounds(lines);
}

proof fn lemma_fence_close_is(lines: Seq<Seq<char>>, j: int)
    requires
        1 <= j <= lines.len(),
        forall|k: int| 1 <= k < j ==> !(#[trigger] lines[k] =~= fence_exact()),
        j == lines.len() || lines[j] =~= fence_exact(),
    ensures
        fence_close(lines, 1) == j,
{
    lemma_fence_close_bounds(lines, 1);
}

/// A heading marker line reads back its level and content.
proof fn lemma_heading_line(level: u8, body: Seq<char>)
    requires
        1 <= level <= 6,
    ensures
        ({
            let l = repeat_char('#', level as int) + seq![' '] + body;
            heading_level_of(l) == level && is_heading_line(l) && !is_blank(l)
                && !is_fence_line(l) && l.subrange(level + 1, l.len() as int) == body
        }),
{
    let l = repeat_char('#', level as int) + seq![' '] + body;
    assert forall|k: int| 0 <= k < level implies l[k] == '#' by {
        assert(l[k] == repeat_char('#', level as int)[k]);
    }
    assert(l[level as int] == ' ');
    lemma_count_leading_is(l, 0, '#', level as int);
    assert(l.subrange(level + 1, l.len() as int) =~= body);
    assert(l[0] == '#');
}

/// The trimmed, padded rendering of a canonical cell is the cell itself.
proof fn lemma_trim_cell(c: Seq<char>)
    requires
        wf_cell(c),
    ensures
        trim(seq![' '] + c + seq![' ']) == c,
{
    let s = seq![' '] + c + seq![' '];
    if c.len() == 0 {
        assert(s =~= seq![' ', ' ']);
        assert(s.reverse().len() == 2);
        assert(s[0] == ' ' && s[1] == ' ');
        assert(s.reverse()[0] == ' ' && s.reverse()[1] == ' ');
        lemma_count_leading_is(s, 0, ' ', 2);
        lemma_count_leading_is(s.reverse(), 0, ' ', 2);
        assert(trim(s) =~= c);
    } else {
        assert(s[0] == ' ');
        assert(s[1] == c[0]);
        assert(c[0] != ' ');
        lemma_count_leading_is(s, 0, ' ', 1);
        assert(s.reverse()[0] == s[s.len() - 1]);
        assert(s[s.len() - 1] == ' ');
        assert(s.reverse()[1] == s[s.len() - 2]);
        assert(s[s.len() - 2] == c[c.len() - 1]);
        lemma_count_leading_is(s.reverse(), 0, ' ', 1);
        assert(trim(s) =~= c);
    }
}

/// The tail of a rendered row ends in its closing pipe.
proof fn lemma_row_tail_last(cells: Seq<Seq<char>>)
    requires
        cells.len() > 0,
    ensures
        row_tail(cells).len() > 0,
        row_tail(cells)[row_tail(cells).len() - 1] == '|',
    decreases cells.len(),
{
    if cells.len() == 1 {
        assert(row_tail(cells.drop_first()) =~= Seq::<char>::empty());
    } else {
        lemma_row_tail_last(cells.drop_first());
    }
}

/// Splitting the body of a rendered row recovers the cells.
proof fn lemma_split_row_tail(cells: Seq<Seq<char>>)
    requires
        cells.len() > 0,
        wf_cells(cells),
    ensures
        split_cells(row_tail(cells).drop_last()).map(|i: int, c: Seq<char>| trim(c)) == cells,
    decreases cells.len(),
{
    let body = row_tail(cells).drop_last();
    let c0 = cells[0];
    if cells.len() == 1 {
        assert(row_tail(cells.drop_first()) =~= Seq::<char>::empty());
        assert(row_tail(cells) =~= seq![' '] + c0 + seq![' ', '|']);
        assert(body =~= seq![' '] + c0 + seq![' ']);
        assert forall|k: int| 0 <= k < body.len() implies body[k] != '|' by {
            if k == 0 || k == body.len() - 1 {
            } else {
                assert(body[k] == c0[k - 1]);
            }
        }
        lemma_find_char_is(body, 0, '|', body.len() as int);
        assert(split_cells(body) =~= seq![body]);
        lemma_trim_cell(c0);
        assert(split_cells(body).map(|i: int, c: Seq<char>| trim(c)) =~= cells);
    } else {
        lemma_split_row_tail(cells.drop_first());
        lemma_row_tail_last(cells.drop_first());
        let unit = seq![' '] + c0 + seq![' ', '|'];
        assert(row_tail(cells) == unit + row_tail(cells.drop_first()));
        assert(body =~= unit + row_tail(cells.drop_first()).drop_last());
        let piece = seq![' '] + c0 + seq![' '];
        assert forall|k: int| 0 <= k < piece.len() implies body[k] != '|' by {
            assert(body[k] == piece[k]);
            if k == 0 || k == piece.len() - 1 {
            } else {
                assert(piece[k] == c0[k - 1]);
            }
        }
        assert(body[piece.len() as int] == '|');
        lemma_find_char_is(body, 0, '|', piece.len() as int);
        assert(body.subrange(0, piece.len() as int) =~= piece);
        assert(body.subrange(piece.len() as int + 1, body.len() as int) =~= row_tail(
            cells.drop_first(),
        ).drop_last());
        assert(split_cells(body) == seq![piece] + split_cells(row_tail(
            cells.drop_first(),
        ).drop_last()));
        lemma_trim_cell(c0);
        let f = |i: int, c: Seq<char>| trim(c);
        let sub = split_cells(row_tail(cells.drop_first()).drop_last());
        assert forall|k: int| 0 <= k < split_cells(body).len() implies split_cells(body).map(
            f,
        )[k] == cells[k] by {
            assert(split_cells(body).map(f)[k] == trim(split_cells(body)[k]));
            if k == 0 {
                assert(split_cells(body)[0] == piece);
            } else {
                assert(split_cells(body)[k] == sub[k - 1]);
                assert(sub.map(f)[k - 1] == trim(sub[k - 1]));
                assert(sub.map(f)[k - 1] == cells.drop_first()[k - 1]);
            }
        }
        assert(split_cells(body).map(f) =~= cells);
    }
}

/// A rendered row reads back its cells.
proof fn lemma_row_cells_inverse(cells: Seq<Seq<char>>)
    requires
        cells.len() > 0,
        wf_cells(cells),
    ensures
        row_cells(render_row(cells)) == cells,
{
    let l = render_row(cells);
    assert(l[0] == '|');
    assert(l.drop_first() =~= row_tail(cells));
    lemma_row_tail_last(cells);
    assert(row_tail(cells)[row_tail(cells).len() - 1] == '|');
    lemma_split_row_tail(cells);
}

/// The separator line under a table header is a separator.
proof fn lemma_sep_row(n: int)
    requires
        n >= 1,
    ensures
        is_sep_line(sep_row(n)),
        sep_row(n)[0] == '|',
    decreases n,
{
    lemma_sep_chars(n);
    let l = sep_row(n);
    assert(l[0] == '|');
    assert(l[2] == sep_tail(n)[1]);
    assert(sep_tail(n)[1] == '-');
    assert(l.len() >= 2);
}

proof fn lemma_sep_chars(n: int)
    requires
        n >= 1,
    ensures
        sep_tail(n).len() == 6 * n,
        forall|i: int| 0 <= i < sep_tail(n).len() ==> (#[trigger] sep_tail(n)[i] == '|'
            || sep_tail(n)[i] == '-' || sep_tail(n)[i] == ' '),
        sep_tail(n)[1] == '-',
    decreases n,
{
    if n > 1 {
        lemma_sep_chars(n - 1);
        assert forall|i: int| 0 <= i < sep_tail(n).len() implies (#[trigger] sep_tail(n)[i]
            == '|' || sep_tail(n)[i] == '-' || sep_tail(n)[i] == ' ') by {
            if i >= 6 {
                assert(sep_tail(n)[i] == sep_tail(n - 1)[i - 6]);
            } else {
                assert(sep_tail(n)[i] == seq![' ', '-', '-', '-', ' ', '|'][i]);
            }
        }
    } else {
        assert(sep_tail(0) =~= Seq::<char>::empty());
        assert(sep_tail(1) =~= seq![' ', '-', '-', '-', ' ', '|']);
    }
}

/// Every canonical span renders to at least one character.
proof fn lemma_render_nonempty(spans: Seq<SpanV>)
    requires
        spans.len() > 0,
        wf_spans(spans),
    ensures
        render_spans(spans).len() > 0,
{
    assert(render_spans(spans) == render_span(spans[0]) + render_spans(spans.drop_first()));
    assert(wf_span(spans[0]));
    match spans[0] {
        SpanV::Text { text } => {},
        _ => {},
    }
}

/// Splitting a list-item run: the item's lines, then the remaining items'.
proof fn lemma_parse_items_cons(marker: Seq<char>, item: Seq<BlockV>, tail: Seq<Seq<char>>)
    requires
        wf_item(item),
        marker =~= seq!['-', ' '] || marker =~= seq!['1', '.', ' '],
        tail.len() == 0 || is_bullet_line(tail[0]) || is_ordered_line(tail[0]),
        parse_blocks(ser_blocks(item.subrange(1, item.len() as int))) == item.subrange(
            1,
            item.len() as int,
        ),
    ensures
        parse_items(ser_item(marker, item) + tail) == seq![item] + parse_items(tail),
        forall|k: int| 0 <= k < ser_item(marker, item).len() ==> (is_bullet_line(
            #[trigger] (ser_item(marker, item) + tail)[k]) || is_ordered_line((ser_item(
            marker,
            item,
        ) + tail)[k]) || is_indent_line((ser_item(marker, item) + tail)[k])),
        ser_item(marker, item).len() > 0,
{
    let content = content_of(item[0]);
    let body = render_spans(content);
    let rest_blocks = item.subrange(1, item.len() as int);
    assert(item.drop_first() =~= rest_blocks);
    let inner_lines = ser_blocks(rest_blocks);
    let head = marker + body;
    assert(item[0] is Paragraph);
    assert(ser_item(marker, item) == seq![head] + indent2_all(inner_lines));
    let si = ser_item(marker, item);
    let ls = si + tail;
    assert(ls[0] == head);
    lemma_render_nonempty(content);
    if marker =~= seq!['-', ' '] {
        assert(head[0] == '-' && head[1] == ' ');
        assert(is_bullet_line(head));
    } else {
        assert(head[0] == '1' && head[1] == '.' && head[2] == ' ');
        assert(crate::mdspec::is_digit(head[0]));
        assert(!crate::mdspec::is_digit(head[1]));
        lemma_count_digits_is(head, 0, 1);
        assert(count_digits(head, 0) == 1);
        assert(head.len() >= 4);
        assert(is_ordered_line(head));
        assert(!is_bullet_line(head));
    }
    // the continuation run is exactly the indented inner lines
    assert forall|k: int| 0 <= k < inner_lines.len() implies is_indent_line(
        #[trigger] ls.drop_first()[k]) by {
        assert(ls.drop_first()[k] == indent2_all(inner_lines)[k]);
        assert(indent2_all(inner_lines)[k] == seq![' ', ' '] + inner_lines[k]);
    }
    if tail.len() > 0 {
        assert(ls.drop_first()[inner_lines.len() as int] == tail[0]);
        assert(!is_indent_line(tail[0]));
    }
    lemma_indent_run_is(ls.drop_first(), inner_lines.len() as int);
    let cont = inner_lines.len() as int;
    assert(ls.subrange(1, 1 + cont) =~= indent2_all(inner_lines));
    assert forall|k: int| 0 <= k < inner_lines.len() implies strip_indent_all(ls.subrange(
        1,
        1 + cont,
    ))[k] == inner_lines[k] by {
        assert(strip_indent_all(ls.subrange(1, 1 + cont))[k] == strip_indent(indent2_all(
            inner_lines,
        )[k]));
        assert(indent2_all(inner_lines)[k] == seq![' ', ' '] + inner_lines[k]);
        assert(is_indent_line(indent2_all(inner_lines)[k]));
        assert((seq![' ', ' '] + inner_lines[k]).subrange(2, (seq![' ', ' ']
            + inner_lines[k]).len() as int) =~= inner_lines[k]);
    }
    assert(strip_indent_all(ls.subrange(1, 1 + cont)) =~= inner_lines);
    // the head line parses back to the item's leading paragraph
    if marker =~= seq!['-', ' '] {
        assert(bullet_rest(head) =~= body);
    } else {
        assert(ordered_rest(head) =~= body);
    }
    lemma_inline_round_trip(content);
    assert(item[0] == (BlockV::Paragraph { content: content_of(item[0]) }));
    assert(ls.subrange(1 + cont, ls.len() as int) =~= tail);
    let pc = if is_bullet_line(head) {
        bullet_rest(head)
    } else {
        ordered_rest(head)
    };
    assert(pc == body);
    assert(parse_blocks(strip_indent_all(ls.subrange(1, 1 + cont))) == rest_blocks);
    let item_p = seq![BlockV::Paragraph { content: parse_inline(pc) }] + parse_blocks(
        strip_indent_all(ls.subrange(1, 1 + cont)),
    );
    assert(item_p[0] == item[0]);
    assert(item_p =~= item);
    assert(parse_items(ls) == seq![item_p] + parse_items(ls.subrange(1 + cont,
        ls.len() as int)));
    assert(parse_items(ls) =~= seq![item] + parse_items(tail));
    assert forall|k: int| 0 <= k < si.len() implies (is_bullet_line(#[trigger] ls[k])
        || is_ordered_line(ls[k]) || is_indent_line(ls[k])) by {
        if k > 0 {
            assert(ls[k] == ls.drop_first()[k - 1]);
            assert(is_indent_line(ls.drop_first()[k - 1]));
        }
    }
}

/// A bullet-item run parses back to its items, and every line in it is a
/// marker or continuation line.
proof fn lemma_bullet_items_rt(items: Seq<Seq<BlockV>>)
    requires
        wf_items(items),
    ensures
        parse_items(ser_bullet_items(items)) == items,
        forall|k: int| 0 <= k < ser_bullet_items(items).len() ==> (is_bullet_line(
            #[trigger] ser_bullet_items(items)[k]) || is_indent_line(ser_bullet_items(
            items,
        )[k])),
        items.len() > 0 ==> ser_bullet_items(items).len() > 0 && is_bullet_line(
            ser_bullet_items(items)[0]),
    decreases items, 3int,
{
    if items.len() == 0 {
        assert(parse_items(ser_bullet_items(items)) =~= items);
    } else {
        let item = items[0];
        assert(wf_item(item));
        assert(decreases_to!(items => item));
        assert(decreases_to!(item => item.subrange(1, item.len() as int)));
        lemma_blocks_rt_ext(item.subrange(1, item.len() as int), Seq::empty());
        assert(ser_blocks(item.subrange(1, item.len() as int)) + Seq::<Seq<char>>::empty()
            =~= ser_blocks(item.subrange(1, item.len() as int)));
        assert(parse_blocks(Seq::<Seq<char>>::empty()) =~= Seq::<BlockV>::empty());
        assert(item.subrange(1, item.len() as int) + Seq::<BlockV>::empty() =~= item.subrange(
            1,
            item.len() as int,
        ));
        lemma_bullet_items_rt(items.drop_first());
        let tail = ser_bullet_items(items.drop_first());
        if items.drop_first().len() > 0 {
            assert(is_bullet_line(tail[0]));
        }
        let marker = seq!['-', ' '];
        assert(marker =~= seq!['-', ' ']);
        lemma_parse_items_cons(marker, item, tail);
        assert(ser_bullet_items(items) == ser_item(marker, item) + tail);
        assert(parse_items(ser_bullet_items(items)) =~= items);
        let si = ser_item(marker, item);
        assert forall|k: int| 0 <= k < ser_bullet_items(items).len() implies (is_bullet_line(
            #[trigger] ser_bullet_items(items)[k]) || is_indent_line(ser_bullet_items(
            items,
        )[k])) by {
            if k < si.len() {
                assert((si + tail)[k] == ser_bullet_items(items)[k]);
                assert(is_bullet_line((si + tail)[k]) || is_ordered_line((si + tail)[k])
                    || is_indent_line((si + tail)[k]));
                if is_ordered_line((si + tail)[k]) && !is_indent_line((si + tail)[k]) {
                    // a bullet-marker head line is never digit-led
                    assert(k == 0 || is_indent_line((si + tail)[k]));
                    assert(is_bullet_line((si + tail)[0]));
                    assert(false);
                }
            } else {
                assert(ser_bullet_items(items)[k] == tail[k - si.len()]);
            }
        }
        assert(is_bullet_line(ser_bullet_items(items)[0]));
    }
}

/// An ordered-item run parses back to its items.
proof fn lemma_ordered_items_rt(items: Seq<Seq<BlockV>>)
    requires
        wf_items(items),
    ensures
        parse_items(ser_ordered_items(items)) == items,
        forall|k: int| 0 <= k < ser_ordered_items(items).len() ==> (is_ordered_line(
            #[trigger] ser_ordered_items(items)[k]) || is_indent_line(ser_ordered_items(
            items,
        )[k])),
        items.len() > 0 ==> ser_ordered_items(items).len() > 0 && is_ordered_line(
            ser_ordered_items(items)[0]) && !is_bullet_line(ser_ordered_items(items)[0]),
    decreases items, 3int,
{
    if items.len() == 0 {
        assert(parse_items(ser_ordered_items(items)) =~= items);
    } else {
        let item = items[0];
        assert(wf_item(item));
        assert(decreases_to!(items => item));
        assert(decreases_to!(item => item.subrange(1, item.len() as int)));
        lemma_blocks_rt_ext(item.subrange(1, item.len() as int), Seq::empty());
        assert(ser_blocks(item.subrange(1, item.len() as int)) + Seq::<Seq<char>>::empty()
            =~= ser_blocks(item.subrange(1, item.len() as int)));
        assert(parse_blocks(Seq::<Seq<char>>::empty()) =~= Seq::<BlockV>::empty());
        assert(item.subrange(1, item.len() as int) + Seq::<BlockV>::empty() =~= item.subrange(
            1,
            item.len() as int,
        ));
        lemma_ordered_items_rt(items.drop_first());
        let tail = ser_ordered_items(items.drop_first());
        if items.drop_first().len() > 0 {
            assert(is_ordered_line(tail[0]));
        }
        let marker = seq!['1', '.', ' '];
        assert(marker =~= seq!['1', '.', ' ']);
        lemma_parse_items_cons(marker, item, tail);
        assert(ser_ordered_items(items) == ser_item(marker, item) + tail);
        assert(parse_items(ser_ordered_items(items)) =~= items);
        let si = ser_item(marker, item);
        assert forall|k: int| 0 <= k < ser_ordered_items(items).len() implies (is_ordered_line(
            #[trigger] ser_ordered_items(items)[k]) || is_indent_line(ser_ordered_items(
            items,
        )[k])) by {
            if k < si.len() {
                assert((si + tail)[k] == ser_ordered_items(items)[k]);
                assert(is_bullet_line((si + tail)[k]) || is_ordered_line((si + tail)[k])
                    || is_indent_line((si + tail)[k]));
                if is_bullet_line((si + tail)[k]) && !is_indent_line((si + tail)[k]) {
                    assert(k == 0 || is_indent_line((si + tail)[k]));
                    assert(is_ordered_line((si + tail)[0]) && !is_bullet_line((si + tail)[0]));
                    assert(false);
                }
            } else {
                assert(ser_ordered_items(items)[k] == tail[k - si.len()]);
            }
        }
        assert(is_ordered_line(ser_ordered_items(items)[0]));
        assert(!is_bullet_line(ser_ordered_items(items)[0]));
    }
}

/// Scanning one canonical block's lines followed by a rest that starts
/// with an empty line yields that block, then the scan of the rest.
proof fn lemma_block_consume(b: BlockV, rest: Seq<Seq<char>>)
    requires
        wf_block(b),
        rest.len() == 0 || rest[0].len() == 0,
    ensures
        parse_blocks(ser_block(b) + rest) == seq![b] + parse_blocks(rest),
    decreases b, 1int,
{
    let sb = ser_block(b);
    let ls = sb + rest;
    let n = sb.len() as int;
    lemma_ser_block_nonempty(b);
    assert(ls.subrange(n, ls.len() as int) =~= rest);
    if rest.len() > 0 {
        assert(ls[n] == rest[0]);
    }
    match b {
        BlockV::Paragraph { content } => {
            let line = render_spans(content);
            assert(sb == seq![line]);
            assert(ls[0] == line);
            assert(is_para_line(line));
            assert(!is_blank(line));
            assert(block_extent(ls) == 1);
            assert(ls.subrange(0, 1) =~= seq![line]);
            lemma_inline_round_trip(content);
            assert(parse_one(ls.subrange(0, 1)) =~~= b);
            assert(parse_blocks(ls) =~= seq![b] + parse_blocks(rest));
        },
        BlockV::Heading { level, content } => {
            let body = render_spans(content);
            let line = repeat_char('#', level as int) + seq![' '] + body;
            assert(sb == seq![line]);
            assert(ls[0] == line);
            lemma_heading_line(level, body);
            assert(line[0] == '#');
            assert(!is_blank(line));
            assert(!is_hr_line(line));
            assert(!is_image_line(line)) by {
                if is_image_line(line) {
                    assert(line[0] == '!');
                }
            }
            assert(block_extent(ls) == 1);
            assert(ls.subrange(0, 1) =~= seq![line]);
            lemma_inline_round_trip(content);
            assert(line.subrange(heading_level_of(line) + 1, line.len() as int) == body);
            assert(parse_one(ls.subrange(0, 1)) =~~= b);
            assert(parse_blocks(ls) =~= seq![b] + parse_blocks(rest));
        },
        BlockV::HorizontalRule => {
            let line = seq!['-', '-', '-'];
            assert(sb == seq![line]);
            assert(ls[0] == line);
            assert(line[0] == '-');
            assert(!is_blank(line));
            assert(!is_fence_line(line));
            assert(heading_level_of(line) == 0);
            assert(!is_heading_line(line));
            assert(is_hr_line(line));
            assert(block_extent(ls) == 1);
            assert(ls.subrange(0, 1) =~= seq![line]);
            assert(parse_one(ls.subrange(0, 1)) =~~= b);
            assert(parse_blocks(ls) =~= seq![b] + parse_blocks(rest));
        },
        BlockV::Image { alt, src } => {
            let line = seq!['!', '['] + alt + seq![']', '('] + src + seq![')'];
            assert(sb == seq![line]);
            assert(ls[0] == line);
            assert(line[0] == '!' && line[1] == '[');
            assert(!is_blank(line));
            assert(!is_fence_line(line));
            assert(heading_level_of(line) == 0);
            assert(!is_heading_line(line));
            assert(!is_hr_line(line));
            assert(!is_quote_line(line) && !is_bullet_line(line) && !is_indent_line(line)
                && !is_pipe_line(line));
            assert(count_digits(line, 0) == 0);
            assert(!is_ordered_line(line));
            assert forall|k: int| 2 <= k < 2 + alt.len() implies line[k] != ']' by {
                assert(line[k] == alt[k - 2]);
            }
            assert(line[2 + alt.len() as int] == ']');
            lemma_find_char_is(line, 2, ']', 2 + alt.len() as int);
            let j = 2 + alt.len() as int;
            assert(line[j + 1] == '(');
            assert forall|k: int| j + 2 <= k < j + 2 + src.len() implies line[k] != ')' by {
                assert(line[k] == src[k - (j + 2)]);
            }
            assert(line[j + 2 + src.len() as int] == ')');
            lemma_find_char_is(line, j + 2, ')', j + 2 + src.len() as int);
            assert(is_image_line(line));
            assert(block_extent(ls) == 1);
            assert(ls.subrange(0, 1) =~= seq![line]);
            assert(line.subrange(2, j) =~= alt);
            assert(line.subrange(j + 2, line.len() - 1) =~= src);
            assert(parse_one(ls.subrange(0, 1)) =~~= b);
            assert(parse_blocks(ls) =~= seq![b] + parse_blocks(rest));
        },
        BlockV::CodeBlock { lang, lines } => {
            let open = fence_exact() + lang_chars(lang);
            assert(sb == seq![open] + lines + seq![fence_exact()]);
            assert(n == lines.len() + 2);
            assert(ls[0] == open);
            assert(open[0] == '`' && open[1] == '`' && open[2] == '`');
            assert(is_fence_line(open));
            assert(!is_blank(open));
            assert forall|k: int| 1 <= k < 1 + lines.len() implies !(#[trigger] ls[k]
                =~= fence_exact()) by {
                assert(ls[k] == lines[k - 1]);
            }
            assert(ls[1 + lines.len() as int] == fence_exact());
            assert(ls[1 + lines.len() as int] =~= fence_exact());
            lemma_fence_close_is(ls, 1 + lines.len() as int);
            assert(block_extent(ls) == n);
            let sub = ls.subrange(0, n);
            assert(sub =~= sb);
            assert(sub[0] == open);
            assert(sub.len() >= 2);
            assert(sub[sub.len() - 1] == fence_exact());
            assert(sub[sub.len() - 1] =~= fence_exact());
            assert(sub.subrange(1, sub.len() - 1) =~= lines);
            assert(open.subrange(3, open.len() as int) =~= lang_chars(lang));
            match lang {
                Option::Some(l) => {
                    assert(lang_chars(lang).len() > 0);
                },
                Option::None => {
                    assert(lang_chars(lang).len() == 0);
                },
            }
            assert(parse_one(sub) =~~= b);
            assert(parse_blocks(ls) =~= seq![b] + parse_blocks(rest));
        },
        BlockV::Blockquote { blocks } => {
            assert(decreases_to!(b => blocks));
            lemma_ser_blocks_nonempty(blocks);
            let inner = ser_blocks(blocks);
            assert(sb == quote_all(inner));
            assert(n == inner.len());
            assert forall|k: int| 0 <= k < n implies is_quote_line(#[trigger] ls[k]) by {
                assert(ls[k] == quote_all(inner)[k]);
                assert(quote_all(inner)[k] == seq!['>', ' '] + inner[k]);
            }
            assert(ls[0][0] == '>');
            assert(!is_blank(ls[0]));
            assert(!is_fence_line(ls[0]));
            assert(heading_level_of(ls[0]) == 0);
            assert(!is_heading_line(ls[0]));
            assert(!is_hr_line(ls[0]));
            assert(!is_image_line(ls[0])) by {
                if is_image_line(ls[0]) {
                    assert(ls[0][0] == '!');
                }
            }
            if rest.len() > 0 {
                assert(!is_quote_line(rest[0]));
            }
            lemma_quote_run_is(ls, n);
            assert(block_extent(ls) == n);
            let sub = ls.subrange(0, n);
            assert(sub =~= quote_all(inner));
            assert forall|k: int| 0 <= k < n implies strip_quote_all(sub)[k] == inner[k] by {
                assert(strip_quote_all(sub)[k] == strip_quote(quote_all(inner)[k]));
                assert(quote_all(inner)[k] == seq!['>', ' '] + inner[k]);
                assert((seq!['>', ' '] + inner[k]).subrange(2, (seq!['>', ' ']
                    + inner[k]).len() as int) =~= inner[k]);
            }
            assert(strip_quote_all(sub) =~= inner);
            lemma_blocks_rt_ext(blocks, Seq::empty());
            assert(ser_blocks(blocks) + Seq::<Seq<char>>::empty() =~= inner);
            assert(parse_blocks(Seq::<Seq<char>>::empty()) =~= Seq::<BlockV>::empty());
            assert(blocks + Seq::<BlockV>::empty() =~= blocks);
            assert(parse_one(sub) =~~= b);
            assert(parse_blocks(ls) =~= seq![b] + parse_blocks(rest));
        },
        BlockV::BulletList { items } => {
            assert(decreases_to!(b => items));
            lemma_bullet_items_rt(items);
            assert(sb == ser_bullet_items(items));
            assert(is_bullet_line(sb[0]));
            assert(ls[0] == sb[0]);
            assert(ls[0][0] == '-' || ls[0][0] == '*');
            assert(ls[0][1] == ' ');
            assert(!is_blank(ls[0]));
            assert(!is_fence_line(ls[0]));
            assert(heading_level_of(ls[0]) == 0);
            assert(!is_heading_line(ls[0]));
            assert(!is_hr_line(ls[0])) by {
                if ls[0] =~= seq!['-', '-', '-'] {
                    assert(ls[0][1] == '-');
                }
                if ls[0] =~= seq!['*', '*', '*'] {
                    assert(ls[0][1] == '*');
                }
            }
            assert(!is_image_line(ls[0])) by {
                if is_image_line(ls[0]) {
                    assert(ls[0][0] == '!');
                }
            }
            assert(!is_quote_line(ls[0]));
            assert forall|k: int| 0 <= k < n implies (is_bullet_line(#[trigger] ls[k])
                || is_indent_line(ls[k])) by {
                assert(ls[k] == sb[k]);
            }
            if rest.len() > 0 {
                assert(!(is_bullet_line(rest[0]) || is_indent_line(rest[0])));
            }
            lemma_bullet_run_is(ls, n);
            assert(block_extent(ls) == n);
            let sub = ls.subrange(0, n);
            assert(sub =~= sb);
            assert(parse_one(sub) =~~= b);
            assert(parse_blocks(ls) =~= seq![b] + parse_blocks(rest));
        },
        BlockV::OrderedList { items } => {
            assert(decreases_to!(b => items));
            lemma_ordered_items_rt(items);
            assert(sb == ser_ordered_items(items));
            assert(is_ordered_line(sb[0]));
            assert(!is_bullet_line(sb[0]));
            assert(ls[0] == sb[0]);
            let k0 = count_digits(ls[0], 0);
            assert(crate::mdspec::is_digit(ls[0][0]));
            assert(!is_blank(ls[0]));
            assert(!is_fence_line(ls[0]));
            assert(heading_level_of(ls[0]) == 0);
            assert(!is_heading_line(ls[0]));
            assert(!is_hr_line(ls[0])) by {
                if ls[0] =~= seq!['-', '-', '-'] {
                    assert(ls[0][0] == '-');
                }
                if ls[0] =~= seq!['*', '*', '*'] {
                    assert(ls[0][0] == '*');
                }
            }
            assert(!is_image_line(ls[0])) by {
                if is_image_line(ls[0]) {
                    assert(ls[0][0] == '!');
                }
            }
            assert(!is_quote_line(ls[0]) && !is_indent_line(ls[0]) && !is_pipe_line(ls[0]));
            assert forall|k: int| 0 <= k < n implies (is_ordered_line(#[trigger] ls[k])
                || is_indent_line(ls[k])) by {
                assert(ls[k] == sb[k]);
            }
            if rest.len() > 0 {
                assert(!(is_ordered_line(rest[0]) || is_indent_line(rest[0])));
            }
            lemma_ordered_run_is(ls, n);
            assert(block_extent(ls) == n);
            let sub = ls.subrange(0, n);
            assert(sub =~= sb);
            assert(parse_one(sub) =~~= b);
            assert(parse_blocks(ls) =~= seq![b] + parse_blocks(rest));
        },
        BlockV::Table { header, rows } => {
            let w = header.len() as int;
            let rmap = rows.map(|q: int, rr: Seq<Seq<char>>| render_row(rr));
            assert(sb == seq![render_row(header), sep_row(w)] + rmap);
            assert(n == 2 + rows.len());
            assert(ls[0] == render_row(header));
            assert(ls[0][0] == '|');
            assert(!is_blank(ls[0]));
            assert(!is_fence_line(ls[0]));
            assert(heading_level_of(ls[0]) == 0);
            assert(!is_heading_line(ls[0]));
            assert(!is_hr_line(ls[0])) by {
                if ls[0] =~= seq!['-', '-', '-'] {
                    assert(ls[0][0] == '-');
                }
                if ls[0] =~= seq!['*', '*', '*'] {
                    assert(ls[0][0] == '*');
                }
            }
            assert(!is_image_line(ls[0])) by {
                if is_image_line(ls[0]) {
                    assert(ls[0][0] == '!');
                }
            }
            assert(count_digits(ls[0], 0) == 0);
            assert(!is_quote_line(ls[0]) && !is_bullet_line(ls[0]) && !is_ordered_line(ls[0])
                && !is_indent_line(ls[0]));
            assert(is_pipe_line(ls[0]));
            lemma_sep_row(w);
            assert(ls[1] == sep_row(w));
            assert(is_sep_line(ls[1]));
            assert forall|k: int| 0 <= k < n implies is_pipe_line(#[trigger] ls[k]) by {
                if k >= 2 {
                    assert(ls[k] == rmap[k - 2]);
                    assert(rmap[k - 2] == render_row(rows[k - 2]));
                }
            }
            if rest.len() > 0 {
                assert(!is_pipe_line(rest[0]));
            }
            lemma_pipe_run_is(ls, n);
            assert(block_extent(ls) == n);
            let sub = ls.subrange(0, n);
            assert(sub[0] == ls[0]);
            assert(sub[1] == ls[1]);
            lemma_row_cells_inverse(header);
            let raw = sub.subrange(2, n).map(|q: int, rr: Seq<char>| row_cells(rr));
            assert forall|k: int| 0 <= k < rows.len() implies raw[k] == rows[k] by {
                assert(sub.subrange(2, n)[k] == ls[k + 2]);
                assert(ls[k + 2] == rmap[k]);
                assert(rmap[k] == render_row(rows[k]));
                assert(raw[k] == row_cells(render_row(rows[k])));
                lemma_row_cells_inverse(rows[k]);
            }
            assert(raw =~= rows);
            assert forall|k: int| 0 <= k < rows.len() implies square_rows(w, raw)[k]
                == rows[k] by {
                assert(square_rows(w, raw)[k] == square_row(w, raw[k]));
                assert(raw[k] == rows[k]);
                assert(rows[k].len() == w);
                assert(rows[k].subrange(0, w) =~= rows[k]);
            }
            assert(square_rows(w, raw) =~= rows);
            assert(parse_one(sub) =~~= b);
            assert(parse_blocks(ls) =~= seq![b] + parse_blocks(rest));
        },
    }
}

/// The block round trip, generalized over a trailing remainder that starts
/// with an empty line.
pub proof fn lemma_blocks_rt_ext(blocks: Seq<BlockV>, rest: Seq<Seq<char>>)
    requires
        wf_blocks(blocks),
        rest.len() == 0 || rest[0].len() == 0,
    ensures
        parse_blocks(ser_blocks(blocks) + rest) == blocks + parse_blocks(rest),
    decreases blocks, 2int,
{
    if blocks.len() == 0 {
        assert(ser_blocks(blocks) + rest =~= rest);
        assert(blocks + parse_blocks(rest) =~= parse_blocks(rest));
    } else if blocks.len() == 1 {
        assert(wf_block(blocks[0]));
        assert(decreases_to!(blocks => blocks[0]));
        lemma_block_consume(blocks[0], rest);
        assert(ser_blocks(blocks) == ser_block(blocks[0]));
        assert(blocks + parse_blocks(rest) =~= seq![blocks[0]] + parse_blocks(rest));
    } else {
        assert(wf_block(blocks[0]));
        assert(decreases_to!(blocks => blocks[0]));
        let mid = seq![Seq::<char>::empty()] + ser_blocks(blocks.drop_first()) + rest;
        assert(mid[0].len() == 0);
        lemma_block_consume(blocks[0], mid);
        assert(ser_blocks(blocks) + rest =~= ser_block(blocks[0]) + mid);
        assert(is_blank(mid[0]));
        assert(mid.len() > 0);
        assert(mid.drop_first() =~= ser_blocks(blocks.drop_first()) + rest);
        assert(parse_blocks(mid) == parse_blocks(ser_blocks(blocks.drop_first()) + rest));
        assert(wf_blocks(blocks.drop_first())) by {
            assert(forall|i: int| 0 <= i < blocks.drop_first().len()
                ==> #[trigger] blocks.drop_first()[i] == blocks[i + 1]);
        }
        lemma_blocks_rt_ext(blocks.drop_first(), rest);
        assert(blocks + parse_blocks(rest) =~= seq![blocks[0]] + (blocks.drop_first()
            + parse_blocks(rest)));
    }
}

/// No canonical inline rendering holds a newline, so joining and
/// splitting the text around lines is faithful.
#[verifier::rlimit(50)]
proof fn lemma_render_spans_no_nl(spans: Seq<SpanV>)
    requires
        wf_spans(spans),
    ensures
        forall|k: int| 0 <= k < render_spans(spans).len() ==> #[trigger] render_spans(
            spans,
        )[k] != '\n',
    decreases spans,
{
    if spans.len() > 0 {
        assert(wf_spans(spans.drop_first())) by {
            assert(forall|i: int| 0 <= i < spans.drop_first().len()
                ==> #[trigger] spans.drop_first()[i] == spans[i + 1]);
        }
        lemma_render_spans_no_nl(spans.drop_first());
        assert(wf_span(spans[0]));
        let h = render_span(spans[0]);
        assert forall|k: int| 0 <= k < h.len() implies #[trigger] h[k] != '\n' by {
            match spans[0] {
                SpanV::Text { text } => {
                    assert(h[k] == text[k]);
                },
                SpanV::Emphasis { inner } => {
                    let u = text_of(inner[0]);
                    assert(render_spans(inner) == render_span(inner[0]) + render_spans(
                        inner.drop_first(),
                    ));
                    assert(inner.drop_first() =~= Seq::<SpanV>::empty());
                    assert(render_spans(Seq::<SpanV>::empty()) =~= Seq::<char>::empty());
                    assert(render_spans(inner) =~= u);
                    assert(h =~= seq!['*'] + u + seq!['*']);
                    if 1 <= k < 1 + u.len() {
                        assert(h[k] == u[k - 1]);
                    }
                },
                SpanV::Strong { inner } => {
                    let u = text_of(inner[0]);
                    assert(render_spans(inner) == render_span(inner[0]) + render_spans(
                        inner.drop_first(),
                    ));
                    assert(inner.drop_first() =~= Seq::<SpanV>::empty());
                    assert(render_spans(Seq::<SpanV>::empty()) =~= Seq::<char>::empty());
                    assert(render_spans(inner) =~= u);
                    assert(h =~= seq!['*', '*'] + u + seq!['*', '*']);
                    if 2 <= k < 2 + u.len() {
                        assert(h[k] == u[k - 2]);
                    }
                },
                SpanV::Strike { inner } => {
                    let u = text_of(inner[0]);
                    assert(render_spans(inner) == render_span(inner[0]) + render_spans(
                        inner.drop_first(),
                    ));
                    assert(inner.drop_first() =~= Seq::<SpanV>::empty());
                    assert(render_spans(Seq::<SpanV>::empty()) =~= Seq::<char>::empty());
                    assert(render_spans(inner) =~= u);
                    assert(h =~= seq!['~', '~'] + u + seq!['~', '~']);
                    if 2 <= k < 2 + u.len() {
                        assert(h[k] == u[k - 2]);
                    }
                },
                SpanV::InlineCode { text } => {
                    assert(h =~= seq!['`'] + text + seq!['`']);
                    if 1 <= k < 1 + text.len() {
                        assert(h[k] == text[k - 1]);
                    }
                },
                SpanV::Link { inner, url } => {
                    let u = text_of(inner[0]);
                    assert(render_spans(inner) == render_span(inner[0]) + render_spans(
                        inner.drop_first(),
                    ));
                    assert(inner.drop_first() =~= Seq::<SpanV>::empty());
                    assert(render_spans(Seq::<SpanV>::empty()) =~= Seq::<char>::empty());
                    assert(render_spans(inner) =~= u);
                    assert(h =~= seq!['['] + u + seq![']', '('] + url + seq![')']);
                    if 1 <= k < 1 + u.len() {
                        assert(h[k] == u[k - 1]);
                    } else if 3 + u.len() <= k < 3 + u.len() + url.len() {
                        assert(h[k] == url[k - 3 - u.len()]);
                    }
                },
                SpanV::LineBreak => {},
            }
        }
        assert(render_spans(spans) == h + render_spans(spans.drop_first()));
        assert forall|k: int| 0 <= k < render_spans(spans).len() implies
            #[trigger] render_spans(spans)[k] != '\n' by {
            if k < h.len() {
                assert(render_spans(spans)[k] == h[k]);
            } else {
                assert(render_spans(spans)[k] == render_spans(spans.drop_first())[k
                    - h.len()]);
            }
        }
    }
}

/// No line a canonical block renders to holds a newline.
proof fn lemma_ser_block_no_nl(b: BlockV)
    requires
        wf_block(b),
    ensures
        forall|i: int, k: int| 0 <= i < ser_block(b).len() && 0 <= k < ser_block(b)[i].len()
            ==> #[trigger] ser_block(b)[i][k] != '\n',
    decreases b, 1int,
{
    let sb = ser_block(b);
    match b {
        BlockV::Paragraph { content } => {
            lemma_render_spans_no_nl(content);
            assert forall|i: int, k: int| 0 <= i < sb.len() && 0 <= k < sb[i].len() implies
                #[trigger] sb[i][k] != '\n' by {
                assert(sb[i] == render_spans(content));
            }
        },
        BlockV::Heading { level, content } => {
            lemma_render_spans_no_nl(content);
            let body = render_spans(content);
            let line = repeat_char('#', level as int) + seq![' '] + body;
            assert forall|i: int, k: int| 0 <= i < sb.len() && 0 <= k < sb[i].len() implies
                #[trigger] sb[i][k] != '\n' by {
                assert(sb[i] == line);
                if k < level {
                    assert(line[k] == repeat_char('#', level as int)[k]);
                } else if k > level {
                    assert(line[k] == body[k - level - 1]);
                }
            }
        },
        BlockV::HorizontalRule => {
            assert forall|i: int, k: int| 0 <= i < sb.len() && 0 <= k < sb[i].len() implies
                #[trigger] sb[i][k] != '\n' by {
                assert(sb[i] == seq!['-', '-', '-']);
            }
        },
        BlockV::Image { alt, src } => {
            let line = seq!['!', '['] + alt + seq![']', '('] + src + seq![')'];
            assert forall|i: int, k: int| 0 <= i < sb.len() && 0 <= k < sb[i].len() implies
                #[trigger] sb[i][k] != '\n' by {
                assert(sb[i] == line);
                if 2 <= k < 2 + alt.len() {
                    assert(line[k] == alt[k - 2]);
                } else if 4 + alt.len() <= k < 4 + alt.len() + src.len() {
                    assert(line[k] == src[k - 4 - alt.len()]);
                }
            }
        },
        BlockV::CodeBlock { lang, lines } => {
            let open = fence_exact() + lang_chars(lang);
            assert forall|i: int, k: int| 0 <= i < sb.len() && 0 <= k < sb[i].len() implies
                #[trigger] sb[i][k] != '\n' by {
                if i == 0 {
                    assert(sb[0] == open);
                    if k >= 3 {
                        assert(open[k] == lang_chars(lang)[k - 3]);
                        match lang {
                            Option::Some(l) => {
                                assert(lang_chars(lang)[k - 3] == l[k - 3]);
                            },
                            Option::None => {},
                        }
                    } else {
                        assert(open[k] == fence_exact()[k]);
                    }
                } else if i < 1 + lines.len() {
                    assert(sb[i] == lines[i - 1]);
                } else {
                    assert(sb[i] == fence_exact());
                }
            }
        },
        BlockV::Blockquote { blocks } => {
            lemma_ser_blocks_no_nl(blocks);
            let inner = ser_blocks(blocks);
            assert forall|i: int, k: int| 0 <= i < sb.len() && 0 <= k < sb[i].len() implies
                #[trigger] sb[i][k] != '\n' by {
                assert(sb[i] == seq!['>', ' '] + inner[i]);
                if k >= 2 {
                    assert(sb[i][k] == inner[i][k - 2]);
                }
            }
        },
        BlockV::BulletList { items } => {
            assert(decreases_to!(b => items));
            lemma_ser_bullet_items_no_nl(items);
            assert forall|i: int, k: int| 0 <= i < sb.len() && 0 <= k < sb[i].len() implies
                #[trigger] sb[i][k] != '\n' by {
                assert(sb[i] == ser_bullet_items(items)[i]);
                assert(ser_bullet_items(items)[i][k] != '\n');
            }
        },
        BlockV::OrderedList { items } => {
            assert(decreases_to!(b => items));
            lemma_ser_ordered_items_no_nl(items);
            assert forall|i: int, k: int| 0 <= i < sb.len() && 0 <= k < sb[i].len() implies
                #[trigger] sb[i][k] != '\n' by {
                assert(sb[i] == ser_ordered_items(items)[i]);
                assert(ser_ordered_items(items)[i][k] != '\n');
            }
        },
        BlockV::Table { header, rows } => {
            let w = header.len() as int;
            let rmap = rows.map(|q: int, rr: Seq<Seq<char>>| render_row(rr));
            assert forall|i: int, k: int| 0 <= i < sb.len() && 0 <= k < sb[i].len() implies
                #[trigger] sb[i][k] != '\n' by {
                if i == 0 {
                    assert(sb[0] == render_row(header));
                    lemma_row_no_nl(header);
                } else if i == 1 {
                    assert(sb[1] == sep_row(w));
                    lemma_sep_chars(w);
                    if k >= 1 {
                        assert(sep_row(w)[k] == sep_tail(w)[k - 1]);
                    }
                } else {
                    assert(sb[i] == rmap[i - 2]);
                    assert(rmap[i - 2] == render_row(rows[i - 2]));
                    lemma_row_no_nl(rows[i - 2]);
                }
            }
        },
    }
}

proof fn lemma_row_no_nl(cells: Seq<Seq<char>>)
    requires
        wf_cells(cells),
    ensures
        forall|k: int| 0 <= k < render_row(cells).len() ==> #[trigger] render_row(
            cells,
        )[k] != '\n',
    decreases cells.len(),
{
    lemma_row_tail_no_nl(cells);
    assert forall|k: int| 0 <= k < render_row(cells).len() implies #[trigger] render_row(
        cells,
    )[k] != '\n' by {
        if k >= 1 {
            assert(render_row(cells)[k] == row_tail(cells)[k - 1]);
        }
    }
}

proof fn lemma_row_tail_no_nl(cells: Seq<Seq<char>>)
    requires
        wf_cells(cells),
    ensures
        forall|k: int| 0 <= k < row_tail(cells).len() ==> #[trigger] row_tail(cells)[k] != '\n',
    decreases cells.len(),
{
    if cells.len() > 0 {
        assert(wf_cells(cells.drop_first())) by {
            assert(forall|i: int| 0 <= i < cells.drop_first().len()
                ==> #[trigger] cells.drop_first()[i] == cells[i + 1]);
        }
        lemma_row_tail_no_nl(cells.drop_first());
        let unit = seq![' '] + cells[0] + seq![' ', '|'];
        assert(row_tail(cells) == unit + row_tail(cells.drop_first()));
        assert forall|k: int| 0 <= k < row_tail(cells).len() implies #[trigger] row_tail(
            cells,
        )[k] != '\n' by {
            if k < unit.len() {
                assert(row_tail(cells)[k] == unit[k]);
                if 1 <= k < 1 + cells[0].len() {
                    assert(unit[k] == cells[0][k - 1]);
                }
            } else {
                assert(row_tail(cells)[k] == row_tail(cells.drop_first())[k - unit.len()]);
            }
        }
    }
}

proof fn lemma_ser_item_no_nl(marker: Seq<char>, item: Seq<BlockV>)
    requires
        wf_item(item),
        forall|k: int| 0 <= k < marker.len() ==> #[trigger] marker[k] != '\n',
    ensures
        forall|i: int, k: int| 0 <= i < ser_item(marker, item).len() && 0 <= k < ser_item(
            marker,
            item,
        )[i].len() ==> #[trigger] ser_item(marker, item)[i][k] != '\n',
    decreases item, 3int,
{
    let body = render_spans(content_of(item[0]));
    lemma_render_spans_no_nl(content_of(item[0]));
    assert(decreases_to!(item => item.subrange(1, item.len() as int)));
    lemma_ser_blocks_no_nl(item.subrange(1, item.len() as int));
    assert(item.drop_first() =~= item.subrange(1, item.len() as int));
    let inner = ser_blocks(item.subrange(1, item.len() as int));
    let si = ser_item(marker, item);
    assert(si == seq![marker + body] + indent2_all(inner));
    assert forall|i: int, k: int| 0 <= i < si.len() && 0 <= k < si[i].len() implies
        #[trigger] si[i][k] != '\n' by {
        if i == 0 {
            assert(si[0] == marker + body);
            if k >= marker.len() {
                assert(si[0][k] == body[k - marker.len()]);
            }
        } else {
            assert(si[i] == indent2_all(inner)[i - 1]);
            assert(indent2_all(inner)[i - 1] == seq![' ', ' '] + inner[i - 1]);
            if k >= 2 {
                assert(si[i][k] == inner[i - 1][k - 2]);
            }
        }
    }
}

proof fn lemma_ser_bullet_items_no_nl(items: Seq<Seq<BlockV>>)
    requires
        wf_items(items),
    ensures
        forall|i: int, k: int| 0 <= i < ser_bullet_items(items).len() && 0 <= k
            < ser_bullet_items(items)[i].len() ==> #[trigger] ser_bullet_items(
            items,
        )[i][k] != '\n',
    decreases items, 4int,
{
    if items.len() > 0 {
        assert(decreases_to!(items => items[0]));
        let marker = seq!['-', ' '];
        lemma_ser_item_no_nl(marker, items[0]);
        lemma_ser_bullet_items_no_nl(items.drop_first());
        let si = ser_item(marker, items[0]);
        let sa = ser_bullet_items(items);
        assert(sa == si + ser_bullet_items(items.drop_first()));
        assert forall|i: int, k: int| 0 <= i < sa.len() && 0 <= k < sa[i].len() implies
            #[trigger] sa[i][k] != '\n' by {
            if i < si.len() {
                assert(sa[i] == si[i]);
            } else {
                assert(sa[i] == ser_bullet_items(items.drop_first())[i - si.len()]);
            }
        }
    }
}

proof fn lemma_ser_ordered_items_no_nl(items: Seq<Seq<BlockV>>)
    requires
        wf_items(items),
    ensures
        forall|i: int, k: int| 0 <= i < ser_ordered_items(items).len() && 0 <= k
            < ser_ordered_items(items)[i].len() ==> #[trigger] ser_ordered_items(
            items,
        )[i][k] != '\n',
    decreases items, 4int,
{
    if items.len() > 0 {
        assert(decreases_to!(items => items[0]));
        let marker = seq!['1', '.', ' '];
        lemma_ser_item_no_nl(marker, items[0]);
        lemma_ser_ordered_items_no_nl(items.drop_first());
        let si = ser_item(marker, items[0]);
        let sa = ser_ordered_items(items);
        assert(sa == si + ser_ordered_items(items.drop_first()));
        assert forall|i: int, k: int| 0 <= i < sa.len() && 0 <= k < sa[i].len() implies
            #[trigger] sa[i][k] != '\n' by {
            if i < si.len() {
                assert(sa[i] == si[i]);
            } else {
                assert(sa[i] == ser_ordered_items(items.drop_first())[i - si.len()]);
            }
        }
    }
}

proof fn lemma_ser_blocks_no_nl(blocks: Seq<BlockV>)
    requires
        wf_blocks(blocks),
    ensures
        forall|i: int, k: int| 0 <= i < ser_blocks(blocks).len() && 0 <= k < ser_blocks(
            blocks,
        )[i].len() ==> #[trigger] ser_blocks(blocks)[i][k] != '\n',
    decreases blocks, 2int,
{
    if blocks.len() == 0 {
    } else if blocks.len() == 1 {
        assert(decreases_to!(blocks => blocks[0]));
        lemma_ser_block_no_nl(blocks[0]);
        assert(ser_blocks(blocks) == ser_block(blocks[0]));
    } else {
        assert(decreases_to!(blocks => blocks[0]));
        lemma_ser_block_no_nl(blocks[0]);
        assert(wf_blocks(blocks.drop_first())) by {
            assert(forall|i: int| 0 <= i < blocks.drop_first().len()
                ==> #[trigger] blocks.drop_first()[i] == blocks[i + 1]);
        }
        lemma_ser_blocks_no_nl(blocks.drop_first());
        let sb = ser_block(blocks[0]);
        let sa = ser_blocks(blocks);
        assert(sa == sb + seq![Seq::<char>::empty()] + ser_blocks(blocks.drop_first()));
        assert forall|i: int, k: int| 0 <= i < sa.len() && 0 <= k < sa[i].len() implies
            #[trigger] sa[i][k] != '\n' by {
            if i < sb.len() {
                assert(sa[i] == sb[i]);
            } else if i == sb.len() {
                assert(sa[i] =~= Seq::<char>::empty());
            } else {
                assert(sa[i] == ser_blocks(blocks.drop_first())[i - sb.len() - 1]);
            }
        }
    }
}

/// Splitting the joined lines gives the lines back, plus the empty final
/// segment after the last newline.
proof fn lemma_split_join(lines: Seq<Seq<char>>)
    requires
        forall|i: int, k: int| 0 <= i < lines.len() && 0 <= k < lines[i].len()
            ==> #[trigger] lines[i][k] != '\n',
    ensures
        split_nl(join_nl(lines)) == lines + seq![Seq::<char>::empty()],
    decreases lines.len(),
{
    let text = join_nl(lines);
    if lines.len() == 0 {
        assert(text =~= Seq::<char>::empty());
        lemma_find_char_is(text, 0, '\n', 0);
        assert(split_nl(text) == seq![text]);
        assert(split_nl(text) =~= lines + seq![Seq::<char>::empty()]);
    } else {
        let l0 = lines[0];
        assert(text == l0 + seq!['\n'] + join_nl(lines.drop_first()));
        assert forall|k: int| 0 <= k < l0.len() implies text[k] != '\n' by {
            assert(text[k] == l0[k]);
            assert(lines[0][k] != '\n');
        }
        assert(text[l0.len() as int] == '\n');
        lemma_find_char_is(text, 0, '\n', l0.len() as int);
        assert(text.subrange(0, l0.len() as int) =~= l0);
        assert(text.subrange(l0.len() as int + 1, text.len() as int) =~= join_nl(lines.drop_first()));
        assert(forall|i: int, k: int| 0 <= i < lines.drop_first().len() && 0 <= k
            < lines.drop_first()[i].len() ==> #[trigger] lines.drop_first()[i][k] != '\n')
            by {
            assert(forall|i: int| 0 <= i < lines.drop_first().len()
                ==> #[trigger] lines.drop_first()[i] == lines[i + 1]);
        }
        lemma_split_join(lines.drop_first());
        assert(split_nl(text) == seq![l0] + split_nl(join_nl(lines.drop_first())));
        assert(split_nl(text) =~= lines + seq![Seq::<char>::empty()]);
    }
}

/// The Markdown round-trip law: for every document tree in the codec's
/// canonical grammar, parsing its serialization gives the tree back,
/// structurally unchanged.
pub proof fn lemma_markdown_round_trip(blocks: Seq<BlockV>)
    requires
        wf_blocks(blocks),
    ensures
        md_parse(md_render(blocks)) == blocks,
{
    let ls = ser_blocks(blocks);
    lemma_ser_blocks_no_nl(blocks);
    lemma_split_join(ls);
    let tail = seq![Seq::<char>::empty()];
    lemma_blocks_rt_ext(blocks, tail);
    assert(tail[0].len() == 0);
    assert(is_blank(tail[0]));
    assert(tail.drop_first() =~= Seq::<Seq<char>>::empty());
    assert(parse_blocks(tail) == parse_blocks(Seq::<Seq<char>>::empty()));
    assert(parse_blocks(Seq::<Seq<char>>::empty()) =~= Seq::<BlockV>::empty());
    assert(blocks + Seq::<BlockV>::empty() =~= blocks);
    assert(md_parse(md_render(blocks)) == parse_blocks(split_nl(join_nl(ls))));
}

/// The table-repair law: squaring rows to the header width leaves every
/// row with exactly that many cells.
pub proof fn lemma_square_rows_rectangular(w: int, rows: Seq<Seq<Seq<char>>>)
    requires
        w >= 0,
    ensures
        square_rows(w, rows).len() == rows.len(),
        forall|i: int| 0 <= i < rows.len() ==> #[trigger] square_rows(w, rows)[i].len() == w,
{
    assert forall|i: int| 0 <= i < rows.len() implies #[trigger] square_rows(w, rows)[i].len()
        == w by {
        assert(square_rows(w, rows)[i] == square_row(w, rows[i]));
    }
}

/// Every table the block scanner produces is rectangular: each row holds
/// exactly as many cells as the header row; short rows were padded and
/// long ones truncated, never rejected.
pub proof fn lemma_parsed_table_rectangular(lines: Seq<Seq<char>>)
    requires
        parse_one(lines) is Table,
    ensures
        forall|i: int| 0 <= i < parse_one(lines)->Table_rows.len()
            ==> #[trigger] parse_one(lines)->Table_rows[i].len() == parse_one(
            lines,
        )->Table_header.len(),
{
    let header = parse_one(lines)->Table_header;
    lemma_square_rows_rectangular(header.len() as int, lines.subrange(2,
        lines.len() as int).map(|i: int, r: Seq<char>| row_cells(r)));
}

} // verus!
