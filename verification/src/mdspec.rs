//! Mathematical definition of the Markdown codec: a line-oriented grammar
//! over `Seq<char>` lines.  `ser_blocks` renders a block tree into lines;
//! `parse_blocks` classifies lines back into a block tree.  The executable
//! codec in `mdser` and `mdparse` is proved to compute exactly these
//! functions, and the round-trip law is proved about them in `roundtrip`.
use vstd::prelude::*;
use crate::ir::{BlockV, SpanV};

verus! {

// ---------------------------------------------------------------------------
// small character and sequence helpers
// ---------------------------------------------------------------------------

pub open spec fn is_digit(c: char) -> bool {
    '0' <= c && c <= '9'
}

/// Index of the first occurrence of `c` at or after `start`, or `s.len()`.
pub open spec fn find_char(s: Seq<char>, start: int, c: char) -> int
    decreases s.len() - start,
{
    if start < 0 || start >= s.len() {
        s.len() as int
    } else if s[start] == c {
        start
    } else {
        find_char(s, start + 1, c)
    }
}

pub proof fn lemma_find_char(s: Seq<char>, start: int, c: char)
    requires
        0 <= start <= s.len(),
    ensures
        start <= find_char(s, start, c) <= s.len(),
        find_char(s, start, c) < s.len() ==> s[find_char(s, start, c)] == c,
        forall|k: int| start <= k < find_char(s, start, c) ==> s[k] != c,
    decreases s.len() - start,
{
    if start < s.len() && s[start] != c {
        lemma_find_char(s, start + 1, c);
    }
}

/// Index of the first occurrence of the pair `c` `c` at or after `start`,
/// or `s.len()`.
pub open spec fn find_pair(s: Seq<char>, start: int, c: char) -> int
    decreases s.len() - start,
{
    if start < 0 || start + 1 >= s.len() {
        s.len() as int
    } else if s[start] == c && s[start + 1] == c {
        start
    } else {
        find_pair(s, start + 1, c)
    }
}

pub proof fn lemma_find_pair(s: Seq<char>, start: int, c: char)
    requires
        0 <= start,
    ensures
        find_pair(s, start, c) <= s.len(),
        start <= s.len() ==> start <= find_pair(s, start, c),
        find_pair(s, start, c) < s.len() ==> find_pair(s, start, c) + 1 < s.len()
            && s[find_pair(s, start, c)] == c && s[find_pair(s, start, c) + 1] == c,
        forall|k: int| start <= k < find_pair(s, start, c) && k + 1 < s.len()
            ==> !(#[trigger] s[k] == c && s[k + 1] == c),
    decreases s.len() - start,
{
    if start + 1 < s.len() && !(s[start] == c && s[start + 1] == c) {
        lemma_find_pair(s, start + 1, c);
    }
}

/// Number of leading `'#'` characters.
pub open spec fn count_leading(l: Seq<char>, i: int, c: char) -> int
    decreases l.len() - i,
{
    if i < 0 || i >= l.len() || l[i] != c {
        0
    } else {
        1 + count_leading(l, i + 1, c)
    }
}

pub proof fn lemma_count_leading(l: Seq<char>, i: int, c: char)
    requires
        0 <= i <= l.len(),
    ensures
        0 <= count_leading(l, i, c) <= l.len() - i,
        forall|k: int| i <= k < i + count_leading(l, i, c) ==> l[k] == c,
        i + count_leading(l, i, c) < l.len() ==> l[i + count_leading(l, i, c)] != c,
    decreases l.len() - i,
{
    if i < l.len() && l[i] == c {
        lemma_count_leading(l, i + 1, c);
    }
}

/// Number of leading decimal digits.
pub open spec fn count_digits(l: Seq<char>, i: int) -> int
    decreases l.len() - i,
{
    if i < 0 || i >= l.len() || !is_digit(l[i]) {
        0
    } else {
        1 + count_digits(l, i + 1)
    }
}

pub proof fn lemma_count_digits(l: Seq<char>, i: int)
    requires
        0 <= i <= l.len(),
    ensures
        0 <= count_digits(l, i) <= l.len() - i,
        forall|k: int| i <= k < i + count_digits(l, i) ==> is_digit(l[k]),
        i + count_digits(l, i) < l.len() ==> !is_digit(l[i + count_digits(l, i)]),
    decreases l.len() - i,
{
    if i < l.len() && is_digit(l[i]) {
        lemma_count_digits(l, i + 1);
    }
}

/// Leading spaces of a line.
pub open spec fn trim(s: Seq<char>) -> Seq<char> {
    let a = count_leading(s, 0, ' ');
    let b = count_leading(s.reverse(), 0, ' ');
    if a + b <= s.len() {
        s.subrange(a, s.len() - b)
    } else {
        Seq::empty()
    }
}

// ---------------------------------------------------------------------------
// line classification
// ---------------------------------------------------------------------------

pub open spec fn is_blank(l: Seq<char>) -> bool {
    forall|i: int| 0 <= i < l.len() ==> l[i] == ' '
}

pub open spec fn is_fence_line(l: Seq<char>) -> bool {
    l.len() >= 3 && l[0] == '`' && l[1] == '`' && l[2] == '`'
}

pub open spec fn fence_exact() -> Seq<char> {
    seq!['`', '`', '`']
}

pub open spec fn heading_level_of(l: Seq<char>) -> int {
    count_leading(l, 0, '#')
}

pub open spec fn is_heading_line(l: Seq<char>) -> bool {
    let k = heading_level_of(l);
    1 <= k <= 6 && k < l.len() && l[k] == ' '
}

pub open spec fn is_hr_line(l: Seq<char>) -> bool {
    l =~= seq!['-', '-', '-'] || l =~= seq!['*', '*', '*']
}

pub open spec fn is_quote_line(l: Seq<char>) -> bool {
    l.len() >= 1 && l[0] == '>'
}

pub open spec fn is_bullet_line(l: Seq<char>) -> bool {
    l.len() >= 2 && (l[0] == '-' || l[0] == '*') && l[1] == ' '
}

pub open spec fn is_ordered_line(l: Seq<char>) -> bool {
    let k = count_digits(l, 0);
    k >= 1 && k + 1 < l.len() && l[k] == '.' && l[k + 1] == ' '
}

pub open spec fn is_indent_line(l: Seq<char>) -> bool {
    l.len() >= 2 && l[0] == ' ' && l[1] == ' '
}

pub open spec fn is_pipe_line(l: Seq<char>) -> bool {
    l.len() >= 1 && l[0] == '|'
}

/// A table header separator: `| --- | :-- |` and the like.
pub open spec fn is_sep_line(l: Seq<char>) -> bool {
    is_pipe_line(l) && l.len() >= 2
        && (forall|i: int| 0 <= i < l.len() ==> (l[i] == '|' || l[i] == '-' || l[i] == ':' || l[i] == ' '))
        && (exists|i: int| 0 <= i < l.len() && l[i] == '-')
}

pub open spec fn is_image_line(l: Seq<char>) -> bool {
    let j = find_char(l, 2, ']');
    l.len() >= 5 && l[0] == '!' && l[1] == '['
        && j < l.len() && j + 1 < l.len() && l[j + 1] == '('
        && find_char(l, j + 2, ')') == l.len() - 1
}

/// A line that the block scanner reads as a paragraph of inline content.
pub open spec fn is_para_line(l: Seq<char>) -> bool {
    !is_blank(l) && !is_fence_line(l) && !is_heading_line(l) && !is_hr_line(l)
        && !is_quote_line(l) && !is_bullet_line(l) && !is_ordered_line(l)
        && !is_indent_line(l) && !is_pipe_line(l) && !is_image_line(l)
}

// ---------------------------------------------------------------------------
// the inline grammar
// ---------------------------------------------------------------------------

/// Rendering of a single span.
pub open spec fn render_span(s: SpanV) -> Seq<char>
    decreases s,
{
    match s {
        SpanV::Text { text } => text,
        SpanV::Emphasis { inner } => seq!['*'] + render_spans(inner) + seq!['*'],
        SpanV::Strong { inner } => seq!['*', '*'] + render_spans(inner) + seq!['*', '*'],
        SpanV::Strike { inner } => seq!['~', '~'] + render_spans(inner) + seq!['~', '~'],
        SpanV::InlineCode { text } => seq!['`'] + text + seq!['`'],
        SpanV::Link { inner, url } => seq!['['] + render_spans(inner) + seq![']', '('] + url
            + seq![')'],
        SpanV::LineBreak => seq![' '],
    }
}

pub open spec fn render_spans(s: Seq<SpanV>) -> Seq<char>
    decreases s,
{
    if s.len() == 0 {
        Seq::empty()
    } else {
        render_span(s[0]) + render_spans(s.drop_first())
    }
}

/// The raw text of a text or inline-code span.
pub open spec fn text_of(s: SpanV) -> Seq<char> {
    match s {
        SpanV::Text { text } => text,
        SpanV::InlineCode { text } => text,
        _ => Seq::empty(),
    }
}

/// The inline content of a heading or paragraph block.
pub open spec fn content_of(b: BlockV) -> Seq<SpanV> {
    match b {
        BlockV::Heading { level, content } => content,
        BlockV::Paragraph { content } => content,
        _ => Seq::empty(),
    }
}

/// Prepends a literal character to a parsed span sequence, merging it into
/// a leading text span so that text runs stay maximal.
pub open spec fn cons_char(c: char, rest: Seq<SpanV>) -> Seq<SpanV> {
    if rest.len() > 0 && rest[0] is Text {
        seq![SpanV::Text { text: seq![c] + text_of(rest[0]) }] + rest.drop_first()
    } else {
        seq![SpanV::Text { text: seq![c] }] + rest
    }
}

/// The inline scanner: resolves emphasis, strong, strike, code and link
/// delimiters; an unmatched delimiter degrades to literal text.
pub open spec fn parse_inline(s: Seq<char>) -> Seq<SpanV>
    decreases s.len(),
    via parse_inline_decreases
{
    if s.len() == 0 {
        Seq::empty()
    } else if s[0] == '*' && s.len() >= 2 && s[1] == '*' && find_pair(s, 2, '*') < s.len() {
        let j = find_pair(s, 2, '*');
        seq![SpanV::Strong { inner: parse_inline(s.subrange(2, j)) }]
            + parse_inline(s.subrange(j + 2, s.len() as int))
    } else if s[0] == '*' && !(s.len() >= 2 && s[1] == '*') && find_char(s, 1, '*') < s.len() {
        let j = find_char(s, 1, '*');
        seq![SpanV::Emphasis { inner: parse_inline(s.subrange(1, j)) }]
            + parse_inline(s.subrange(j + 1, s.len() as int))
    } else if s[0] == '~' && s.len() >= 2 && s[1] == '~' && find_pair(s, 2, '~') < s.len() {
        let j = find_pair(s, 2, '~');
        seq![SpanV::Strike { inner: parse_inline(s.subrange(2, j)) }]
            + parse_inline(s.subrange(j + 2, s.len() as int))
    } else if s[0] == '`' && find_char(s, 1, '`') < s.len() {
        let j = find_char(s, 1, '`');
        seq![SpanV::InlineCode { text: s.subrange(1, j) }]
            + parse_inline(s.subrange(j + 1, s.len() as int))
    } else if s[0] == '[' && find_char(s, 1, ']') < s.len()
        && find_char(s, 1, ']') + 1 < s.len() && s[find_char(s, 1, ']') + 1] == '('
        && find_char(s, find_char(s, 1, ']') + 2, ')') < s.len() {
        let j = find_char(s, 1, ']');
        let k = find_char(s, j + 2, ')');
        seq![
            SpanV::Link {
                inner: parse_inline(s.subrange(1, j)),
                url: s.subrange(j + 2, k),
            },
        ] + parse_inline(s.subrange(k + 1, s.len() as int))
    } else {
        cons_char(s[0], parse_inline(s.drop_first()))
    }
}

#[via_fn]
proof fn parse_inline_decreases(s: Seq<char>) {
    if s.len() > 0 {
        lemma_find_pair(s, 2, '*');
        lemma_find_char(s, 1, '*');
        lemma_find_pair(s, 2, '~');
        lemma_find_char(s, 1, '`');
        lemma_find_char(s, 1, ']');
        let j = find_char(s, 1, ']');
        if j < s.len() && j + 2 <= s.len() {
            lemma_find_char(s, j + 2, ')');
        }
    }
}

// ---------------------------------------------------------------------------
// the serializer: block tree -> lines
// ---------------------------------------------------------------------------

pub open spec fn repeat_char(c: char, n: int) -> Seq<char> {
    Seq::new(if n >= 0 { n as nat } else { 0 }, |i: int| c)
}

pub open spec fn indent2_all(lines: Seq<Seq<char>>) -> Seq<Seq<char>> {
    lines.map(|i: int, l: Seq<char>| seq![' ', ' '] + l)
}

pub open spec fn quote_all(lines: Seq<Seq<char>>) -> Seq<Seq<char>> {
    lines.map(|i: int, l: Seq<char>| seq!['>', ' '] + l)
}

pub open spec fn row_tail(cells: Seq<Seq<char>>) -> Seq<char>
    decreases cells.len(),
{
    if cells.len() == 0 {
        Seq::empty()
    } else {
        seq![' '] + cells[0] + seq![' ', '|'] + row_tail(cells.drop_first())
    }
}

/// A table row line: `| a | b |`.
pub open spec fn render_row(cells: Seq<Seq<char>>) -> Seq<char> {
    seq!['|'] + row_tail(cells)
}

pub open spec fn sep_tail(n: int) -> Seq<char>
    decreases n,
{
    if n <= 0 {
        Seq::empty()
    } else {
        seq![' ', '-', '-', '-', ' ', '|'] + sep_tail(n - 1)
    }
}

/// The header separator line: `| --- | --- |`.
pub open spec fn sep_row(n: int) -> Seq<char> {
    seq!['|'] + sep_tail(n)
}

pub open spec fn lang_chars(lang: Option<Seq<char>>) -> Seq<char> {
    match lang {
        Option::Some(l) => l,
        Option::None => Seq::empty(),
    }
}

/// Rendering of one block as a sequence of lines.
pub open spec fn ser_block(b: BlockV) -> Seq<Seq<char>>
    decreases b, 1int,
{
    match b {
        BlockV::Heading { level, content } => seq![
            repeat_char('#', level as int) + seq![' '] + render_spans(content),
        ],
        BlockV::Paragraph { content } => seq![render_spans(content)],
        BlockV::BulletList { items } => ser_bullet_items(items),
        BlockV::OrderedList { items } => ser_ordered_items(items),
        BlockV::Blockquote { blocks } => quote_all(ser_blocks(blocks)),
        BlockV::CodeBlock { lang, lines } => seq![fence_exact() + lang_chars(lang)] + lines
            + seq![fence_exact()],
        BlockV::Table { header, rows } => seq![render_row(header), sep_row(header.len() as int)]
            + rows.map(|i: int, r: Seq<Seq<char>>| render_row(r)),
        BlockV::HorizontalRule => seq![seq!['-', '-', '-']],
        BlockV::Image { alt, src } => seq![
            seq!['!', '['] + alt + seq![']', '('] + src + seq![')'],
        ],
    }
}

/// Rendering of one list item under a given marker: the item's first
/// paragraph goes on the marker line, the remaining blocks are indented.
pub open spec fn ser_item(marker: Seq<char>, item: Seq<BlockV>) -> Seq<Seq<char>>
    decreases item, 3int,
{
    if item.len() > 0 && item[0] is Paragraph {
        seq![marker + render_spans(content_of(item[0]))]
            + indent2_all(ser_blocks(item.drop_first()))
    } else {
        seq![marker] + indent2_all(ser_blocks(item))
    }
}

pub open spec fn ser_bullet_items(items: Seq<Seq<BlockV>>) -> Seq<Seq<char>>
    decreases items, 4int,
{
    if items.len() == 0 {
        Seq::empty()
    } else {
        ser_item(seq!['-', ' '], items[0]) + ser_bullet_items(items.drop_first())
    }
}

pub open spec fn ser_ordered_items(items: Seq<Seq<BlockV>>) -> Seq<Seq<char>>
    decreases items, 4int,
{
    if items.len() == 0 {
        Seq::empty()
    } else {
        ser_item(seq!['1', '.', ' '], items[0]) + ser_ordered_items(items.drop_first())
    }
}

/// Rendering of a block sequence: blocks separated by one blank line.
pub open spec fn ser_blocks(blocks: Seq<BlockV>) -> Seq<Seq<char>>
    decreases blocks, 2int,
{
    if blocks.len() == 0 {
        Seq::empty()
    } else if blocks.len() == 1 {
        ser_block(blocks[0])
    } else {
        ser_block(blocks[0]) + seq![Seq::<char>::empty()] + ser_blocks(blocks.drop_first())
    }
}

// ---------------------------------------------------------------------------
// the parser: lines -> block tree
// ---------------------------------------------------------------------------

pub open spec fn chars_sum(lines: Seq<Seq<char>>) -> int
    decreases lines.len(),
{
    if lines.len() == 0 {
        0
    } else {
        lines[0].len() + chars_sum(lines.drop_first())
    }
}

pub open spec fn lines_size(lines: Seq<Seq<char>>) -> int {
    chars_sum(lines) + lines.len()
}

pub proof fn lemma_chars_sum_nonneg(lines: Seq<Seq<char>>)
    ensures
        chars_sum(lines) >= 0,
    decreases lines.len(),
{
    if lines.len() > 0 {
        lemma_chars_sum_nonneg(lines.drop_first());
    }
}

/// `chars_sum` splits across a cut point.
pub proof fn lemma_chars_sum_split(lines: Seq<Seq<char>>, k: int)
    requires
        0 <= k <= lines.len(),
    ensures
        chars_sum(lines) == chars_sum(lines.subrange(0, k)) + chars_sum(
            lines.subrange(k, lines.len() as int),
        ),
    decreases k,
{
    if k == 0 {
        assert(lines.subrange(0, 0) =~= Seq::<Seq<char>>::empty());
        assert(lines.subrange(0, lines.len() as int) =~= lines);
    } else {
        lemma_chars_sum_split(lines.drop_first(), k - 1);
        assert(lines.subrange(0, k).drop_first() =~= lines.drop_first().subrange(0, k - 1));
        assert(lines.subrange(k, lines.len() as int) =~= lines.drop_first().subrange(
            k - 1,
            lines.drop_first().len() as int,
        ));
        assert(chars_sum(lines.subrange(0, k)) == lines[0].len() + chars_sum(
            lines.drop_first().subrange(0, k - 1),
        ));
    }
}

pub proof fn lemma_chars_sum_index(lines: Seq<Seq<char>>, i: int)
    requires
        0 <= i < lines.len(),
    ensures
        chars_sum(lines) >= lines[i].len(),
    decreases i,
{
    lemma_chars_sum_nonneg(lines.drop_first());
    if i > 0 {
        lemma_chars_sum_index(lines.drop_first(), i - 1);
        lemma_chars_sum_nonneg(lines);
    }
}

/// Length of the maximal prefix of quote lines.
pub open spec fn quote_run(lines: Seq<Seq<char>>) -> int
    decreases lines.len(),
{
    if lines.len() == 0 || !is_quote_line(lines[0]) {
        0
    } else {
        1 + quote_run(lines.drop_first())
    }
}

/// Length of the maximal prefix of bullet-item or indented lines.
pub open spec fn bullet_run(lines: Seq<Seq<char>>) -> int
    decreases lines.len(),
{
    if lines.len() == 0 || !(is_bullet_line(lines[0]) || is_indent_line(lines[0])) {
        0
    } else {
        1 + bullet_run(lines.drop_first())
    }
}

/// Length of the maximal prefix of ordered-item or indented lines.
pub open spec fn ordered_run(lines: Seq<Seq<char>>) -> int
    decreases lines.len(),
{
    if lines.len() == 0 || !(is_ordered_line(lines[0]) || is_indent_line(lines[0])) {
        0
    } else {
        1 + ordered_run(lines.drop_first())
    }
}

/// Length of the maximal prefix of pipe lines.
pub open spec fn pipe_run(lines: Seq<Seq<char>>) -> int
    decreases lines.len(),
{
    if lines.len() == 0 || !is_pipe_line(lines[0]) {
        0
    } else {
        1 + pipe_run(lines.drop_first())
    }
}

/// Index of the closing code fence, or `lines.len()` if the fence is
/// unterminated (it is then auto-closed at end of input).
pub open spec fn fence_close(lines: Seq<Seq<char>>, i: int) -> int
    decreases lines.len() - i,
{
    if i < 0 || i >= lines.len() {
        lines.len() as int
    } else if lines[i] =~= fence_exact() {
        i
    } else {
        fence_close(lines, i + 1)
    }
}

/// Strips one level of quote marker.
pub open spec fn strip_quote(l: Seq<char>) -> Seq<char> {
    if l.len() >= 2 && l[0] == '>' && l[1] == ' ' {
        l.subrange(2, l.len() as int)
    } else if l.len() >= 1 && l[0] == '>' {
        l.subrange(1, l.len() as int)
    } else {
        l
    }
}

pub open spec fn strip_quote_all(lines: Seq<Seq<char>>) -> Seq<Seq<char>> {
    lines.map(|i: int, l: Seq<char>| strip_quote(l))
}

/// Strips one level of list indentation.
pub open spec fn strip_indent(l: Seq<char>) -> Seq<char> {
    if is_indent_line(l) {
        l.subrange(2, l.len() as int)
    } else {
        l
    }
}

pub open spec fn strip_indent_all(lines: Seq<Seq<char>>) -> Seq<Seq<char>> {
    lines.map(|i: int, l: Seq<char>| strip_indent(l))
}

/// Length of the maximal prefix of indented (continuation) lines.
pub open spec fn indent_run(lines: Seq<Seq<char>>) -> int
    decreases lines.len(),
{
    if lines.len() == 0 || !is_indent_line(lines[0]) {
        0
    } else {
        1 + indent_run(lines.drop_first())
    }
}

/// Content of a bullet marker line: everything after `- `.
pub open spec fn bullet_rest(l: Seq<char>) -> Seq<char> {
    if l.len() >= 2 {
        l.subrange(2, l.len() as int)
    } else {
        Seq::empty()
    }
}

/// Content of an ordered marker line: everything after `12. `.
pub open spec fn ordered_rest(l: Seq<char>) -> Seq<char> {
    let k = count_digits(l, 0);
    if k + 2 <= l.len() {
        l.subrange(k + 2, l.len() as int)
    } else {
        Seq::empty()
    }
}

/// Splits a pipe-delimited row line into trimmed cells.
pub open spec fn row_cells(l: Seq<char>) -> Seq<Seq<char>> {
    let body1 = if l.len() >= 1 && l[0] == '|' { l.drop_first() } else { l };
    let body = if body1.len() >= 1 && body1[body1.len() - 1] == '|' {
        body1.drop_last()
    } else {
        body1
    };
    split_cells(body).map(|i: int, c: Seq<char>| trim(c))
}

pub open spec fn split_cells(s: Seq<char>) -> Seq<Seq<char>>
    decreases s.len(),
    via split_cells_decreases
{
    let j = find_char(s, 0, '|');
    if j >= s.len() {
        seq![s]
    } else {
        seq![s.subrange(0, j)] + split_cells(s.subrange(j + 1, s.len() as int))
    }
}

#[via_fn]
proof fn split_cells_decreases(s: Seq<char>) {
    lemma_find_char(s, 0, '|');
}

/// Pads short rows with empty cells and truncates long ones, so that every
/// row has exactly `w` cells.
pub open spec fn square_row(w: int, r: Seq<Seq<char>>) -> Seq<Seq<char>> {
    if r.len() < w {
        r + Seq::new((w - r.len()) as nat, |i: int| Seq::<char>::empty())
    } else {
        r.subrange(0, w)
    }
}

pub open spec fn square_rows(w: int, rows: Seq<Seq<Seq<char>>>) -> Seq<Seq<Seq<char>>>
    recommends
        w >= 0,
{
    rows.map(|i: int, r: Seq<Seq<char>>| square_row(w, r))
}

/// How many lines the first block of `lines` consumes; `lines[0]` must not
/// be blank.
pub open spec fn block_extent(lines: Seq<Seq<char>>) -> int {
    let l = lines[0];
    if is_fence_line(l) {
        let j = fence_close(lines, 1);
        if j < lines.len() {
            j + 1
        } else {
            lines.len() as int
        }
    } else if is_heading_line(l) || is_hr_line(l) || is_image_line(l) {
        1
    } else if is_quote_line(l) {
        quote_run(lines)
    } else if is_bullet_line(l) {
        bullet_run(lines)
    } else if is_ordered_line(l) {
        ordered_run(lines)
    } else if is_pipe_line(l) && lines.len() >= 2 && is_sep_line(lines[1]) {
        pipe_run(lines)
    } else {
        1
    }
}

/// The block scanner: turns lines into a block tree, skipping blank lines.
pub open spec fn parse_blocks(lines: Seq<Seq<char>>) -> Seq<BlockV>
    decreases lines_size(lines), 2int,
    via parse_blocks_decreases
{
    if lines.len() == 0 {
        Seq::empty()
    } else if is_blank(lines[0]) {
        parse_blocks(lines.drop_first())
    } else {
        let n = block_extent(lines);
        seq![parse_one(lines.subrange(0, n))] + parse_blocks(
            lines.subrange(n, lines.len() as int),
        )
    }
}

/// Parses the first block, given exactly the lines it consumes.
pub open spec fn parse_one(lines: Seq<Seq<char>>) -> BlockV
    decreases lines_size(lines), 1int,
    via parse_one_decreases
{
    let l = if lines.len() > 0 { lines[0] } else { Seq::empty() };
    if lines.len() == 0 {
        BlockV::HorizontalRule
    } else if is_fence_line(l) {
        let close = if lines.len() >= 1 && lines[lines.len() - 1] =~= fence_exact() && lines.len()
            >= 2 {
            lines.len() - 1
        } else {
            lines.len() as int
        };
        let lang = l.subrange(3, l.len() as int);
        BlockV::CodeBlock {
            lang: if lang.len() == 0 {
                Option::None
            } else {
                Option::Some(lang)
            },
            lines: lines.subrange(1, close),
        }
    } else if is_heading_line(l) {
        let k = heading_level_of(l);
        BlockV::Heading {
            level: k as u8,
            content: parse_inline(l.subrange(k + 1, l.len() as int)),
        }
    } else if is_hr_line(l) {
        BlockV::HorizontalRule
    } else if is_image_line(l) {
        let j = find_char(l, 2, ']');
        BlockV::Image {
            alt: l.subrange(2, j),
            src: l.subrange(j + 2, l.len() - 1),
        }
    } else if is_quote_line(l) {
        BlockV::Blockquote { blocks: parse_blocks(strip_quote_all(lines)) }
    } else if is_bullet_line(l) {
        BlockV::BulletList { items: parse_items(lines) }
    } else if is_ordered_line(l) {
        BlockV::OrderedList { items: parse_items(lines) }
    } else if is_pipe_line(l) && lines.len() >= 2 && is_sep_line(lines[1]) {
        let header = row_cells(l);
        let raw = lines.subrange(2, lines.len() as int).map(|i: int, r: Seq<char>| row_cells(r));
        BlockV::Table { header, rows: square_rows(header.len() as int, raw) }
    } else {
        BlockV::Paragraph { content: parse_inline(l) }
    }
}

/// Splits a list run into items: each marker line opens an item, its
/// indented continuation lines are de-indented and parsed as the item's
/// trailing blocks.
pub open spec fn parse_items(lines: Seq<Seq<char>>) -> Seq<Seq<BlockV>>
    decreases lines_size(lines), 0int,
    via parse_items_decreases
{
    if lines.len() == 0 {
        Seq::empty()
    } else {
        let head = lines[0];
        let content = if is_bullet_line(head) {
            bullet_rest(head)
        } else {
            ordered_rest(head)
        };
        let cont = indent_run(lines.drop_first());
        let sub = strip_indent_all(lines.subrange(1, 1 + cont));
        let item = seq![BlockV::Paragraph { content: parse_inline(content) }] + parse_blocks(sub);
        seq![item] + parse_items(lines.subrange(1 + cont, lines.len() as int))
    }
}

#[via_fn]
proof fn parse_blocks_decreases(lines: Seq<Seq<char>>) {
    if lines.len() > 0 {
        lemma_chars_sum_nonneg(lines);
        lemma_chars_sum_nonneg(lines.drop_first());
        if is_blank(lines[0]) {
            assert(chars_sum(lines) >= chars_sum(lines.drop_first()));
        } else {
            let n = block_extent(lines);
            lemma_block_extent_bounds(lines);
            lemma_chars_sum_split(lines, n);
            lemma_chars_sum_nonneg(lines.subrange(0, n));
            lemma_chars_sum_nonneg(lines.subrange(n, lines.len() as int));
            lemma_chars_sum_index(lines, 0);
            assert(lines.subrange(0, n)[0] == lines[0]);
            lemma_chars_sum_index(lines.subrange(0, n), 0);
        }
    }
}

#[via_fn]
proof fn parse_one_decreases(lines: Seq<Seq<char>>) {
    if lines.len() > 0 {
        let l = if lines.len() > 0 { lines[0] } else { Seq::empty() };
        if !is_fence_line(l) && !is_heading_line(l) && !is_hr_line(l) && !is_image_line(l)
            && is_quote_line(l) {
            lemma_strip_quote_all_size(lines);
            lemma_chars_sum_nonneg(strip_quote_all(lines));
            assert(strip_quote_all(lines).len() == lines.len());
            assert(chars_sum(strip_quote_all(lines)) <= chars_sum(lines) - 1);
            assert(lines_size(strip_quote_all(lines)) < lines_size(lines));
        }
    }
    lemma_chars_sum_nonneg(lines);
}

#[via_fn]
proof fn parse_items_decreases(lines: Seq<Seq<char>>) {
    if lines.len() > 0 {
        let cont = indent_run(lines.drop_first());
        lemma_indent_run_bounds(lines.drop_first());
        let subr = lines.subrange(1, 1 + cont);
        lemma_strip_indent_all_size(subr);
        lemma_chars_sum_split(lines, 1 + cont);
        lemma_chars_sum_nonneg(lines.subrange(0, 1 + cont));
        lemma_chars_sum_nonneg(lines.subrange(1 + cont, lines.len() as int));
        lemma_chars_sum_nonneg(subr);
        lemma_chars_sum_nonneg(strip_indent_all(subr));
        lemma_chars_sum_split(lines.subrange(0, 1 + cont), 1);
        assert(lines.subrange(0, 1 + cont).subrange(1, 1 + cont) =~= subr);
        assert(lines.subrange(0, 1 + cont).subrange(0, 1)[0] == lines[0]);
        lemma_chars_sum_index(lines.subrange(0, 1 + cont).subrange(0, 1), 0);
        lemma_chars_sum_nonneg(lines);
    }
}

pub proof fn lemma_indent_run_bounds(lines: Seq<Seq<char>>)
    ensures
        0 <= indent_run(lines) <= lines.len(),
        forall|i: int| 0 <= i < indent_run(lines) ==> is_indent_line(lines[i]),
        indent_run(lines) < lines.len() ==> !is_indent_line(lines[indent_run(lines)]),
    decreases lines.len(),
{
    if lines.len() > 0 && (is_indent_line(lines[0])) {
        lemma_indent_run_bounds(lines.drop_first());
        assert forall|i: int| 0 <= i < indent_run(lines) implies is_indent_line(lines[i]) by {
            if i > 0 {
                assert(lines[i] == lines.drop_first()[i - 1]);
            }
        }
        if indent_run(lines) < lines.len() {
            assert(lines[indent_run(lines)] == lines.drop_first()[indent_run(lines) - 1]);
        }
    }
}

pub proof fn lemma_quote_run_bounds(lines: Seq<Seq<char>>)
    ensures
        0 <= quote_run(lines) <= lines.len(),
        forall|i: int| 0 <= i < quote_run(lines) ==> is_quote_line(lines[i]),
        quote_run(lines) < lines.len() ==> !is_quote_line(lines[quote_run(lines)]),
    decreases lines.len(),
{
    if lines.len() > 0 && (is_quote_line(lines[0])) {
        lemma_quote_run_bounds(lines.drop_first());
        assert forall|i: int| 0 <= i < quote_run(lines) implies is_quote_line(lines[i]) by {
            if i > 0 {
                assert(lines[i] == lines.drop_first()[i - 1]);
            }
        }
        if quote_run(lines) < lines.len() {
            assert(lines[quote_run(lines)] == lines.drop_first()[quote_run(lines) - 1]);
        }
    }
}

pub proof fn lemma_bullet_run_bounds(lines: Seq<Seq<char>>)
    ensures
        0 <= bullet_run(lines) <= lines.len(),
        forall|i: int| 0 <= i < bullet_run(lines)
            ==> is_bullet_line(lines[i]) || is_indent_line(lines[i]),
        bullet_run(lines) < lines.len() ==> !(is_bullet_line(lines[bullet_run(lines)])
            || is_indent_line(lines[bullet_run(lines)])),
    decreases lines.len(),
{
    if lines.len() > 0 && (is_bullet_line(lines[0]) || is_indent_line(lines[0])) {
        lemma_bullet_run_bounds(lines.drop_first());
        assert forall|i: int| 0 <= i < bullet_run(lines) implies is_bullet_line(lines[i]) || is_indent_line(lines[i]) by {
            if i > 0 {
                assert(lines[i] == lines.drop_first()[i - 1]);
            }
        }
        if bullet_run(lines) < lines.len() {
            assert(lines[bullet_run(lines)] == lines.drop_first()[bullet_run(lines) - 1]);
        }
    }
}

pub proof fn lemma_ordered_run_bounds(lines: Seq<Seq<char>>)
    ensures
        0 <= ordered_run(lines) <= lines.len(),
        forall|i: int| 0 <= i < ordered_run(lines)
            ==> is_ordered_line(lines[i]) || is_indent_line(lines[i]),
        ordered_run(lines) < lines.len() ==> !(is_ordered_line(lines[ordered_run(lines)])
            || is_indent_line(lines[ordered_run(lines)])),
    decreases lines.len(),
{
    if lines.len() > 0 && (is_ordered_line(lines[0]) || is_indent_line(lines[0])) {
        lemma_ordered_run_bounds(lines.drop_first());
        assert forall|i: int| 0 <= i < ordered_run(lines) implies is_ordered_line(lines[i]) || is_indent_line(lines[i]) by {
            if i > 0 {
                assert(lines[i] == lines.drop_first()[i - 1]);
            }
        }
        if ordered_run(lines) < lines.len() {
            assert(lines[ordered_run(lines)] == lines.drop_first()[ordered_run(lines) - 1]);
        }
    }
}

pub proof fn lemma_pipe_run_bounds(lines: Seq<Seq<char>>)
    ensures
        0 <= pipe_run(lines) <= lines.len(),
        forall|i: int| 0 <= i < pipe_run(lines) ==> is_pipe_line(lines[i]),
        pipe_run(lines) < lines.len() ==> !is_pipe_line(lines[pipe_run(lines)]),
    decreases lines.len(),
{
    if lines.len() > 0 && (is_pipe_line(lines[0])) {
        lemma_pipe_run_bounds(lines.drop_first());
        assert forall|i: int| 0 <= i < pipe_run(lines) implies is_pipe_line(lines[i]) by {
            if i > 0 {
                assert(lines[i] == lines.drop_first()[i - 1]);
            }
        }
        if pipe_run(lines) < lines.len() {
            assert(lines[pipe_run(lines)] == lines.drop_first()[pipe_run(lines) - 1]);
        }
    }
}

pub proof fn lemma_fence_close_bounds(lines: Seq<Seq<char>>, i: int)
    requires
        0 <= i <= lines.len(),
    ensures
        i <= fence_close(lines, i) <= lines.len(),
        fence_close(lines, i) < lines.len() ==> lines[fence_close(lines, i)] =~= fence_exact(),
        forall|k: int| i <= k < fence_close(lines, i) ==> !(lines[k] =~= fence_exact()),
    decreases lines.len() - i,
{
    if i < lines.len() && !(lines[i] =~= fence_exact()) {
        lemma_fence_close_bounds(lines, i + 1);
    }
}

/// A nonblank first line gives a block extent between 1 and the line count.
pub proof fn lemma_block_extent_bounds(lines: Seq<Seq<char>>)
    requires
        lines.len() > 0,
        !is_blank(lines[0]),
    ensures
        1 <= block_extent(lines) <= lines.len(),
{
    let l = lines[0];
    lemma_fence_close_bounds(lines, 1);
    lemma_quote_run_bounds(lines);
    lemma_bullet_run_bounds(lines);
    lemma_ordered_run_bounds(lines);
    lemma_pipe_run_bounds(lines);
}

pub proof fn lemma_strip_quote_all_size(lines: Seq<Seq<char>>)
    ensures
        chars_sum(strip_quote_all(lines)) <= chars_sum(lines),
        lines.len() > 0 && is_quote_line(lines[0]) ==> chars_sum(strip_quote_all(lines))
            <= chars_sum(lines) - 1,
    decreases lines.len(),
{
    if lines.len() > 0 {
        lemma_strip_quote_all_size(lines.drop_first());
        assert(strip_quote_all(lines).drop_first() =~= strip_quote_all(lines.drop_first()));
        assert(strip_quote(lines[0]).len() <= lines[0].len());
        if is_quote_line(lines[0]) {
            assert(strip_quote(lines[0]).len() <= lines[0].len() - 1);
        }
    }
}

pub proof fn lemma_strip_indent_all_size(lines: Seq<Seq<char>>)
    ensures
        chars_sum(strip_indent_all(lines)) <= chars_sum(lines),
    decreases lines.len(),
{
    if lines.len() > 0 {
        lemma_strip_indent_all_size(lines.drop_first());
        assert(strip_indent_all(lines).drop_first() =~= strip_indent_all(lines.drop_first()));
        assert(strip_indent(lines[0]).len() <= lines[0].len());
    }
}

// ---------------------------------------------------------------------------
// text level: joining and splitting lines on newlines
// ---------------------------------------------------------------------------

pub open spec fn join_nl(lines: Seq<Seq<char>>) -> Seq<char>
    decreases lines.len(),
{
    if lines.len() == 0 {
        Seq::empty()
    } else {
        lines[0] + seq!['\n'] + join_nl(lines.drop_first())
    }
}

pub open spec fn split_nl(text: Seq<char>) -> Seq<Seq<char>>
    decreases text.len(),
    via split_nl_decreases
{
    let j = find_char(text, 0, '\n');
    if j >= text.len() {
        seq![text]
    } else {
        seq![text.subrange(0, j)] + split_nl(text.subrange(j + 1, text.len() as int))
    }
}

#[via_fn]
proof fn split_nl_decreases(text: Seq<char>) {
    lemma_find_char(text, 0, '\n');
}

/// The whole codec, text to tree: split into lines, scan into blocks.
pub open spec fn md_parse(text: Seq<char>) -> Seq<BlockV> {
    parse_blocks(split_nl(text))
}

/// The whole codec, tree to text: render lines, join with newlines.
pub open spec fn md_render(blocks: Seq<BlockV>) -> Seq<char> {
    join_nl(ser_blocks(blocks))
}

} // verus!
