//! Word-processor adapter: maps a paragraph/run/table/image model to the
//! document tree and back.  Heading styles correspond to heading levels,
//! run properties to emphasis spans, native tables to tables.  Lists,
//! quotes and rules have no place in this run model and are dropped with a
//! warning on export.
use vstd::prelude::*;
use crate::ir::{Block, BlockV, Span, SpanV, Doc, Warning, block_view, blocks_view, doc_view,
    span_view, spans_view};
use crate::mdspec::{square_rows, square_row};
use crate::mdparse::warn_extends;
use crate::chars::{chars_to_string, str_to_chars};

verus! {

/// One styled text run.
#[derive(Debug, PartialEq, Eq)]
pub struct Run {
    pub text: String,
    pub bold: bool,
    pub italic: bool,
    pub strike: bool,
    pub code: bool,
}

/// Mathematical view of a run.
#[verifier::ext_equal]
pub struct RunV {
    pub text: Seq<char>,
    pub bold: bool,
    pub italic: bool,
    pub strike: bool,
    pub code: bool,
}

/// One block of the word-processor model: a styled paragraph (heading
/// level 0 means body text), a table, or an anchored image.
#[derive(Debug, PartialEq, Eq)]
pub enum WordBlock {
    Para { heading: u8, runs: Vec<Run> },
    Table { rows: Vec<Vec<String>> },
    Image { alt: String, src: String },
}

#[verifier::ext_equal]
pub enum WordBlockV {
    Para { heading: u8, runs: Seq<RunV> },
    Table { rows: Seq<Seq<Seq<char>>> },
    Image { alt: Seq<char>, src: Seq<char> },
}

/// An in-memory word-processor container.
#[derive(Debug, PartialEq, Eq)]
pub struct WordDoc {
    pub blocks: Vec<WordBlock>,
}

pub open spec fn run_view(r: Run) -> RunV {
    RunV { text: r.text@, bold: r.bold, italic: r.italic, strike: r.strike, code: r.code }
}

pub open spec fn runs_view(s: Seq<Run>) -> Seq<RunV> {
    Seq::new(s.len(), |i: int| run_view(s[i]))
}

pub open spec fn word_block_view(b: WordBlock) -> WordBlockV {
    match b {
        WordBlock::Para { heading, runs } => WordBlockV::Para {
            heading,
            runs: runs_view(runs@),
        },
        WordBlock::Table { rows } => WordBlockV::Table { rows: rows.deep_view() },
        WordBlock::Image { alt, src } => WordBlockV::Image { alt: alt@, src: src@ },
    }
}

pub open spec fn word_blocks_view(s: Seq<WordBlock>) -> Seq<WordBlockV> {
    Seq::new(s.len(), |i: int| word_block_view(s[i]))
}

/// The span one run imports to: code wins, then strike around bold around
/// italic around the plain text.
pub open spec fn span_of_run(r: RunV) -> SpanV {
    if r.code {
        SpanV::InlineCode { text: r.text }
    } else {
        let base = SpanV::Text { text: r.text };
        let s1 = if r.italic {
            SpanV::Emphasis { inner: seq![base] }
        } else {
            base
        };
        let s2 = if r.bold {
            SpanV::Strong { inner: seq![s1] }
        } else {
            s1
        };
        if r.strike {
            SpanV::Strike { inner: seq![s2] }
        } else {
            s2
        }
    }
}

pub open spec fn spans_of_runs(runs: Seq<RunV>) -> Seq<SpanV> {
    Seq::new(runs.len(), |i: int| span_of_run(runs[i]))
}

pub open spec fn clamp_level(h: u8) -> u8 {
    if h > 6 {
        6
    } else {
        h
    }
}

/// What a word-processor document imports to.
pub open spec fn import_word(blocks: Seq<WordBlockV>) -> Seq<BlockV>
    decreases blocks.len(),
{
    if blocks.len() == 0 {
        Seq::empty()
    } else {
        let head: Seq<BlockV> = match blocks[0] {
            WordBlockV::Para { heading, runs } => if heading == 0 {
                seq![BlockV::Paragraph { content: spans_of_runs(runs) }]
            } else {
                seq![
                    BlockV::Heading { level: clamp_level(heading), content: spans_of_runs(runs) },
                ]
            },
            WordBlockV::Table { rows } => if rows.len() == 0 {
                Seq::empty()
            } else {
                seq![
                    BlockV::Table {
                        header: rows[0],
                        rows: square_rows(rows[0].len() as int, rows.drop_first()),
                    },
                ]
            },
            WordBlockV::Image { alt, src } => seq![BlockV::Image { alt, src }],
        };
        head + import_word(blocks.drop_first())
    }
}

/// The runs a span sequence exports to, under inherited style flags; a
/// link's target follows its text in parentheses.
pub open spec fn runs_of_spans(spans: Seq<SpanV>, b: bool, it: bool, st: bool) -> Seq<RunV>
    decreases spans, 1int,
{
    if spans.len() == 0 {
        Seq::empty()
    } else {
        runs_of_span(spans[0], b, it, st) + runs_of_spans(spans.drop_first(), b, it, st)
    }
}

pub open spec fn runs_of_span(s: SpanV, b: bool, it: bool, st: bool) -> Seq<RunV>
    decreases s, 0int,
{
    match s {
        SpanV::Text { text } => seq![
            RunV { text, bold: b, italic: it, strike: st, code: false },
        ],
        SpanV::InlineCode { text } => seq![
            RunV { text, bold: b, italic: it, strike: st, code: true },
        ],
        SpanV::Emphasis { inner } => runs_of_spans(inner, b, true, st),
        SpanV::Strong { inner } => runs_of_spans(inner, true, it, st),
        SpanV::Strike { inner } => runs_of_spans(inner, b, it, true),
        SpanV::Link { inner, url } => runs_of_spans(inner, b, it, st) + seq![
            RunV {
                text: seq![' ', '('] + url + seq![')'],
                bold: b,
                italic: it,
                strike: st,
                code: false,
            },
        ],
        SpanV::LineBreak => seq![
            RunV { text: seq![' '], bold: b, italic: it, strike: st, code: false },
        ],
    }
}

pub open spec fn code_runs(lines: Seq<Seq<char>>) -> Seq<RunV> {
    Seq::new(lines.len(), |i: int| RunV {
        text: lines[i],
        bold: false,
        italic: false,
        strike: false,
        code: true,
    })
}

/// What a document exports to: headings and paragraphs become styled
/// paragraphs, tables and images carry over, code blocks become code-run
/// paragraphs; list, quote and rule blocks are dropped.
pub open spec fn export_word(blocks: Seq<BlockV>) -> Seq<WordBlockV>
    decreases blocks.len(),
{
    if blocks.len() == 0 {
        Seq::empty()
    } else {
        let head: Seq<WordBlockV> = match blocks[0] {
            BlockV::Heading { level, content } => seq![
                WordBlockV::Para {
                    heading: level,
                    runs: runs_of_spans(content, false, false, false),
                },
            ],
            BlockV::Paragraph { content } => seq![
                WordBlockV::Para { heading: 0u8, runs: runs_of_spans(content, false, false, false) },
            ],
            BlockV::Table { header, rows } => seq![
                WordBlockV::Table { rows: seq![header] + rows },
            ],
            BlockV::Image { alt, src } => seq![WordBlockV::Image { alt, src }],
            BlockV::CodeBlock { lang, lines } => seq![
                WordBlockV::Para { heading: 0u8, runs: code_runs(lines) },
            ],
            _ => Seq::empty(),
        };
        head + export_word(blocks.drop_first())
    }
}

/// Builds the span one run imports to.
fn span_of_run_exec(r: &Run) -> (s: Span)
    ensures
        span_view(s) == span_of_run(run_view(*r)),
{
    let text = chars_to_string(&str_to_chars(r.text.as_str()));
    if r.code {
        Span::InlineCode { text }
    } else {
        let mut s = Span::Text { text };
        if r.italic {
            let ghost pv = span_view(s);
            let mut inner: Vec<Span> = Vec::new();
            inner.push(s);
            proof {
                assert(inner@.drop_first() =~= Seq::<Span>::empty());
                assert(span_view(inner@[0]) == pv);
                assert(spans_view(Seq::<Span>::empty()) =~= Seq::<SpanV>::empty());
                assert(spans_view(inner@) == seq![span_view(inner@[0])] + spans_view(
                    inner@.drop_first(),
                ));
                assert(spans_view(inner@) =~~= seq![pv]);
            }
            s = Span::Emphasis { inner };
            proof {
                assert(span_view(s) == (SpanV::Emphasis { inner: seq![pv] }));
            }
        }
        if r.bold {
            let ghost pv = span_view(s);
            let mut inner: Vec<Span> = Vec::new();
            inner.push(s);
            proof {
                assert(inner@.drop_first() =~= Seq::<Span>::empty());
                assert(span_view(inner@[0]) == pv);
                assert(spans_view(Seq::<Span>::empty()) =~= Seq::<SpanV>::empty());
                assert(spans_view(inner@) == seq![span_view(inner@[0])] + spans_view(
                    inner@.drop_first(),
                ));
                assert(spans_view(inner@) =~~= seq![pv]);
            }
            s = Span::Strong { inner };
            proof {
                assert(span_view(s) == (SpanV::Strong { inner: seq![pv] }));
            }
        }
        if r.strike {
            let ghost pv = span_view(s);
            let mut inner: Vec<Span> = Vec::new();
            inner.push(s);
            proof {
                assert(inner@.drop_first() =~= Seq::<Span>::empty());
                assert(span_view(inner@[0]) == pv);
                assert(spans_view(Seq::<Span>::empty()) =~= Seq::<SpanV>::empty());
                assert(spans_view(inner@) == seq![span_view(inner@[0])] + spans_view(
                    inner@.drop_first(),
                ));
                assert(spans_view(inner@) =~~= seq![pv]);
            }
            s = Span::Strike { inner };
            proof {
                assert(span_view(s) == (SpanV::Strike { inner: seq![pv] }));
            }
        }
        proof {
            assert(span_view(s) =~~= span_of_run(run_view(*r)));
        }
        s
    }
}

/// Builds the spans of a run sequence.
#[verifier::loop_isolation(false)]
fn spans_of_runs_exec(runs: &Vec<Run>) -> (r: Vec<Span>)
    ensures
        spans_view(r@) == spans_of_runs(runs_view(runs@)),
{
    let mut r: Vec<Span> = Vec::new();
    let mut i: usize = 0;
    while i < runs.len()
        invariant
            i <= runs@.len(),
            r@.len() == i,
            forall|k: int| 0 <= k < i ==> #[trigger] span_view(r@[k]) == span_of_run(run_view(
                runs@[k],
            )),
        decreases runs@.len() - i,
    {
        let s = span_of_run_exec(&runs[i]);
        r.push(s);
        i = i + 1;
    }
    proof {
        crate::ir::lemma_spans_view_index(r@);
        assert(spans_view(r@) =~~= spans_of_runs(runs_view(runs@)));
    }
    r
}

/// Imports a word-processor document.
#[verifier::loop_isolation(false)]
pub fn word_to_doc(wd: &WordDoc, warn: &mut Vec<Warning>) -> (r: Doc)
    ensures
        doc_view(r) == import_word(word_blocks_view(wd.blocks@)),
        warn_extends(final(warn)@, old(warn)@),
{
    proof {
        assert(warn@.subrange(0, warn@.len() as int) =~= warn@);
        assert(wd.blocks@.subrange(0, wd.blocks@.len() as int) =~= wd.blocks@);
    }
    let blocks = import_from(&wd.blocks, 0, warn);
    Doc { blocks }
}

#[verifier::loop_isolation(false)]
fn import_from(wblocks: &Vec<WordBlock>, i: usize, warn: &mut Vec<Warning>) -> (r: Vec<Block>)
    requires
        i <= wblocks@.len(),
    ensures
        blocks_view(r@) == import_word(word_blocks_view(wblocks@.subrange(i as int,
            wblocks@.len() as int))),
        warn_extends(final(warn)@, old(warn)@),
    decreases wblocks@.len() - i,
{
    proof {
        assert(warn@.subrange(0, warn@.len() as int) =~= warn@);
    }
    let ghost tail = word_blocks_view(wblocks@.subrange(i as int, wblocks@.len() as int));
    if i == wblocks.len() {
        let r: Vec<Block> = Vec::new();
        proof {
            assert(blocks_view(r@) =~= import_word(tail));
        }
        return r;
    }
    proof {
        assert(tail[0] == word_block_view(wblocks@[i as int]));
        assert(tail.drop_first() =~= word_blocks_view(wblocks@.subrange(i + 1,
            wblocks@.len() as int)));
    }
    let head: Option<Block> = match &wblocks[i] {
        WordBlock::Para { heading, runs } => {
            let content = spans_of_runs_exec(runs);
            if *heading == 0 {
                Option::Some(Block::Paragraph { content })
            } else {
                let lvl = if *heading > 6 {
                    6
                } else {
                    *heading
                };
                Option::Some(Block::Heading { level: lvl, content })
            }
        },
        WordBlock::Table { rows } => {
            if rows.len() == 0 {
                Option::None
            } else {
                let width = rows[0].len();
                let mut header: Vec<String> = Vec::new();
                let mut k: usize = 0;
                while k < width
                    invariant
                        k <= width,
                        width == rows@[0]@.len(),
                        header@.len() == k,
                        forall|q: int| 0 <= q < k ==> #[trigger] header@[q]@ == rows@[0]@[q]@,
                    decreases width - k,
                {
                    header.push(chars_to_string(&str_to_chars(rows[0][k].as_str())));
                    k = k + 1;
                }
                let mut body: Vec<Vec<String>> = Vec::new();
                let mut j: usize = 1;
                while j < rows.len()
                    invariant
                        1 <= j <= rows@.len(),
                        width == rows@[0]@.len(),
                        body@.len() == j - 1,
                        forall|q: int| 0 <= q < j - 1 ==> #[trigger] body@[q].deep_view()
                            == square_row(width as int, rows@[q + 1].deep_view()),
                    decreases rows@.len() - j,
                {
                    let src = &rows[j];
                    let take = if src.len() < width {
                        src.len()
                    } else {
                        width
                    };
                    let mut row: Vec<String> = Vec::new();
                    let mut q: usize = 0;
                    while q < take
                        invariant
                            q <= take,
                            take <= src@.len(),
                            row@.len() == q,
                            forall|p: int| 0 <= p < q ==> #[trigger] row@[p]@ == src@[p]@,
                        decreases take - q,
                    {
                        row.push(chars_to_string(&str_to_chars(src[q].as_str())));
                        q = q + 1;
                    }
                    while row.len() < width
                        invariant
                            row@.len() >= take,
                            row@.len() <= width,
                            forall|p: int| 0 <= p < take ==> #[trigger] row@[p]@ == src@[p]@,
                            forall|p: int| take <= p < row@.len() ==> #[trigger] row@[p]@
                                == Seq::<char>::empty(),
                        decreases width - row@.len(),
                    {
                        let e: Vec<char> = Vec::new();
                        row.push(chars_to_string(&e));
                    }
                    proof {
                        assert(row.deep_view() =~~= square_row(width as int,
                            src.deep_view()));
                    }
                    body.push(row);
                    j = j + 1;
                }
                let t = Block::Table { header, rows: body };
                proof {
                    let wv = word_block_view(wblocks@[i as int]);
                    assert(t->Table_header.deep_view() =~~= wv->Table_rows[0]);
                    assert forall|q: int| 0 <= q < t->Table_rows.deep_view().len() implies
                        t->Table_rows.deep_view()[q] == square_rows(
                        wv->Table_rows[0].len() as int, wv->Table_rows.drop_first())[q] by {
                        assert(t->Table_rows.deep_view()[q] == body@[q].deep_view());
                        assert(wv->Table_rows.drop_first()[q] == rows@[q + 1].deep_view());
                    }
                    assert(t->Table_rows.deep_view() =~~= square_rows(
                        wv->Table_rows[0].len() as int, wv->Table_rows.drop_first()));
                }
                Option::Some(t)
            }
        },
        WordBlock::Image { alt, src } => {
            Option::Some(Block::Image {
                alt: chars_to_string(&str_to_chars(alt.as_str())),
                src: chars_to_string(&str_to_chars(src.as_str())),
            })
        },
    };
    let rest = import_from(wblocks, i + 1, warn);
    let ghost rv = rest@;
    let mut r = rest;
    match head {
        Option::Some(bl) => {
            let ghost bv = block_view(bl);
            r.insert(0, bl);
            proof {
                assert(r@.drop_first() =~= rv);
                assert(blocks_view(r@) == seq![block_view(r@[0])] + blocks_view(
                    r@.drop_first(),
                ));
                assert(blocks_view(r@) =~~= import_word(tail));
            }
        },
        Option::None => {
            proof {
                assert(blocks_view(r@) =~~= import_word(tail));
            }
        },
    }
    r
}

/// `runs_view` distributes over concatenation.
proof fn lemma_runs_view_concat(a: Seq<Run>, b: Seq<Run>)
    ensures
        runs_view(a + b) == runs_view(a) + runs_view(b),
{
    assert(runs_view(a + b) =~= runs_view(a) + runs_view(b));
}

/// Builds the runs a span sequence exports to.
#[verifier::loop_isolation(false)]
fn runs_of_spans_exec(spans: &Vec<Span>, i: usize, b: bool, it: bool, st: bool) -> (r: Vec<Run>)
    requires
        i <= spans@.len(),
    ensures
        runs_view(r@) == runs_of_spans(spans_view(spans@.subrange(i as int, spans@.len() as int)),
            b, it, st),
    decreases spans@.subrange(i as int, spans@.len() as int), 1int,
{
    let ghost tail = spans@.subrange(i as int, spans@.len() as int);
    proof {
        crate::ir::lemma_spans_view_index(tail);
    }
    if i == spans.len() {
        let r: Vec<Run> = Vec::new();
        proof {
            assert(runs_view(r@) =~= runs_of_spans(spans_view(tail), b, it, st));
        }
        return r;
    }
    proof {
        assert(tail[0] == spans@[i as int]);
        assert(decreases_to!(tail => tail[0]));
        assert(tail.drop_first() =~= spans@.subrange(i + 1, spans@.len() as int));
        assert(spans_view(tail).drop_first() =~= spans_view(tail.drop_first()));
    }
    let mut head: Vec<Run> = match &spans[i] {
        Span::Text { text } => {
            let mut h: Vec<Run> = Vec::new();
            h.push(Run {
                text: chars_to_string(&str_to_chars(text.as_str())),
                bold: b,
                italic: it,
                strike: st,
                code: false,
            });
            h
        },
        Span::InlineCode { text } => {
            let mut h: Vec<Run> = Vec::new();
            h.push(Run {
                text: chars_to_string(&str_to_chars(text.as_str())),
                bold: b,
                italic: it,
                strike: st,
                code: true,
            });
            h
        },
        Span::Emphasis { inner } => {
            proof {
                assert(decreases_to!(tail[0] => inner));
                assert(inner@.subrange(0, inner@.len() as int) =~= inner@);
            }
            runs_of_spans_exec(inner, 0, b, true, st)
        },
        Span::Strong { inner } => {
            proof {
                assert(decreases_to!(tail[0] => inner));
                assert(inner@.subrange(0, inner@.len() as int) =~= inner@);
            }
            runs_of_spans_exec(inner, 0, true, it, st)
        },
        Span::Strike { inner } => {
            proof {
                assert(decreases_to!(tail[0] => inner));
                assert(inner@.subrange(0, inner@.len() as int) =~= inner@);
            }
            runs_of_spans_exec(inner, 0, b, it, true)
        },
        Span::Link { inner, url } => {
            proof {
                assert(decreases_to!(tail[0] => inner));
                assert(inner@.subrange(0, inner@.len() as int) =~= inner@);
            }
            let mut h = runs_of_spans_exec(inner, 0, b, it, st);
            let mut uc: Vec<char> = Vec::new();
            uc.push(' ');
            uc.push('(');
            let mut uu = str_to_chars(url.as_str());
            uc.append(&mut uu);
            uc.push(')');
            proof {
                assert(uc@ =~= seq![' ', '('] + url@ + seq![')']);
            }
            let ghost hv = h@;
            h.push(Run {
                text: chars_to_string(&uc),
                bold: b,
                italic: it,
                strike: st,
                code: false,
            });
            proof {
                assert(runs_view(h@) =~~= runs_view(hv) + seq![
                    RunV {
                        text: seq![' ', '('] + url@ + seq![')'],
                        bold: b,
                        italic: it,
                        strike: st,
                        code: false,
                    },
                ]);
            }
            h
        },
        Span::LineBreak => {
            let mut sp: Vec<char> = Vec::new();
            sp.push(' ');
            proof {
                assert(sp@ =~= seq![' ']);
            }
            let mut h: Vec<Run> = Vec::new();
            h.push(Run {
                text: chars_to_string(&sp),
                bold: b,
                italic: it,
                strike: st,
                code: false,
            });
            h
        },
    };
    proof {
        assert(runs_view(head@) =~~= runs_of_span(span_view(spans@[i as int]), b, it, st));
    }
    let ghost hv2 = head@;
    let mut rest = runs_of_spans_exec(spans, i + 1, b, it, st);
    let ghost restv = rest@;
    head.append(&mut rest);
    proof {
        assert(head@ =~= hv2 + restv);
        lemma_runs_view_concat(hv2, restv);
        assert(runs_view(head@) =~~= runs_of_spans(spans_view(tail), b, it, st));
    }
    head
}

/// Exports a document to the word-processor model.
#[verifier::loop_isolation(false)]
pub fn doc_to_word(d: &Doc, warn: &mut Vec<Warning>) -> (r: WordDoc)
    ensures
        word_blocks_view(r.blocks@) == export_word(doc_view(*d)),
        warn_extends(final(warn)@, old(warn)@),
{
    proof {
        assert(warn@.subrange(0, warn@.len() as int) =~= warn@);
        assert(d.blocks@.subrange(0, d.blocks@.len() as int) =~= d.blocks@);
    }
    let blocks = export_from(&d.blocks, 0, warn);
    WordDoc { blocks }
}

#[verifier::loop_isolation(false)]
fn export_from(blocks: &Vec<Block>, i: usize, warn: &mut Vec<Warning>) -> (r: Vec<WordBlock>)
    requires
        i <= blocks@.len(),
    ensures
        word_blocks_view(r@) == export_word(blocks_view(blocks@.subrange(i as int,
            blocks@.len() as int))),
        warn_extends(final(warn)@, old(warn)@),
    decreases blocks@.len() - i,
{
    proof {
        assert(warn@.subrange(0, warn@.len() as int) =~= warn@);
    }
    let ghost tail = blocks@.subrange(i as int, blocks@.len() as int);
    proof {
        crate::ir::lemma_blocks_view_index(tail);
    }
    if i == blocks.len() {
        let r: Vec<WordBlock> = Vec::new();
        proof {
            assert(word_blocks_view(r@) =~= export_word(blocks_view(tail)));
        }
        return r;
    }
    proof {
        assert(tail[0] == blocks@[i as int]);
        assert(tail.drop_first() =~= blocks@.subrange(i + 1, blocks@.len() as int));
        assert(blocks_view(tail).drop_first() =~= blocks_view(tail.drop_first()));
    }
    let head: Option<WordBlock> = match &blocks[i] {
        Block::Heading { level, content } => {
            proof {
                assert(content@.subrange(0, content@.len() as int) =~= content@);
            }
            let runs = runs_of_spans_exec(content, 0, false, false, false);
            Option::Some(WordBlock::Para { heading: *level, runs })
        },
        Block::Paragraph { content } => {
            proof {
                assert(content@.subrange(0, content@.len() as int) =~= content@);
            }
            let runs = runs_of_spans_exec(content, 0, false, false, false);
            Option::Some(WordBlock::Para { heading: 0, runs })
        },
        Block::Table { header, rows } => {
            let mut grid: Vec<Vec<String>> = Vec::new();
            let mut hrow: Vec<String> = Vec::new();
            let mut k: usize = 0;
            while k < header.len()
                invariant
                    k <= header@.len(),
                    hrow@.len() == k,
                    forall|q: int| 0 <= q < k ==> #[trigger] hrow@[q]@ == header@[q]@,
                decreases header@.len() - k,
            {
                hrow.push(chars_to_string(&str_to_chars(header[k].as_str())));
                k = k + 1;
            }
            proof {
                assert(hrow.deep_view() =~~= header.deep_view());
            }
            grid.push(hrow);
            let mut j: usize = 0;
            while j < rows.len()
                invariant
                    j <= rows@.len(),
                    grid@.len() == j + 1,
                    grid@[0].deep_view() == header.deep_view(),
                    forall|q: int| 0 <= q < j ==> #[trigger] grid@[q + 1].deep_view()
                        == rows@[q].deep_view(),
                decreases rows@.len() - j,
            {
                let src = &rows[j];
                let mut row: Vec<String> = Vec::new();
                let mut q: usize = 0;
                while q < src.len()
                    invariant
                        q <= src@.len(),
                        row@.len() == q,
                        forall|p: int| 0 <= p < q ==> #[trigger] row@[p]@ == src@[p]@,
                    decreases src@.len() - q,
                {
                    row.push(chars_to_string(&str_to_chars(src[q].as_str())));
                    q = q + 1;
                }
                proof {
                    assert(row.deep_view() =~~= src.deep_view());
                }
                grid.push(row);
                j = j + 1;
            }
            let t = WordBlock::Table { rows: grid };
            proof {
                let bv = block_view(blocks@[i as int]);
                assert forall|q: int| 0 <= q < t->Table_rows.deep_view().len() implies
                    t->Table_rows.deep_view()[q] == (seq![bv->Table_header] + bv->Table_rows)[
                    q] by {
                    if q >= 1 {
                        assert(grid@[(q - 1) + 1].deep_view() == rows@[q - 1].deep_view());
                    }
                }
                assert(t->Table_rows.deep_view() =~~= seq![bv->Table_header] + bv->Table_rows);
            }
            Option::Some(t)
        },
        Block::Image { alt, src } => {
            Option::Some(WordBlock::Image {
                alt: chars_to_string(&str_to_chars(alt.as_str())),
                src: chars_to_string(&str_to_chars(src.as_str())),
            })
        },
        Block::CodeBlock { lang, lines } => {
            let mut runs: Vec<Run> = Vec::new();
            let mut k: usize = 0;
            while k < lines.len()
                invariant
                    k <= lines@.len(),
                    runs@.len() == k,
                    forall|q: int| 0 <= q < k ==> #[trigger] run_view(runs@[q]) == (RunV {
                        text: lines@[q]@,
                        bold: false,
                        italic: false,
                        strike: false,
                        code: true,
                    }),
                decreases lines@.len() - k,
            {
                runs.push(Run {
                    text: chars_to_string(&str_to_chars(lines[k].as_str())),
                    bold: false,
                    italic: false,
                    strike: false,
                    code: true,
                });
                k = k + 1;
            }
            let p = WordBlock::Para { heading: 0, runs };
            proof {
                let bv = block_view(blocks@[i as int]);
                assert forall|q: int| 0 <= q < p->Para_runs@.len() implies run_view(
                    p->Para_runs@[q]) == code_runs(bv->CodeBlock_lines)[q] by {
                    assert(bv->CodeBlock_lines[q] == lines@[q]@);
                }
                assert(runs_view(p->Para_runs@) =~~= code_runs(bv->CodeBlock_lines));
            }
            Option::Some(p)
        },
        _ => {
            warn.push(Warning::Dropped);
            proof {
                assert(warn@.subrange(0, old(warn)@.len() as int) =~= old(warn)@);
            }
            Option::None
        },
    };
    let ghost w1 = warn@;
    let rest = export_from(blocks, i + 1, warn);
    let ghost rv = rest@;
    let mut r = rest;
    proof {
        crate::mdparse::lemma_warn_extends_trans(warn@, w1, old(warn)@);
    }
    match head {
        Option::Some(wb) => {
            let ghost wv = word_block_view(wb);
            r.insert(0, wb);
            proof {
                assert(r@.drop_first() =~= rv);
                assert(word_blocks_view(r@)[0] == wv);
                assert(word_blocks_view(r@).drop_first() =~= word_blocks_view(rv));
                assert(word_blocks_view(r@) =~~= export_word(blocks_view(tail)));
            }
        },
        Option::None => {
            proof {
                assert(word_blocks_view(r@) =~~= export_word(blocks_view(tail)));
            }
        },
    }
    r
}

} // verus!
