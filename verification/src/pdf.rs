//! Fixed-layout adapter.  Import reads extracted text lines with their
//! detected font sizes and classifies headings by size bands, best effort.
//! Export lays the rendered text flow out sequentially, breaking pages at a
//! fixed content-height threshold.
use vstd::prelude::*;
use crate::ir::{Block, BlockV, Span, SpanV, Doc, Warning, block_view, blocks_view, doc_view,
    span_view, spans_view};
use crate::mdspec::ser_blocks;
use crate::mdser::ser_blocks_from;
use crate::mdparse::warn_extends;
use crate::mdlines::lines_view;
use crate::chars::{chars_to_string, str_to_chars};

verus! {

/// One extracted text line: the dominant font size in points and the text.
#[derive(Debug, PartialEq, Eq)]
pub struct PdfLine {
    pub size: u32,
    pub text: String,
}

/// One page of extracted text.
#[derive(Debug, PartialEq, Eq)]
pub struct PageText {
    pub lines: Vec<PdfLine>,
}

/// An in-memory fixed-layout container.
#[derive(Debug, PartialEq, Eq)]
pub struct PageDoc {
    pub pages: Vec<PageText>,
}

pub open spec fn pdf_line_view(l: PdfLine) -> (u32, Seq<char>) {
    (l.size, l.text@)
}

pub open spec fn page_view(p: PageText) -> Seq<(u32, Seq<char>)> {
    Seq::new(p.lines@.len(), |i: int| pdf_line_view(p.lines@[i]))
}

pub open spec fn pages_view(s: Seq<PageText>) -> Seq<Seq<(u32, Seq<char>)>> {
    Seq::new(s.len(), |i: int| page_view(s[i]))
}

/// The heading level a font size suggests; 0 means body text.  The bands
/// are a tunable heuristic, not a correctness contract.
pub open spec fn level_for_size(size: u32) -> u8 {
    if size >= 24 {
        1u8
    } else if size >= 18 {
        2u8
    } else if size >= 14 {
        3u8
    } else {
        0u8
    }
}

/// The block one extracted line imports to; empty lines disappear.
pub open spec fn line_block(l: (u32, Seq<char>)) -> Seq<BlockV> {
    if l.1.len() == 0 {
        Seq::empty()
    } else if level_for_size(l.0) == 0 {
        seq![BlockV::Paragraph { content: seq![SpanV::Text { text: l.1 }] }]
    } else {
        seq![
            BlockV::Heading {
                level: level_for_size(l.0),
                content: seq![SpanV::Text { text: l.1 }],
            },
        ]
    }
}

pub open spec fn import_page(lines: Seq<(u32, Seq<char>)>) -> Seq<BlockV>
    decreases lines.len(),
{
    if lines.len() == 0 {
        Seq::empty()
    } else {
        line_block(lines[0]) + import_page(lines.drop_first())
    }
}

pub open spec fn import_pages(pages: Seq<Seq<(u32, Seq<char>)>>) -> Seq<BlockV>
    decreases pages.len(),
{
    if pages.len() == 0 {
        Seq::empty()
    } else {
        import_page(pages[0]) + import_pages(pages.drop_first())
    }
}

/// How many text lines fit on one exported page.
pub open spec fn page_capacity() -> int {
    40
}

/// The exported body font size in points.
pub open spec fn body_size() -> u32 {
    12u32
}

/// Splits the rendered text flow into pages of at most `page_capacity`
/// lines.
pub open spec fn paginate(lines: Seq<Seq<char>>) -> Seq<Seq<(u32, Seq<char>)>>
    decreases lines.len(),
{
    if lines.len() == 0 {
        Seq::empty()
    } else if lines.len() <= page_capacity() {
        seq![lines.map(|i: int, l: Seq<char>| (body_size(), l))]
    } else {
        seq![
            lines.subrange(0, page_capacity()).map(|i: int, l: Seq<char>| (body_size(), l)),
        ] + paginate(lines.subrange(page_capacity(), lines.len() as int))
    }
}

/// What a document exports to: its rendered lines, paginated.
pub open spec fn export_pages(blocks: Seq<BlockV>) -> Seq<Seq<(u32, Seq<char>)>> {
    paginate(ser_blocks(blocks))
}

/// No page of an export exceeds the content-height threshold, and the
/// pages carry the rendered lines in order, nothing more.
pub proof fn lemma_paginate_shape(lines: Seq<Seq<char>>)
    ensures
        forall|i: int| 0 <= i < paginate(lines).len() ==> 0 < #[trigger] paginate(
            lines,
        )[i].len() <= page_capacity(),
        flatten_pages(paginate(lines)) == lines.map(|i: int, l: Seq<char>| (body_size(), l)),
    decreases lines.len(),
{
    if lines.len() == 0 {
        assert(flatten_pages(paginate(lines)) =~= lines.map(|i: int, l: Seq<char>| (
            body_size(),
            l,
        )));
    } else if lines.len() <= page_capacity() {
        let pg = paginate(lines);
        assert(pg.drop_first() =~= Seq::<Seq<(u32, Seq<char>)>>::empty());
        assert(flatten_pages(pg.drop_first()) =~= Seq::<(u32, Seq<char>)>::empty());
        assert(pg[0] == lines.map(|i: int, l: Seq<char>| (body_size(), l)));
        assert(flatten_pages(pg) == pg[0] + flatten_pages(pg.drop_first()));
        assert(flatten_pages(paginate(lines)) =~= lines.map(|i: int, l: Seq<char>| (
            body_size(),
            l,
        )));
    } else {
        let rest = lines.subrange(page_capacity(), lines.len() as int);
        lemma_paginate_shape(rest);
        let pg = paginate(lines);
        let head = lines.subrange(0, page_capacity()).map(|i: int, l: Seq<char>| (
            body_size(),
            l,
        ));
        assert(pg[0] == head);
        assert(pg.drop_first() =~= paginate(rest));
        assert(flatten_pages(pg) == pg[0] + flatten_pages(pg.drop_first()));
        assert(flatten_pages(paginate(lines)) =~= head + flatten_pages(paginate(rest)));
        assert(flatten_pages(paginate(lines)) =~= lines.map(|i: int, l: Seq<char>| (
            body_size(),
            l,
        )));
    }
}

pub open spec fn flatten_pages(pages: Seq<Seq<(u32, Seq<char>)>>) -> Seq<(u32, Seq<char>)>
    decreases pages.len(),
{
    if pages.len() == 0 {
        Seq::empty()
    } else {
        pages[0] + flatten_pages(pages.drop_first())
    }
}

/// Imports extracted pages as a document.
#[verifier::loop_isolation(false)]
pub fn pages_to_doc(pd: &PageDoc, warn: &mut Vec<Warning>) -> (r: Doc)
    ensures
        doc_view(r) == import_pages(pages_view(pd.pages@)),
        warn_extends(final(warn)@, old(warn)@),
{
    proof {
        assert(warn@.subrange(0, warn@.len() as int) =~= warn@);
    }
    let mut blocks: Vec<Block> = Vec::new();
    let mut i: usize = 0;
    while i < pd.pages.len()
        invariant
            i <= pd.pages@.len(),
            blocks_view(blocks@) == import_pages(pages_view(pd.pages@).subrange(0, i as int)),
        decreases pd.pages@.len() - i,
    {
        let page = &pd.pages[i];
        let ghost page_pre = blocks@;
        let mut j: usize = 0;
        while j < page.lines.len()
            invariant
                j <= page.lines@.len(),
                blocks_view(blocks@) == import_pages(pages_view(pd.pages@).subrange(
                    0,
                    i as int,
                )) + import_page(page_view(pd.pages@[i as int]).subrange(0, j as int)),
            decreases page.lines@.len() - j,
        {
            let ghost pre = blocks@;
            let line = &page.lines[j];
            let n = line.text.unicode_len();
            if n > 0 {
                let text = chars_to_string(&str_to_chars(line.text.as_str()));
                let mut content: Vec<Span> = Vec::new();
                content.push(Span::Text { text });
                proof {
                    assert(content@.drop_first() =~= Seq::<Span>::empty());
                    assert(spans_view(Seq::<Span>::empty()) =~= Seq::<SpanV>::empty());
                    assert(span_view(content@[0]) == (SpanV::Text { text: line.text@ }));
                    assert(spans_view(content@) == seq![span_view(content@[0])] + spans_view(
                        content@.drop_first(),
                    ));
                    assert(spans_view(content@) =~~= seq![SpanV::Text { text: line.text@ }]);
                }
                let lvl = if line.size >= 24 {
                    1u8
                } else if line.size >= 18 {
                    2u8
                } else if line.size >= 14 {
                    3u8
                } else {
                    0u8
                };
                let bl = if lvl == 0 {
                    Block::Paragraph { content }
                } else {
                    Block::Heading { level: lvl, content }
                };
                let ghost bv = block_view(bl);
                blocks.push(bl);
                proof {
                    let one = seq![blocks@[pre.len() as int]];
                    crate::xlsx::lemma_blocks_view_concat(pre, one);
                    assert(blocks@ =~= pre + one);
                    crate::ir::lemma_blocks_view_index(one);
                    assert(block_view(one[0]) == bv);
                    assert(blocks_view(one) =~~= line_block(page_view(pd.pages@[i as int])[
                        j as int
                    ]));
                }
            } else {
                proof {
                    assert(line_block(page_view(pd.pages@[i as int])[j as int])
                        =~= Seq::<BlockV>::empty());
                    assert(blocks@ =~= pre + Seq::<Block>::empty());
                    crate::xlsx::lemma_blocks_view_concat(pre, Seq::<Block>::empty());
                }
            }
            proof {
                lemma_import_page_snoc(page_view(pd.pages@[i as int]), j as int);
            }
            j = j + 1;
        }
        proof {
            lemma_import_pages_snoc(pages_view(pd.pages@), i as int);
            assert(page_view(pd.pages@[i as int]).subrange(0, page.lines@.len() as int)
                =~= page_view(pd.pages@[i as int]));
            assert(pages_view(pd.pages@)[i as int] == page_view(pd.pages@[i as int]));
        }
        i = i + 1;
    }
    proof {
        assert(pages_view(pd.pages@).subrange(0, pd.pages@.len() as int) =~= pages_view(
            pd.pages@,
        ));
    }
    Doc { blocks }
}

proof fn lemma_import_page_snoc(lines: Seq<(u32, Seq<char>)>, j: int)
    requires
        0 <= j < lines.len(),
    ensures
        import_page(lines.subrange(0, j + 1)) == import_page(lines.subrange(0, j))
            + line_block(lines[j]),
    decreases j,
{
    if j == 0 {
        assert(lines.subrange(0, 1).drop_first() =~= Seq::<(u32, Seq<char>)>::empty());
        assert(lines.subrange(0, 0) =~= Seq::<(u32, Seq<char>)>::empty());
        assert(lines.subrange(0, 1)[0] == lines[0]);
        assert(import_page(lines.subrange(0, 1)) =~= import_page(lines.subrange(0, 0))
            + line_block(lines[0]));
    } else {
        lemma_import_page_snoc(lines.drop_first(), j - 1);
        assert(lines.subrange(0, j + 1).drop_first() =~= lines.drop_first().subrange(0, j));
        assert(lines.subrange(0, j).drop_first() =~= lines.drop_first().subrange(0, j - 1));
        assert(lines.subrange(0, j + 1)[0] == lines[0]);
        assert(lines.subrange(0, j)[0] == lines[0]);
        assert(lines.drop_first()[j - 1] == lines[j]);
        assert(import_page(lines.subrange(0, j + 1)) =~= import_page(lines.subrange(0, j))
            + line_block(lines[j]));
    }
}

proof fn lemma_import_pages_snoc(pages: Seq<Seq<(u32, Seq<char>)>>, i: int)
    requires
        0 <= i < pages.len(),
    ensures
        import_pages(pages.subrange(0, i + 1)) == import_pages(pages.subrange(0, i))
            + import_page(pages[i]),
    decreases i,
{
    if i == 0 {
        assert(pages.subrange(0, 1).drop_first() =~= Seq::<Seq<(u32, Seq<char>)>>::empty());
        assert(pages.subrange(0, 0) =~= Seq::<Seq<(u32, Seq<char>)>>::empty());
        assert(pages.subrange(0, 1)[0] == pages[0]);
        assert(import_pages(pages.subrange(0, 1)) =~= import_pages(pages.subrange(0, 0))
            + import_page(pages[0]));
    } else {
        lemma_import_pages_snoc(pages.drop_first(), i - 1);
        assert(pages.subrange(0, i + 1).drop_first() =~= pages.drop_first().subrange(0, i));
        assert(pages.subrange(0, i).drop_first() =~= pages.drop_first().subrange(0, i - 1));
        assert(pages.subrange(0, i + 1)[0] == pages[0]);
        assert(pages.subrange(0, i)[0] == pages[0]);
        assert(pages.drop_first()[i - 1] == pages[i]);
        assert(import_pages(pages.subrange(0, i + 1)) =~= import_pages(pages.subrange(0, i))
            + import_page(pages[i]));
    }
}

/// Exports a document as laid-out pages.
#[verifier::loop_isolation(false)]
pub fn doc_to_pages(d: &Doc, warn: &mut Vec<Warning>) -> (r: PageDoc)
    ensures
        pages_view(r.pages@) == export_pages(doc_view(*d)),
        warn_extends(final(warn)@, old(warn)@),
{
    proof {
        assert(warn@.subrange(0, warn@.len() as int) =~= warn@);
        assert(d.blocks@.subrange(0, d.blocks@.len() as int) =~= d.blocks@);
    }
    let flow = ser_blocks_from(&d.blocks, 0);
    proof {
        assert(lines_view(flow@).subrange(0, flow@.len() as int) =~= lines_view(flow@));
    }
    let pages = paginate_exec(&flow, 0);
    proof {
        assert(pages_view(pages@) == export_pages(doc_view(*d)));
    }
    PageDoc { pages }
}

/// Splits the flow `lines[i..]` into pages.
#[verifier::loop_isolation(false)]
fn paginate_exec(lines: &Vec<Vec<char>>, i: usize) -> (r: Vec<PageText>)
    requires
        i <= lines@.len(),
    ensures
        pages_view(r@) == paginate(lines_view(lines@).subrange(i as int, lines@.len() as int)),
    decreases lines@.len() - i,
{
    let ghost tail = lines_view(lines@).subrange(i as int, lines@.len() as int);
    if i == lines.len() {
        let r: Vec<PageText> = Vec::new();
        proof {
            assert(pages_view(r@) =~= paginate(tail));
        }
        return r;
    }
    let remaining = lines.len() - i;
    let take = if remaining <= 40 {
        remaining
    } else {
        40
    };
    let mut page_lines: Vec<PdfLine> = Vec::new();
    let mut j: usize = 0;
    while j < take
        invariant
            j <= take,
            i + take <= lines@.len(),
            page_lines@.len() == j,
            forall|k: int| 0 <= k < j ==> #[trigger] pdf_line_view(page_lines@[k]) == (
            body_size(), lines@[i + k]@),
        decreases take - j,
    {
        page_lines.push(PdfLine {
            size: 12,
            text: chars_to_string(&crate::mdlines::copy_line(&lines[i + j])),
        });
        j = j + 1;
    }
    let page = PageText { lines: page_lines };
    let ghost pgv = page_view(page);
    if remaining <= 40 {
        let mut r: Vec<PageText> = Vec::new();
        r.push(page);
        proof {
            assert(pages_view(r@).len() == 1);
            assert(pages_view(r@)[0] == pgv);
            assert forall|k: int| 0 <= k < pgv.len() implies pgv[k] == tail.map(
                |q: int, l: Seq<char>| (body_size(), l),
            )[k] by {
                assert(pdf_line_view(page.lines@[k]) == (body_size(), lines@[i + k]@));
                assert(tail[k] == lines@[i + k]@);
            }
            assert(pgv =~~= tail.map(|q: int, l: Seq<char>| (body_size(), l)));
            assert(pages_view(r@) =~~= paginate(tail));
        }
        r
    } else {
        let rest = paginate_exec(lines, i + 40);
        let ghost rv = rest@;
        let mut r = rest;
        r.insert(0, page);
        proof {
            assert(r@.drop_first() =~= rv);
            assert(pages_view(r@).drop_first() =~= pages_view(rv));
            assert(pages_view(r@)[0] == pgv);
            let head = tail.subrange(0, page_capacity());
            assert forall|k: int| 0 <= k < pgv.len() implies pgv[k] == head.map(
                |q: int, l: Seq<char>| (body_size(), l),
            )[k] by {
                assert(pdf_line_view(page.lines@[k]) == (body_size(), lines@[i + k]@));
                assert(head[k] == lines@[i + k]@);
            }
            assert(pgv =~~= head.map(|q: int, l: Seq<char>| (body_size(), l)));
            assert(tail.subrange(page_capacity(), tail.len() as int) =~= lines_view(
                lines@,
            ).subrange(i + 40, lines@.len() as int));
            assert(pages_view(r@) =~~= paginate(tail));
        }
        r
    }
}

} // verus!
