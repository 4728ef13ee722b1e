//! Spreadsheet adapter: maps a workbook (sheets of cell grids) to the
//! document tree and back.  Each sheet becomes one table; with more than one
//! sheet, the sheet name is recorded as a preceding heading.  On export each
//! table becomes one sheet, named by the nearest preceding heading.
use vstd::prelude::*;
use crate::ir::{Block, BlockV, SpanV, Doc, Warning, blocks_view, doc_view, span_view,
    spans_view};
use crate::mdspec::{square_rows, square_row, render_spans};
use crate::mdparse::warn_extends;
use crate::inline::render_spans_from;
use crate::chars::{chars_to_string, str_to_chars};

verus! {

/// One sheet: a name and a grid of cell texts, first row the header.
#[derive(Debug, PartialEq, Eq)]
pub struct Sheet {
    pub name: String,
    pub rows: Vec<Vec<String>>,
}

/// An in-memory spreadsheet container: sheets in order.
#[derive(Debug, PartialEq, Eq)]
pub struct Workbook {
    pub sheets: Vec<Sheet>,
}

/// The mathematical view of one sheet: its name and grid.
pub open spec fn sheet_view(s: Sheet) -> (Seq<char>, Seq<Seq<Seq<char>>>) {
    (s.name@, s.rows.deep_view())
}

pub open spec fn sheets_view(s: Seq<Sheet>) -> Seq<(Seq<char>, Seq<Seq<Seq<char>>>)> {
    Seq::new(s.len(), |i: int| sheet_view(s[i]))
}

/// The blocks one sheet imports to: an optional name heading, then the grid
/// as a table whose rows are squared to the header width.
pub open spec fn sheet_blocks(sh: (Seq<char>, Seq<Seq<Seq<char>>>), with_heading: bool)
    -> Seq<BlockV> {
    let head: Seq<BlockV> = if with_heading {
        seq![
            BlockV::Heading { level: 2u8, content: seq![SpanV::Text { text: sh.0 }] },
        ]
    } else {
        Seq::empty()
    };
    let table: Seq<BlockV> = if sh.1.len() == 0 {
        Seq::empty()
    } else {
        seq![
            BlockV::Table {
                header: sh.1[0],
                rows: square_rows(sh.1[0].len() as int, sh.1.drop_first()),
            },
        ]
    };
    head + table
}

/// What a whole workbook imports to.
pub open spec fn import_workbook(sheets: Seq<(Seq<char>, Seq<Seq<Seq<char>>>)>,
    with_heading: bool) -> Seq<BlockV>
    decreases sheets.len(),
{
    if sheets.len() == 0 {
        Seq::empty()
    } else {
        sheet_blocks(sheets[0], with_heading) + import_workbook(sheets.drop_first(),
            with_heading)
    }
}

/// The default name for a sheet exported from an unnamed table.
pub open spec fn default_sheet_name() -> Seq<char> {
    seq!['S', 'h', 'e', 'e', 't', '1']
}

/// What a document exports to: each table becomes one sheet (header row
/// first), named by the nearest preceding heading; other blocks are dropped.
pub open spec fn export_workbook(blocks: Seq<BlockV>, pending: Seq<char>)
    -> Seq<(Seq<char>, Seq<Seq<Seq<char>>>)>
    decreases blocks.len(),
{
    if blocks.len() == 0 {
        Seq::empty()
    } else {
        match blocks[0] {
            BlockV::Heading { level, content } => export_workbook(blocks.drop_first(),
                render_spans(content)),
            BlockV::Table { header, rows } => seq![(pending, seq![header] + rows)]
                + export_workbook(blocks.drop_first(), default_sheet_name()),
            _ => export_workbook(blocks.drop_first(), pending),
        }
    }
}

/// Builds the per-sheet blocks.
#[verifier::loop_isolation(false)]
fn sheet_to_blocks(sh: &Sheet, with_heading: bool, warn: &mut Vec<Warning>) -> (r: Vec<Block>)
    ensures
        blocks_view(r@) == sheet_blocks(sheet_view(*sh), with_heading),
        warn_extends(final(warn)@, old(warn)@),
{
    proof {
        assert(warn@.subrange(0, warn@.len() as int) =~= warn@);
    }
    let mut r: Vec<Block> = Vec::new();
    if with_heading {
        let name_c = str_to_chars(sh.name.as_str());
        let name_s = chars_to_string(&name_c);
        let sp = crate::ir::Span::Text { text: name_s };
        proof {
            assert(span_view(sp) == (SpanV::Text { text: sh.name@ }));
        }
        let ghost spv = span_view(sp);
        let mut content: Vec<crate::ir::Span> = Vec::new();
        content.push(sp);
        proof {
            assert(content@.len() == 1);
            assert(span_view(content@[0]) == spv);
            assert(spans_view(content@) == seq![span_view(content@[0])] + spans_view(
                content@.drop_first(),
            ));
            assert(content@.drop_first() =~= Seq::<crate::ir::Span>::empty());
            assert(spans_view(content@) =~~= seq![SpanV::Text { text: sh.name@ }]);
        }
        let h = Block::Heading { level: 2, content };
        r.push(h);
    }
    if sh.rows.len() > 0 {
        let width = sh.rows[0].len();
        let mut header: Vec<String> = Vec::new();
        let mut i: usize = 0;
        while i < width
            invariant
                i <= width,
                width == sh.rows@[0]@.len(),
                header@.len() == i,
                forall|k: int| 0 <= k < i ==> #[trigger] header@[k]@ == sh.rows@[0]@[k]@,
            decreases width - i,
        {
            header.push(chars_to_string(&str_to_chars(sh.rows[0][i].as_str())));
            i = i + 1;
        }
        let mut rows: Vec<Vec<String>> = Vec::new();
        let mut j: usize = 1;
        while j < sh.rows.len()
            invariant
                1 <= j <= sh.rows@.len(),
                width == sh.rows@[0]@.len(),
                rows@.len() == j - 1,
                forall|k: int| 0 <= k < j - 1 ==> #[trigger] rows@[k].deep_view() == square_row(
                    width as int,
                    sh.rows@[k + 1].deep_view(),
                ),
                warn_extends(warn@, old(warn)@),
            decreases sh.rows@.len() - j,
        {
            let src = &sh.rows[j];
            let ghost wv = warn@;
            if src.len() < width {
                warn.push(Warning::RowPadded { row: j - 1 });
            } else if src.len() > width {
                warn.push(Warning::RowTruncated { row: j - 1 });
            }
            proof {
                assert(warn@.subrange(0, old(warn)@.len() as int) =~= wv.subrange(
                    0,
                    old(warn)@.len() as int,
                ));
            }
            let mut row: Vec<String> = Vec::new();
            let mut k: usize = 0;
            let take = if src.len() < width {
                src.len()
            } else {
                width
            };
            while k < take
                invariant
                    k <= take,
                    take <= src@.len(),
                    row@.len() == k,
                    forall|q: int| 0 <= q < k ==> #[trigger] row@[q]@ == src@[q]@,
                decreases take - k,
            {
                row.push(chars_to_string(&str_to_chars(src[k].as_str())));
                k = k + 1;
            }
            while row.len() < width
                invariant
                    row@.len() >= take,
                    row@.len() <= width,
                    forall|q: int| 0 <= q < take ==> #[trigger] row@[q]@ == src@[q]@,
                    forall|q: int| take <= q < row@.len() ==> #[trigger] row@[q]@
                        == Seq::<char>::empty(),
                decreases width - row@.len(),
            {
                let e: Vec<char> = Vec::new();
                row.push(chars_to_string(&e));
            }
            proof {
                assert(row.deep_view() =~~= square_row(width as int, src.deep_view()));
            }
            rows.push(row);
            j = j + 1;
        }
        let t = Block::Table { header, rows };
        proof {
            let sv = sheet_view(*sh);
            assert(t->Table_header.deep_view() =~~= sv.1[0]);
            assert forall|k: int| 0 <= k < t->Table_rows.deep_view().len() implies
                t->Table_rows.deep_view()[k] == square_rows(sv.1[0].len() as int,
                sv.1.drop_first())[k] by {
                assert(t->Table_rows.deep_view()[k] == rows@[k].deep_view());
                assert(sv.1.drop_first()[k] == sh.rows@[k + 1].deep_view());
                assert(sv.1[0].len() == width);
            }
            assert(t->Table_rows.deep_view() =~~= square_rows(sv.1[0].len() as int,
                sv.1.drop_first()));
        }
        r.push(t);
    }
    proof {
        let sv = sheet_view(*sh);
        crate::ir::lemma_blocks_view_index(r@);
        assert(blocks_view(r@) =~~= sheet_blocks(sv, with_heading));
    }
    r
}

/// Imports a workbook as a document: one table per sheet, squared rows,
/// sheet-name headings only when the workbook has several sheets.
#[verifier::loop_isolation(false)]
pub fn workbook_to_doc(wb: &Workbook, warn: &mut Vec<Warning>) -> (r: Doc)
    ensures
        doc_view(r) == import_workbook(sheets_view(wb.sheets@), wb.sheets@.len() > 1),
        warn_extends(final(warn)@, old(warn)@),
{
    proof {
        assert(warn@.subrange(0, warn@.len() as int) =~= warn@);
    }
    let with_heading = wb.sheets.len() > 1;
    let mut blocks: Vec<Block> = Vec::new();
    let mut i: usize = 0;
    while i < wb.sheets.len()
        invariant
            i <= wb.sheets@.len(),
            with_heading == (wb.sheets@.len() > 1),
            blocks_view(blocks@) == import_workbook(sheets_view(wb.sheets@).subrange(
                0,
                i as int,
            ), with_heading),
            warn_extends(warn@, old(warn)@),
        decreases wb.sheets@.len() - i,
    {
        let ghost pre = blocks@;
        let ghost w0 = warn@;
        let mut sb = sheet_to_blocks(&wb.sheets[i], with_heading, warn);
        let ghost sbseq = sb@;
        blocks.append(&mut sb);
        proof {
            lemma_warn_extends_prefix(warn@, w0, old(warn)@);
            lemma_blocks_view_concat(pre, sbseq);
            assert(blocks@ =~= pre + sbseq);
            lemma_import_workbook_snoc(sheets_view(wb.sheets@), i as int, with_heading);
            assert(sheets_view(wb.sheets@)[i as int] == sheet_view(wb.sheets@[i as int]));
        }
        i = i + 1;
    }
    proof {
        assert(sheets_view(wb.sheets@).subrange(0, wb.sheets@.len() as int) =~= sheets_view(
            wb.sheets@,
        ));
    }
    Doc { blocks }
}

proof fn lemma_warn_extends_prefix(c: Seq<Warning>, b: Seq<Warning>, a: Seq<Warning>)
    requires
        warn_extends(c, b),
        warn_extends(b, a),
    ensures
        warn_extends(c, a),
{
    crate::mdparse::lemma_warn_extends_trans(c, b, a);
}

/// `blocks_view` distributes over concatenation.
pub proof fn lemma_blocks_view_concat(a: Seq<Block>, b: Seq<Block>)
    ensures
        blocks_view(a + b) == blocks_view(a) + blocks_view(b),
    decreases a.len(),
{
    if a.len() == 0 {
        assert(a + b =~= b);
        assert(blocks_view(a) =~= Seq::<BlockV>::empty());
    } else {
        lemma_blocks_view_concat(a.drop_first(), b);
        assert((a + b).drop_first() =~= a.drop_first() + b);
        assert(blocks_view(a + b) =~= blocks_view(a) + blocks_view(b));
    }
}

/// Extending the sheet prefix by one appends that sheet's blocks.
proof fn lemma_import_workbook_snoc(sheets: Seq<(Seq<char>, Seq<Seq<Seq<char>>>)>, i: int,
    wh: bool)
    requires
        0 <= i < sheets.len(),
    ensures
        import_workbook(sheets.subrange(0, i + 1), wh) == import_workbook(
            sheets.subrange(0, i),
            wh,
        ) + sheet_blocks(sheets[i], wh),
    decreases i,
{
    if i == 0 {
        assert(sheets.subrange(0, 1).drop_first() =~= Seq::<(Seq<char>,
            Seq<Seq<Seq<char>>>)>::empty());
        assert(sheets.subrange(0, 0) =~= Seq::<(Seq<char>, Seq<Seq<Seq<char>>>)>::empty());
        assert(sheets.subrange(0, 1)[0] == sheets[0]);
        assert(import_workbook(sheets.subrange(0, 1), wh) =~= import_workbook(
            sheets.subrange(0, 0),
            wh,
        ) + sheet_blocks(sheets[0], wh));
    } else {
        lemma_import_workbook_snoc(sheets.drop_first(), i - 1, wh);
        assert(sheets.subrange(0, i + 1).drop_first() =~= sheets.drop_first().subrange(0, i));
        assert(sheets.subrange(0, i).drop_first() =~= sheets.drop_first().subrange(0, i - 1));
        assert(sheets.subrange(0, i + 1)[0] == sheets[0]);
        assert(sheets.subrange(0, i)[0] == sheets[0]);
        assert(sheets.drop_first()[i - 1] == sheets[i]);
        assert(import_workbook(sheets.subrange(0, i + 1), wh) =~= import_workbook(
            sheets.subrange(0, i),
            wh,
        ) + sheet_blocks(sheets[i], wh));
    }
}

/// Exports a document as a workbook: one sheet per table, named by the
/// nearest preceding heading; blocks of other kinds are dropped with a
/// warning.
#[verifier::loop_isolation(false)]
pub fn doc_to_workbook(d: &Doc, warn: &mut Vec<Warning>) -> (r: Workbook)
    ensures
        sheets_view(r.sheets@) == export_workbook(doc_view(*d), default_sheet_name()),
        warn_extends(final(warn)@, old(warn)@),
{
    proof {
        assert(warn@.subrange(0, warn@.len() as int) =~= warn@);
        assert(d.blocks@.subrange(0, d.blocks@.len() as int) =~= d.blocks@);
    }
    let mut name: Vec<char> = Vec::new();
    name.push('S');
    name.push('h');
    name.push('e');
    name.push('e');
    name.push('t');
    name.push('1');
    proof {
        assert(name@ =~= default_sheet_name());
    }
    let r = export_sheets(&d.blocks, 0, name, warn);
    Workbook { sheets: r }
}

/// Walks `blocks[i..]`, carrying the pending sheet name.
#[verifier::loop_isolation(false)]
fn export_sheets(blocks: &Vec<Block>, i: usize, pending: Vec<char>, warn: &mut Vec<Warning>)
    -> (r: Vec<Sheet>)
    requires
        i <= blocks@.len(),
    ensures
        sheets_view(r@) == export_workbook(blocks_view(blocks@.subrange(i as int,
            blocks@.len() as int)), pending@),
        warn_extends(final(warn)@, old(warn)@),
    decreases blocks@.len() - i,
{
    proof {
        assert(warn@.subrange(0, warn@.len() as int) =~= warn@);
    }
    let ghost tail = blocks@.subrange(i as int, blocks@.len() as int);
    proof {
        crate::ir::lemma_blocks_view_index(tail);
    }
    if i == blocks.len() {
        let r: Vec<Sheet> = Vec::new();
        proof {
            assert(sheets_view(r@) =~= export_workbook(blocks_view(tail), pending@));
        }
        return r;
    }
    proof {
        assert(tail[0] == blocks@[i as int]);
        assert(tail.drop_first() =~= blocks@.subrange(i + 1, blocks@.len() as int));
        assert(blocks_view(tail).drop_first() =~= blocks_view(tail.drop_first()));
    }
    match &blocks[i] {
        Block::Heading { level, content } => {
            proof {
                assert(content@.subrange(0, content@.len() as int) =~= content@);
            }
            let title = render_spans_from(content, 0);
            let r = export_sheets(blocks, i + 1, title, warn);
            proof {
                assert(sheets_view(r@) == export_workbook(blocks_view(tail), pending@));
            }
            r
        },
        Block::Table { header, rows } => {
            let mut grid: Vec<Vec<String>> = Vec::new();
            let mut hrow: Vec<String> = Vec::new();
            let mut k: usize = 0;
            while k < header.len()
                invariant
                    k <= header@.len(),
                    hrow@.len() == k,
                    forall|q: int| 0 <= q < k ==> #[trigger] hrow@[q]@ == header@[q]@,
                decreases header@.len() - k,
            {
                hrow.push(chars_to_string(&str_to_chars(header[k].as_str())));
                k = k + 1;
            }
            proof {
                assert(hrow.deep_view() =~~= header.deep_view());
            }
            grid.push(hrow);
            let mut j: usize = 0;
            while j < rows.len()
                invariant
                    j <= rows@.len(),
                    grid@.len() == j + 1,
                    grid@[0].deep_view() == header.deep_view(),
                    forall|q: int| 0 <= q < j ==> #[trigger] grid@[q + 1].deep_view()
                        == rows@[q].deep_view(),
                decreases rows@.len() - j,
            {
                let src = &rows[j];
                let mut row: Vec<String> = Vec::new();
                let mut k2: usize = 0;
                while k2 < src.len()
                    invariant
                        k2 <= src@.len(),
                        row@.len() == k2,
                        forall|q: int| 0 <= q < k2 ==> #[trigger] row@[q]@ == src@[q]@,
                    decreases src@.len() - k2,
                {
                    row.push(chars_to_string(&str_to_chars(src[k2].as_str())));
                    k2 = k2 + 1;
                }
                proof {
                    assert(row.deep_view() =~~= src.deep_view());
                }
                grid.push(row);
                j = j + 1;
            }
            let sheet = Sheet { name: chars_to_string(&pending), rows: grid };
            let ghost shv = sheet_view(sheet);
            let mut dflt: Vec<char> = Vec::new();
            dflt.push('S');
            dflt.push('h');
            dflt.push('e');
            dflt.push('e');
            dflt.push('t');
            dflt.push('1');
            proof {
                assert(dflt@ =~= default_sheet_name());
            }
            let ghost w0 = warn@;
            let rest = export_sheets(blocks, i + 1, dflt, warn);
            let ghost rv = rest@;
            let mut r = rest;
            r.insert(0, sheet);
            proof {
                assert(r@.drop_first() =~= rv);
                assert(sheets_view(r@).drop_first() =~= sheets_view(rv));
                assert(sheets_view(r@)[0] == shv);
                assert forall|k: int| 0 <= k < shv.1.len() implies shv.1[k] == (seq![
                    header.deep_view(),
                ] + rows.deep_view())[k] by {
                    if k >= 1 {
                        assert(grid@[(k - 1) + 1].deep_view() == rows@[k - 1].deep_view());
                    }
                }
                assert(shv.1 =~~= seq![header.deep_view()] + rows.deep_view());
                assert(sheets_view(r@) =~~= export_workbook(blocks_view(tail), pending@));
            }
            r
        },
        _ => {
            warn.push(Warning::Dropped);
            proof {
                assert(warn@.subrange(0, old(warn)@.len() as int) =~= old(warn)@);
            }
            let ghost w0 = warn@;
            let r = export_sheets(blocks, i + 1, pending, warn);
            proof {
                crate::mdparse::lemma_warn_extends_trans(warn@, w0, old(warn)@);
                assert(sheets_view(r@) == export_workbook(blocks_view(tail), pending@));
            }
            r
        },
    }
}

} // verus!
