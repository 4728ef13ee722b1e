//! Executable Markdown serializer: renders a block tree into lines and then
//! into text, proved to compute exactly the spec-level `ser_blocks` and
//! `md_render` functions.
use vstd::prelude::*;
use crate::ir::{Block, ListItem, Doc, block_view, blocks_view, item_view, items_view,
    doc_view};
use crate::mdspec::{ser_block, ser_blocks, ser_item, ser_bullet_items, ser_ordered_items,
    render_spans, repeat_char, quote_all, indent2_all, fence_exact, lang_chars, render_row,
    row_tail, sep_row, sep_tail, join_nl, md_render, content_of};
use crate::inline::render_spans_from;
use crate::chars::str_to_chars;
use crate::mdlines::{lines_view, copy_line};

verus! {

/// `n` copies of `#`.
fn hashes(n: usize) -> (r: Vec<char>)
    ensures
        r@ == repeat_char('#', n as int),
{
    let mut r: Vec<char> = Vec::new();
    let mut i: usize = 0;
    while i < n
        invariant
            i <= n,
            r@.len() == i,
            forall|k: int| 0 <= k < i ==> r@[k] == '#',
        decreases n - i,
    {
        r.push('#');
        i = i + 1;
    }
    proof {
        assert(r@ =~= repeat_char('#', n as int));
    }
    r
}

/// The cells of one table row, rendered as ` cell |` pieces.
fn row_tail_exec(cells: &Vec<String>, i: usize) -> (r: Vec<char>)
    requires
        i <= cells@.len(),
    ensures
        r@ == row_tail(cells.deep_view().subrange(i as int, cells@.len() as int)),
    decreases cells@.len() - i,
{
    let ghost tail = cells.deep_view().subrange(i as int, cells@.len() as int);
    let mut r: Vec<char> = Vec::new();
    if i == cells.len() {
        proof {
            assert(tail =~= Seq::<Seq<char>>::empty());
        }
        return r;
    }
    r.push(' ');
    let mut cc = str_to_chars(cells[i].as_str());
    r.append(&mut cc);
    r.push(' ');
    r.push('|');
    let mut rest = row_tail_exec(cells, i + 1);
    r.append(&mut rest);
    proof {
        assert(tail[0] == cells.deep_view()[i as int]);
        assert(tail.drop_first() =~= cells.deep_view().subrange(i + 1, cells@.len() as int));
        assert(r@ =~= row_tail(tail));
    }
    r
}

/// A full table row line.
fn render_row_exec(cells: &Vec<String>) -> (r: Vec<char>)
    ensures
        r@ == render_row(cells.deep_view()),
{
    let mut r: Vec<char> = Vec::new();
    r.push('|');
    let mut t = row_tail_exec(cells, 0);
    r.append(&mut t);
    proof {
        assert(cells.deep_view().subrange(0, cells@.len() as int) =~= cells.deep_view());
        assert(r@ =~= render_row(cells.deep_view()));
    }
    r
}

/// The header separator line for `n` columns.
fn sep_row_exec(n: usize) -> (r: Vec<char>)
    ensures
        r@ == sep_row(n as int),
{
    let mut r: Vec<char> = Vec::new();
    r.push('|');
    let mut i: usize = 0;
    while i < n
        invariant
            i <= n,
            r@ == seq!['|'] + sep_tail(i as int),
        decreases n - i,
    {
        proof {
            lemma_sep_tail_snoc(i as int);
        }
        r.push(' ');
        r.push('-');
        r.push('-');
        r.push('-');
        r.push(' ');
        r.push('|');
        i = i + 1;
        proof {
            assert(r@ =~= seq!['|'] + sep_tail(i as int));
        }
    }
    r
}

proof fn lemma_sep_tail_snoc(n: int)
    requires
        n >= 0,
    ensures
        sep_tail(n + 1) =~= sep_tail(n) + seq![' ', '-', '-', '-', ' ', '|'],
    decreases n,
{
    if n > 0 {
        lemma_sep_tail_snoc(n - 1);
    }
}

/// One level of blockquote marking.
fn quote_lines(inner: Vec<Vec<char>>) -> (r: Vec<Vec<char>>)
    ensures
        lines_view(r@) == quote_all(lines_view(inner@)),
{
    let mut r: Vec<Vec<char>> = Vec::new();
    let mut i: usize = 0;
    while i < inner.len()
        invariant
            i <= inner@.len(),
            r@.len() == i,
            forall|k: int| 0 <= k < i ==> #[trigger] r@[k]@ == seq!['>', ' '] + inner@[k]@,
        decreases inner@.len() - i,
    {
        let mut nl: Vec<char> = Vec::new();
        nl.push('>');
        nl.push(' ');
        let mut body = copy_line(&inner[i]);
        nl.append(&mut body);
        proof {
            assert(nl@ =~~= seq!['>', ' '] + inner@[i as int]@);
        }
        r.push(nl);
        i = i + 1;
    }
    proof {
        assert(lines_view(r@) =~~= quote_all(lines_view(inner@)));
    }
    r
}

/// One level of list indentation.
fn indent_lines(inner: Vec<Vec<char>>) -> (r: Vec<Vec<char>>)
    ensures
        lines_view(r@) == indent2_all(lines_view(inner@)),
{
    let mut r: Vec<Vec<char>> = Vec::new();
    let mut i: usize = 0;
    while i < inner.len()
        invariant
            i <= inner@.len(),
            r@.len() == i,
            forall|k: int| 0 <= k < i ==> #[trigger] r@[k]@ == seq![' ', ' '] + inner@[k]@,
        decreases inner@.len() - i,
    {
        let mut nl: Vec<char> = Vec::new();
        nl.push(' ');
        nl.push(' ');
        let mut body = copy_line(&inner[i]);
        nl.append(&mut body);
        proof {
            assert(nl@ =~~= seq![' ', ' '] + inner@[i as int]@);
        }
        r.push(nl);
        i = i + 1;
    }
    proof {
        assert(lines_view(r@) =~~= indent2_all(lines_view(inner@)));
    }
    r
}

/// Renders one block as lines.
pub fn ser_block_exec(b: &Block) -> (r: Vec<Vec<char>>)
    ensures
        lines_view(r@) == ser_block(block_view(*b)),
    decreases *b, 1int,
{
    let mut r: Vec<Vec<char>> = Vec::new();
    match b {
        Block::Heading { level, content } => {
            let mut line = hashes(*level as usize);
            line.push(' ');
            proof {
                assert(content@.subrange(0, content@.len() as int) =~= content@);
            }
            let mut body = render_spans_from(content, 0);
            line.append(&mut body);
            r.push(line);
            proof {
                assert(lines_view(r@) =~~= ser_block(block_view(*b)));
            }
        },
        Block::Paragraph { content } => {
            proof {
                assert(content@.subrange(0, content@.len() as int) =~= content@);
            }
            let line = render_spans_from(content, 0);
            r.push(line);
            proof {
                assert(lines_view(r@) =~~= ser_block(block_view(*b)));
            }
        },
        Block::BulletList { items } => {
            proof {
                assert(decreases_to!(*b => items));
                assert(items@.subrange(0, items@.len() as int) =~= items@);
            }
            r = ser_bullet_items_exec(items, 0);
            proof {
                assert(items_view(items@.subrange(0, items@.len() as int)) =~= items_view(
                    items@,
                ));
            }
        },
        Block::OrderedList { items } => {
            proof {
                assert(decreases_to!(*b => items));
                assert(items@.subrange(0, items@.len() as int) =~= items@);
            }
            r = ser_ordered_items_exec(items, 0);
            proof {
                assert(items_view(items@.subrange(0, items@.len() as int)) =~= items_view(
                    items@,
                ));
            }
        },
        Block::Blockquote { blocks } => {
            proof {
                assert(decreases_to!(*b => blocks));
                assert(blocks@.subrange(0, blocks@.len() as int) =~= blocks@);
            }
            let inner = ser_blocks_from(blocks, 0);
            r = quote_lines(inner);
            proof {
                assert(blocks_view(blocks@.subrange(0, blocks@.len() as int)) =~= blocks_view(
                    blocks@,
                ));
            }
        },
        Block::CodeBlock { lang, lines } => {
            let mut open: Vec<char> = Vec::new();
            open.push('`');
            open.push('`');
            open.push('`');
            match lang {
                Option::Some(l) => {
                    let mut lc = str_to_chars(l.as_str());
                    open.append(&mut lc);
                },
                Option::None => {},
            }
            proof {
                assert(open@ =~= fence_exact() + lang_chars(block_view(*b)->CodeBlock_lang));
            }
            r.push(open);
            let mut i: usize = 0;
            while i < lines.len()
                invariant
                    i <= lines@.len(),
                    r@.len() == i + 1,
                    r@[0]@ == fence_exact() + lang_chars(block_view(*b)->CodeBlock_lang),
                    forall|k: int| 0 <= k < i ==> #[trigger] r@[k + 1]@ == lines@[k]@,
                decreases lines@.len() - i,
            {
                let lc = str_to_chars(lines[i].as_str());
                r.push(lc);
                i = i + 1;
            }
            let mut close: Vec<char> = Vec::new();
            close.push('`');
            close.push('`');
            close.push('`');
            proof {
                assert(close@ =~= fence_exact());
            }
            r.push(close);
            proof {
                let bv = block_view(*b);
                let svb = ser_block(bv);
                let n = lines@.len() as int;
                assert(lines.deep_view().len() == n);
                assert(svb == seq![fence_exact() + lang_chars(bv->CodeBlock_lang)]
                    + lines.deep_view() + seq![fence_exact()]);
                assert(lines_view(r@).len() == n + 2);
                assert forall|k: int| 0 <= k < n + 2 implies lines_view(r@)[k] =~= svb[k] by {
                    assert(lines_view(r@)[k] == r@[k]@);
                    if k == 0 {
                        assert(svb[0] == fence_exact() + lang_chars(bv->CodeBlock_lang));
                    } else if k < n + 1 {
                        assert(svb[k] == lines.deep_view()[k - 1]);
                        assert(lines.deep_view()[k - 1] == lines@[k - 1].deep_view());
                        assert(r@[(k - 1) + 1]@ == lines@[k - 1]@);
                    } else {
                        assert(svb[k] == fence_exact());
                        assert(r@[k]@ =~= fence_exact());
                    }
                }
                assert(lines_view(r@) =~~= svb);
            }
        },
        Block::Table { header, rows } => {
            let hl = render_row_exec(header);
            r.push(hl);
            let sl = sep_row_exec(header.len());
            r.push(sl);
            let mut i: usize = 0;
            while i < rows.len()
                invariant
                    i <= rows@.len(),
                    r@.len() == i + 2,
                    r@[0]@ == render_row(header.deep_view()),
                    r@[1]@ == sep_row(header.deep_view().len() as int),
                    forall|k: int| 0 <= k < i ==> #[trigger] r@[k + 2]@ == render_row(
                        rows@[k].deep_view(),
                    ),
                decreases rows@.len() - i,
            {
                let rl = render_row_exec(&rows[i]);
                r.push(rl);
                i = i + 1;
            }
            proof {
                let bv = block_view(*b);
                let rmap = rows.deep_view().map(|q: int, rr: Seq<Seq<char>>| render_row(rr));
                let svb = ser_block(bv);
                let n = rows@.len() as int;
                assert(rows.deep_view().len() == n);
                assert(svb == seq![
                    render_row(header.deep_view()),
                    sep_row(header.deep_view().len() as int),
                ] + rmap);
                assert(lines_view(r@).len() == svb.len());
                assert forall|k: int| 0 <= k < lines_view(r@).len() implies lines_view(r@)[k]
                    == svb[k] by {
                    assert(lines_view(r@)[k] == r@[k]@);
                    if k >= 2 {
                        assert(rows.deep_view()[k - 2] == rows@[k - 2].deep_view());
                        assert(rmap[k - 2] == render_row(rows.deep_view()[k - 2]));
                        assert(svb[k] == rmap[k - 2]);
                        assert(r@[(k - 2) + 2]@ == render_row(rows@[k - 2].deep_view()));
                    }
                }
                assert(lines_view(r@) =~~= svb);
            }
        },
        Block::HorizontalRule => {
            let mut line: Vec<char> = Vec::new();
            line.push('-');
            line.push('-');
            line.push('-');
            proof {
                assert(line@ =~= seq!['-', '-', '-']);
            }
            r.push(line);
            proof {
                assert(lines_view(r@) =~~= ser_block(block_view(*b)));
            }
        },
        Block::Image { alt, src } => {
            let mut line: Vec<char> = Vec::new();
            line.push('!');
            line.push('[');
            let mut ac = str_to_chars(alt.as_str());
            line.append(&mut ac);
            line.push(']');
            line.push('(');
            let mut sc = str_to_chars(src.as_str());
            line.append(&mut sc);
            line.push(')');
            proof {
                assert(line@ =~= seq!['!', '['] + alt@ + seq![']', '('] + src@ + seq![')']);
            }
            r.push(line);
            proof {
                assert(lines_view(r@) =~~= ser_block(block_view(*b)));
            }
        },
    }
    r
}

/// Renders one list item under the given marker.
fn ser_item_exec(marker: Vec<char>, it: &ListItem) -> (r: Vec<Vec<char>>)
    ensures
        lines_view(r@) == ser_item(marker@, item_view(*it)),
    decreases *it, 3int,
{
    proof {
        crate::ir::lemma_blocks_view_index(it.blocks@);
        assert(decreases_to!(*it => it.blocks));
    }
    let mut r: Vec<Vec<char>> = Vec::new();
    let is_para_first = if it.blocks.len() > 0 {
        match &it.blocks[0] {
            Block::Paragraph { .. } => true,
            _ => false,
        }
    } else {
        false
    };
    if is_para_first {
        let mut head = marker;
        match &it.blocks[0] {
            Block::Paragraph { content } => {
                proof {
                    assert(content@.subrange(0, content@.len() as int) =~= content@);
                }
                let mut body = render_spans_from(content, 0);
                head.append(&mut body);
                proof {
                    assert(head@ =~= marker@ + render_spans(content_of(item_view(*it)[0])));
                }
            },
            _ => {
                proof {
                    assert(false);
                }
            },
        }
        r.push(head);
        proof {
            assert(it.blocks@.subrange(1, it.blocks@.len() as int) =~= it.blocks@.drop_first());
        }
        let inner = ser_blocks_from(&it.blocks, 1);
        let mut tail = indent_lines(inner);
        let ghost pre = r@;
        let ghost tl = lines_view(tail@);
        r.append(&mut tail);
        proof {
            assert(blocks_view(it.blocks@.drop_first()) =~= item_view(*it).drop_first());
            assert(lines_view(r@) =~~= lines_view(pre) + tl);
            assert(lines_view(r@) =~~= ser_item(marker@, item_view(*it)));
        }
    } else {
        r.push(marker);
        proof {
            assert(it.blocks@.subrange(0, it.blocks@.len() as int) =~= it.blocks@);
        }
        let inner = ser_blocks_from(&it.blocks, 0);
        let mut tail = indent_lines(inner);
        let ghost pre = r@;
        let ghost tl = lines_view(tail@);
        r.append(&mut tail);
        proof {
            if item_view(*it).len() > 0 {
                assert(item_view(*it)[0] == block_view(it.blocks@[0]));
            }
            assert(lines_view(r@) =~~= lines_view(pre) + tl);
            assert(lines_view(r@) =~~= ser_item(marker@, item_view(*it)));
        }
    }
    r
}

/// Renders the bullet items `items[i..]`.
fn ser_bullet_items_exec(items: &Vec<ListItem>, i: usize) -> (r: Vec<Vec<char>>)
    requires
        i <= items@.len(),
    ensures
        lines_view(r@) == ser_bullet_items(items_view(items@.subrange(i as int, items@.len() as int))),
    decreases items@.subrange(i as int, items@.len() as int), 4int,
{
    let ghost tail = items@.subrange(i as int, items@.len() as int);
    proof {
        crate::ir::lemma_items_view_index(tail);
    }
    if i == items.len() {
        let r: Vec<Vec<char>> = Vec::new();
        proof {
            assert(lines_view(r@) =~~= ser_bullet_items(items_view(tail)));
        }
        return r;
    }
    proof {
        assert(tail[0] == items@[i as int]);
        assert(decreases_to!(tail => tail[0]));
        assert(tail.drop_first() =~= items@.subrange(i + 1, items@.len() as int));
    }
    let mut marker: Vec<char> = Vec::new();
    marker.push('-');
    marker.push(' ');
    proof {
        assert(marker@ =~= seq!['-', ' ']);
    }
    let mut r = ser_item_exec(marker, &items[i]);
    let mut rest = ser_bullet_items_exec(items, i + 1);
    let ghost pre = lines_view(r@);
    let ghost rl = lines_view(rest@);
    r.append(&mut rest);
    proof {
        assert(items_view(tail) == seq![item_view(tail[0])] + items_view(tail.drop_first()));
        assert(items_view(tail).drop_first() =~= items_view(tail.drop_first()));
        assert(lines_view(r@) =~~= pre + rl);
        assert(lines_view(r@) =~~= ser_bullet_items(items_view(tail)));
    }
    r
}

/// Renders the ordered items `items[i..]`; every marker is `1. `, which
/// Markdown renumbers on display.
fn ser_ordered_items_exec(items: &Vec<ListItem>, i: usize) -> (r: Vec<Vec<char>>)
    requires
        i <= items@.len(),
    ensures
        lines_view(r@) == ser_ordered_items(items_view(items@.subrange(i as int, items@.len() as int))),
    decreases items@.subrange(i as int, items@.len() as int), 4int,
{
    let ghost tail = items@.subrange(i as int, items@.len() as int);
    proof {
        crate::ir::lemma_items_view_index(tail);
    }
    if i == items.len() {
        let r: Vec<Vec<char>> = Vec::new();
        proof {
            assert(lines_view(r@) =~~= ser_ordered_items(items_view(tail)));
        }
        return r;
    }
    proof {
        assert(tail[0] == items@[i as int]);
        assert(decreases_to!(tail => tail[0]));
        assert(tail.drop_first() =~= items@.subrange(i + 1, items@.len() as int));
    }
    let mut marker: Vec<char> = Vec::new();
    marker.push('1');
    marker.push('.');
    marker.push(' ');
    proof {
        assert(marker@ =~= seq!['1', '.', ' ']);
    }
    let mut r = ser_item_exec(marker, &items[i]);
    let mut rest = ser_ordered_items_exec(items, i + 1);
    let ghost pre = lines_view(r@);
    let ghost rl = lines_view(rest@);
    r.append(&mut rest);
    proof {
        assert(items_view(tail) == seq![item_view(tail[0])] + items_view(tail.drop_first()));
        assert(items_view(tail).drop_first() =~= items_view(tail.drop_first()));
        assert(lines_view(r@) =~~= pre + rl);
        assert(lines_view(r@) =~~= ser_ordered_items(items_view(tail)));
    }
    r
}

/// Renders the blocks `blocks[i..]` as lines, one blank line between blocks.
pub fn ser_blocks_from(blocks: &Vec<Block>, i: usize) -> (r: Vec<Vec<char>>)
    requires
        i <= blocks@.len(),
    ensures
        lines_view(r@) == ser_blocks(blocks_view(blocks@.subrange(i as int, blocks@.len() as int))),
    decreases blocks@.subrange(i as int, blocks@.len() as int), 2int,
{
    let ghost tail = blocks@.subrange(i as int, blocks@.len() as int);
    proof {
        crate::ir::lemma_blocks_view_index(tail);
    }
    if i == blocks.len() {
        let r: Vec<Vec<char>> = Vec::new();
        proof {
            assert(lines_view(r@) =~~= ser_blocks(blocks_view(tail)));
        }
        return r;
    }
    proof {
        assert(tail[0] == blocks@[i as int]);
        assert(decreases_to!(tail => tail[0]));
        assert(tail.drop_first() =~= blocks@.subrange(i + 1, blocks@.len() as int));
    }
    let mut r = ser_block_exec(&blocks[i]);
    if i + 1 < blocks.len() {
        let blank: Vec<char> = Vec::new();
        r.push(blank);
        let mut rest = ser_blocks_from(blocks, i + 1);
        let ghost pre = lines_view(r@);
        let ghost rl = lines_view(rest@);
        r.append(&mut rest);
        proof {
            assert(blocks_view(tail).drop_first() =~= blocks_view(tail.drop_first()));
            assert(lines_view(r@) =~~= pre + rl);
            assert(pre =~= ser_block(block_view(tail[0])) + seq![Seq::<char>::empty()]);
            assert(lines_view(r@) =~~= ser_blocks(blocks_view(tail)));
        }
    } else {
        proof {
            assert(blocks_view(tail).len() == 1);
            assert(lines_view(r@) =~~= ser_blocks(blocks_view(tail)));
        }
    }
    r
}

/// Joins lines with a newline after each line.
pub fn join_lines(lines: &Vec<Vec<char>>, i: usize) -> (r: Vec<char>)
    requires
        i <= lines@.len(),
    ensures
        r@ == join_nl(lines_view(lines@).subrange(i as int, lines@.len() as int)),
    decreases lines@.len() - i,
{
    let ghost tail = lines_view(lines@).subrange(i as int, lines@.len() as int);
    let mut r: Vec<char> = Vec::new();
    if i == lines.len() {
        proof {
            assert(tail =~= Seq::<Seq<char>>::empty());
        }
        return r;
    }
    let mut line = copy_line(&lines[i]);
    r.append(&mut line);
    r.push('\n');
    let mut rest = join_lines(lines, i + 1);
    r.append(&mut rest);
    proof {
        assert(tail[0] == lines@[i as int]@);
        assert(tail.drop_first() =~= lines_view(lines@).subrange(i + 1, lines@.len() as int));
        assert(r@ =~= join_nl(tail));
    }
    r
}

/// Serializes a document as canonical Markdown text.
pub fn render_markdown(d: &Doc) -> (r: String)
    ensures
        r@ == md_render(doc_view(*d)),
{
    proof {
        assert(d.blocks@.subrange(0, d.blocks@.len() as int) =~= d.blocks@);
    }
    let lines = ser_blocks_from(&d.blocks, 0);
    proof {
        assert(lines_view(lines@).subrange(0, lines@.len() as int) =~= lines_view(lines@));
    }
    let text = join_lines(&lines, 0);
    crate::chars::chars_to_string(&text)
}

} // verus!
