//! The document intermediate representation: a tree of blocks, each block
//! holding inline span content.  Every converter reads and writes this tree;
//! no format-specific knowledge lives here.
//!
//! The exec types (`Span`, `Block`, `ListItem`, `Doc`) hold `Vec` and `String`
//! fields; the mirror types (`SpanV`, `BlockV`) are their mathematical views,
//! built from `Seq`, and are what all codec contracts speak about.
use vstd::prelude::*;

verus! {

/// An inline content unit inside a block.
#[derive(Debug, PartialEq, Eq)]
pub enum Span {
    Text { text: String },
    Emphasis { inner: Vec<Span> },
    Strong { inner: Vec<Span> },
    Strike { inner: Vec<Span> },
    InlineCode { text: String },
    Link { inner: Vec<Span>, url: String },
    LineBreak,
}

/// One item of a bullet or ordered list: a sequence of blocks.
#[derive(Debug, PartialEq, Eq)]
pub struct ListItem {
    pub blocks: Vec<Block>,
}

/// A structural unit of a document.
#[derive(Debug, PartialEq, Eq)]
pub enum Block {
    Heading { level: u8, content: Vec<Span> },
    Paragraph { content: Vec<Span> },
    BulletList { items: Vec<ListItem> },
    OrderedList { items: Vec<ListItem> },
    Blockquote { blocks: Vec<Block> },
    CodeBlock { lang: Option<String>, lines: Vec<String> },
    Table { header: Vec<String>, rows: Vec<Vec<String>> },
    HorizontalRule,
    Image { alt: String, src: String },
}

/// A whole document: an ordered sequence of blocks.
#[derive(Debug, PartialEq, Eq)]
pub struct Doc {
    pub blocks: Vec<Block>,
}

/// A non-fatal conversion notice: structural oddities are repaired with a
/// documented default, never reported as errors.
#[derive(Debug, PartialEq, Eq, Clone, Copy)]
pub enum Warning {
    RowPadded { row: usize },
    RowTruncated { row: usize },
    Dropped,
}

/// Mathematical view of a `Span`.
#[verifier::ext_equal]
pub enum SpanV {
    Text { text: Seq<char> },
    Emphasis { inner: Seq<SpanV> },
    Strong { inner: Seq<SpanV> },
    Strike { inner: Seq<SpanV> },
    InlineCode { text: Seq<char> },
    Link { inner: Seq<SpanV>, url: Seq<char> },
    LineBreak,
}

/// Mathematical view of a `Block`.  A list item is a plain `Seq<BlockV>`.
#[verifier::ext_equal]
pub enum BlockV {
    Heading { level: u8, content: Seq<SpanV> },
    Paragraph { content: Seq<SpanV> },
    BulletList { items: Seq<Seq<BlockV>> },
    OrderedList { items: Seq<Seq<BlockV>> },
    Blockquote { blocks: Seq<BlockV> },
    CodeBlock { lang: Option<Seq<char>>, lines: Seq<Seq<char>> },
    Table { header: Seq<Seq<char>>, rows: Seq<Seq<Seq<char>>> },
    HorizontalRule,
    Image { alt: Seq<char>, src: Seq<char> },
}

pub open spec fn span_view(s: Span) -> SpanV
    decreases s,
{
    match s {
        Span::Text { text } => SpanV::Text { text: text@ },
        Span::Emphasis { inner } => SpanV::Emphasis { inner: spans_view(inner@) },
        Span::Strong { inner } => SpanV::Strong { inner: spans_view(inner@) },
        Span::Strike { inner } => SpanV::Strike { inner: spans_view(inner@) },
        Span::InlineCode { text } => SpanV::InlineCode { text: text@ },
        Span::Link { inner, url } => SpanV::Link { inner: spans_view(inner@), url: url@ },
        Span::LineBreak => SpanV::LineBreak,
    }
}

pub open spec fn spans_view(s: Seq<Span>) -> Seq<SpanV>
    decreases s,
{
    if s.len() == 0 {
        Seq::empty()
    } else {
        seq![span_view(s[0])] + spans_view(s.drop_first())
    }
}

pub open spec fn block_view(b: Block) -> BlockV
    decreases b,
{
    match b {
        Block::Heading { level, content } => BlockV::Heading {
            level,
            content: spans_view(content@),
        },
        Block::Paragraph { content } => BlockV::Paragraph { content: spans_view(content@) },
        Block::BulletList { items } => BlockV::BulletList { items: items_view(items@) },
        Block::OrderedList { items } => BlockV::OrderedList { items: items_view(items@) },
        Block::Blockquote { blocks } => BlockV::Blockquote { blocks: blocks_view(blocks@) },
        Block::CodeBlock { lang, lines } => BlockV::CodeBlock {
            lang: match lang {
                Option::Some(l) => Option::Some(l@),
                Option::None => Option::None,
            },
            lines: lines.deep_view(),
        },
        Block::Table { header, rows } => BlockV::Table {
            header: header.deep_view(),
            rows: rows.deep_view(),
        },
        Block::HorizontalRule => BlockV::HorizontalRule,
        Block::Image { alt, src } => BlockV::Image { alt: alt@, src: src@ },
    }
}

pub open spec fn blocks_view(s: Seq<Block>) -> Seq<BlockV>
    decreases s,
{
    if s.len() == 0 {
        Seq::empty()
    } else {
        seq![block_view(s[0])] + blocks_view(s.drop_first())
    }
}

pub open spec fn item_view(it: ListItem) -> Seq<BlockV>
    decreases it,
{
    blocks_view(it.blocks@)
}

pub open spec fn items_view(s: Seq<ListItem>) -> Seq<Seq<BlockV>>
    decreases s,
{
    if s.len() == 0 {
        Seq::empty()
    } else {
        seq![item_view(s[0])] + items_view(s.drop_first())
    }
}

pub open spec fn doc_view(d: Doc) -> Seq<BlockV> {
    blocks_view(d.blocks@)
}

/// The view of a span sequence indexes through `span_view` pointwise.
pub proof fn lemma_spans_view_index(s: Seq<Span>)
    ensures
        spans_view(s).len() == s.len(),
        forall|i: int| 0 <= i < s.len() ==> spans_view(s)[i] == span_view(s[i]),
    decreases s.len(),
{
    if s.len() > 0 {
        lemma_spans_view_index(s.drop_first());
    }
}

/// The view of a block sequence indexes through `block_view` pointwise.
pub proof fn lemma_blocks_view_index(s: Seq<Block>)
    ensures
        blocks_view(s).len() == s.len(),
        forall|i: int| 0 <= i < s.len() ==> blocks_view(s)[i] == block_view(s[i]),
    decreases s.len(),
{
    if s.len() > 0 {
        lemma_blocks_view_index(s.drop_first());
    }
}

/// The view of an item sequence indexes through `item_view` pointwise.
pub proof fn lemma_items_view_index(s: Seq<ListItem>)
    ensures
        items_view(s).len() == s.len(),
        forall|i: int| 0 <= i < s.len() ==> items_view(s)[i] == item_view(s[i]),
    decreases s.len(),
{
    if s.len() > 0 {
        lemma_items_view_index(s.drop_first());
    }
}

} // verus!
