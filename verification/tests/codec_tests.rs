use markbear::ir::{Block, Doc, ListItem, Span, Warning};
use markbear::mdparse::parse_markdown;
use markbear::mdser::render_markdown;

fn text(s: &str) -> Span {
    Span::Text { text: s.to_string() }
}

fn para(s: &str) -> Block {
    Block::Paragraph { content: vec![text(s)] }
}

fn item(blocks: Vec<Block>) -> ListItem {
    ListItem { blocks }
}

fn round_trip(doc: &Doc) -> Doc {
    let md = render_markdown(doc);
    let (parsed, warnings) = parse_markdown(&md);
    assert!(warnings.is_empty(), "unexpected warnings: {:?}", warnings);
    parsed
}

#[test]
fn heading_and_paragraph_round_trip() {
    let doc = Doc {
        blocks: vec![
            Block::Heading { level: 2, content: vec![text("Title")] },
            para("Plain body text."),
        ],
    };
    assert_eq!(render_markdown(&doc), "## Title\n\nPlain body text.\n");
    assert_eq!(round_trip(&doc), doc);
}

#[test]
fn inline_styles_round_trip() {
    let doc = Doc {
        blocks: vec![Block::Paragraph {
            content: vec![
                text("mix "),
                Span::Strong { inner: vec![text("bold")] },
                text(" and "),
                Span::Emphasis { inner: vec![text("italic")] },
                text(" and "),
                Span::Strike { inner: vec![text("gone")] },
                text(" and "),
                Span::InlineCode { text: "code".to_string() },
                text(" and "),
                Span::Link { inner: vec![text("site")], url: "https://example.com".to_string() },
            ],
        }],
    };
    assert_eq!(
        render_markdown(&doc),
        "mix **bold** and *italic* and ~~gone~~ and `code` and [site](https://example.com)\n"
    );
    assert_eq!(round_trip(&doc), doc);
}

#[test]
fn three_level_bullet_list_round_trip() {
    // a 3-level nested bullet list keeps its exact nesting depth and order
    let doc = Doc {
        blocks: vec![Block::BulletList {
            items: vec![
                item(vec![
                    para("one"),
                    Block::BulletList {
                        items: vec![item(vec![
                            para("one one"),
                            Block::BulletList {
                                items: vec![item(vec![para("one one one")])],
                            },
                        ])],
                    },
                ]),
                item(vec![para("two")]),
            ],
        }],
    };
    let md = render_markdown(&doc);
    assert_eq!(md, "- one\n  - one one\n    - one one one\n- two\n");
    assert_eq!(round_trip(&doc), doc);
}

#[test]
fn ordered_list_round_trip() {
    let doc = Doc {
        blocks: vec![Block::OrderedList {
            items: vec![item(vec![para("first")]), item(vec![para("second")])],
        }],
    };
    assert_eq!(render_markdown(&doc), "1. first\n1. second\n");
    assert_eq!(round_trip(&doc), doc);
}

#[test]
fn blockquote_and_rule_round_trip() {
    let doc = Doc {
        blocks: vec![
            Block::Blockquote { blocks: vec![para("quoted words")] },
            Block::HorizontalRule,
        ],
    };
    assert_eq!(render_markdown(&doc), "> quoted words\n\n---\n");
    assert_eq!(round_trip(&doc), doc);
}

#[test]
fn code_block_round_trip() {
    let doc = Doc {
        blocks: vec![Block::CodeBlock {
            lang: Some("rust".to_string()),
            lines: vec!["fn main() {}".to_string(), "".to_string()],
        }],
    };
    assert_eq!(render_markdown(&doc), "```rust\nfn main() {}\n\n```\n");
    assert_eq!(round_trip(&doc), doc);
}

#[test]
fn image_round_trip() {
    let doc = Doc {
        blocks: vec![Block::Image { alt: "logo".to_string(), src: "img/logo.png".to_string() }],
    };
    assert_eq!(render_markdown(&doc), "![logo](img/logo.png)\n");
    assert_eq!(round_trip(&doc), doc);
}

#[test]
fn table_round_trip() {
    let doc = Doc {
        blocks: vec![Block::Table {
            header: vec!["Name".to_string(), "Age".to_string()],
            rows: vec![vec!["Ada".to_string(), "36".to_string()]],
        }],
    };
    assert_eq!(render_markdown(&doc), "| Name | Age |\n| --- | --- |\n| Ada | 36 |\n");
    assert_eq!(round_trip(&doc), doc);
}

#[test]
fn ragged_table_is_repaired_never_fatal() {
    let md = "| a | b | c |\n| --- | --- | --- |\n| 1 |\n| 1 | 2 | 3 | 4 |\n";
    let (doc, warnings) = parse_markdown(md);
    match &doc.blocks[0] {
        Block::Table { header, rows } => {
            assert_eq!(header.len(), 3);
            for row in rows {
                assert_eq!(row.len(), header.len());
            }
            assert_eq!(rows[0], vec!["1".to_string(), "".to_string(), "".to_string()]);
            assert_eq!(rows[1], vec!["1".to_string(), "2".to_string(), "3".to_string()]);
        },
        other => panic!("expected a table, got {:?}", other),
    }
    assert_eq!(warnings, vec![Warning::RowPadded { row: 0 }, Warning::RowTruncated { row: 1 }]);
}

#[test]
fn unmatched_delimiters_degrade_to_text() {
    let (doc, _) = parse_markdown("an *unclosed star\n");
    assert_eq!(doc.blocks, vec![para("an *unclosed star")]);
}

#[test]
fn unterminated_fence_auto_closes() {
    // the open fence swallows everything to end of input, the trailing
    // empty segment after the final newline included
    let (doc, _) = parse_markdown("```\ndangling\n");
    assert_eq!(
        doc.blocks,
        vec![Block::CodeBlock {
            lang: None,
            lines: vec!["dangling".to_string(), "".to_string()],
        }]
    );
}

#[test]
fn blank_lines_separate_blocks() {
    let (doc, _) = parse_markdown("# One\n\n\ntwo\n");
    assert_eq!(
        doc.blocks,
        vec![Block::Heading { level: 1, content: vec![text("One")] }, para("two")]
    );
}

#[test]
fn heading_levels_parse() {
    let (doc, _) = parse_markdown("### Three\n");
    assert_eq!(doc.blocks, vec![Block::Heading { level: 3, content: vec![text("Three")] }]);
    let (doc7, _) = parse_markdown("####### Seven\n");
    assert_eq!(doc7.blocks, vec![para("####### Seven")]);
}
