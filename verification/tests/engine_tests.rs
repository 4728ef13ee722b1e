use markbear::docx::{Run, WordBlock, WordDoc};
use markbear::engine::{convert, convert_export, convert_import, ContainerData, ConvertOutput,
    ConvertRequest, Direction, ErrorKind};
use markbear::pdf::{PageDoc, PageText, PdfLine};
use markbear::pptx::{Deck, Slide};
use markbear::xlsx::{Sheet, Workbook};

fn single_sheet() -> ContainerData {
    ContainerData::Sheets(Workbook {
        sheets: vec![Sheet {
            name: "People".to_string(),
            rows: vec![
                vec!["Name".to_string(), "Age".to_string()],
                vec!["Ada".to_string(), "36".to_string()],
            ],
        }],
    })
}

#[test]
fn unsupported_tag_is_rejected_before_any_adapter() {
    let r = convert_import("rtf", "/tmp/in.rtf", single_sheet());
    match r {
        Err(e) => {
            assert_eq!(e.kind, ErrorKind::UnsupportedFormat);
            assert_eq!(e.direction, Direction::Import);
            assert_eq!(e.format, "rtf");
            assert_eq!(e.path, "/tmp/in.rtf");
        },
        Ok(_) => panic!("rtf import must be rejected"),
    }
    let r2 = convert_export("rtf", "/tmp/out.rtf", "# hi\n");
    assert!(matches!(r2, Err(ref e) if e.kind == ErrorKind::UnsupportedFormat));
}

#[test]
fn mismatched_container_reads_as_unreadable() {
    let r = convert_import("docx", "/tmp/a.docx", single_sheet());
    assert!(matches!(r, Err(ref e) if e.kind == ErrorKind::SourceUnreadable));
}

#[test]
fn spreadsheet_to_markdown_example() {
    // a single-sheet workbook with header [Name, Age] and one data row
    let r = convert_import("xlsx", "/tmp/people.xlsx", single_sheet()).unwrap();
    assert_eq!(r.0, "| Name | Age |\n| --- | --- |\n| Ada | 36 |\n");
}

#[test]
fn markdown_to_spreadsheet_example() {
    let md = "| Name | Age |\n| --- | --- |\n| Ada | 36 |\n";
    let (data, _) = convert_export("xlsx", "/tmp/people.xlsx", md).unwrap();
    match data {
        ContainerData::Sheets(wb) => {
            assert_eq!(wb.sheets.len(), 1);
            let sheet = &wb.sheets[0];
            assert_eq!(sheet.rows.len(), 2);
            assert_eq!(sheet.rows[0], vec!["Name".to_string(), "Age".to_string()]);
            assert_eq!(sheet.rows[1], vec!["Ada".to_string(), "36".to_string()]);
        },
        other => panic!("expected sheets, got {:?}", other),
    }
}

#[test]
fn multi_sheet_workbook_gets_name_headings() {
    let wb = ContainerData::Sheets(Workbook {
        sheets: vec![
            Sheet { name: "A".to_string(), rows: vec![vec!["x".to_string()]] },
            Sheet { name: "B".to_string(), rows: vec![vec!["y".to_string()]] },
        ],
    });
    let r = convert_import("xlsx", "p", wb).unwrap();
    assert_eq!(r.0, "## A\n\n| x |\n| --- |\n\n## B\n\n| y |\n| --- |\n");
}

#[test]
fn word_runs_import_as_emphasis() {
    let wd = ContainerData::Word(WordDoc {
        blocks: vec![
            WordBlock::Para {
                heading: 1,
                runs: vec![Run {
                    text: "Title".to_string(),
                    bold: false,
                    italic: false,
                    strike: false,
                    code: false,
                }],
            },
            WordBlock::Para {
                heading: 0,
                runs: vec![
                    Run {
                        text: "plain ".to_string(),
                        bold: false,
                        italic: false,
                        strike: false,
                        code: false,
                    },
                    Run {
                        text: "bold".to_string(),
                        bold: true,
                        italic: false,
                        strike: false,
                        code: false,
                    },
                ],
            },
        ],
    });
    let r = convert_import("docx", "a.docx", wd).unwrap();
    assert_eq!(r.0, "# Title\n\nplain **bold**\n");
}

#[test]
fn markdown_exports_to_word_runs() {
    let (data, _) = convert_export("docx", "a.docx", "## Head\n\nab *it* cd\n").unwrap();
    match data {
        ContainerData::Word(wd) => {
            assert_eq!(wd.blocks.len(), 2);
            match &wd.blocks[0] {
                WordBlock::Para { heading, runs } => {
                    assert_eq!(*heading, 2);
                    assert_eq!(runs.len(), 1);
                    assert_eq!(runs[0].text, "Head");
                },
                other => panic!("expected a heading paragraph, got {:?}", other),
            }
            match &wd.blocks[1] {
                WordBlock::Para { heading, runs } => {
                    assert_eq!(*heading, 0);
                    assert_eq!(runs.len(), 3);
                    assert_eq!(runs[0].text, "ab ");
                    assert_eq!(runs[1].text, "it");
                    assert!(runs[1].italic && !runs[1].bold);
                    assert_eq!(runs[2].text, " cd");
                },
                other => panic!("expected a body paragraph, got {:?}", other),
            }
        },
        other => panic!("expected word container, got {:?}", other),
    }
}

#[test]
fn slides_import_as_heading_plus_bullets() {
    let deck = ContainerData::Slides(Deck {
        slides: vec![Slide {
            title: "Intro".to_string(),
            bullets: vec!["first".to_string(), "second".to_string()],
        }],
    });
    let r = convert_import("pptx", "d.pptx", deck).unwrap();
    assert_eq!(r.0, "# Intro\n\n- first\n- second\n");
}

#[test]
fn markdown_exports_to_slides() {
    let md = "# One\n\n- a\n- b\n\n# Two\n\nbody line\n";
    let (data, _) = convert_export("pptx", "d.pptx", md).unwrap();
    match data {
        ContainerData::Slides(deck) => {
            assert_eq!(deck.slides.len(), 2);
            assert_eq!(deck.slides[0].title, "One");
            assert_eq!(deck.slides[0].bullets, vec!["a".to_string(), "b".to_string()]);
            assert_eq!(deck.slides[1].title, "Two");
            assert_eq!(deck.slides[1].bullets, vec!["body line".to_string()]);
        },
        other => panic!("expected slides, got {:?}", other),
    }
}

#[test]
fn page_text_imports_by_font_size() {
    let pages = ContainerData::Pages(PageDoc {
        pages: vec![PageText {
            lines: vec![
                PdfLine { size: 24, text: "Big".to_string() },
                PdfLine { size: 12, text: "small words".to_string() },
                PdfLine { size: 12, text: "".to_string() },
            ],
        }],
    });
    let r = convert_import("pdf", "x.pdf", pages).unwrap();
    assert_eq!(r.0, "# Big\n\nsmall words\n");
}

#[test]
fn long_export_breaks_pages_at_threshold() {
    let mut md = String::new();
    for i in 0..30 {
        md.push_str(&format!("line {}\n\n", i));
    }
    let (data, _) = convert_export("pdf", "x.pdf", &md).unwrap();
    match data {
        ContainerData::Pages(pd) => {
            // 30 paragraphs render as 59 lines: pages of 40, then 19
            assert_eq!(pd.pages.len(), 2);
            assert_eq!(pd.pages[0].lines.len(), 40);
            assert_eq!(pd.pages[1].lines.len(), 19);
            assert_eq!(pd.pages[0].lines[0].text, "line 0");
        },
        other => panic!("expected pages, got {:?}", other),
    }
}

#[test]
fn convert_dispatches_by_request() {
    let req = ConvertRequest::Import {
        tag: "xlsx".to_string(),
        path: "p".to_string(),
        data: single_sheet(),
    };
    match convert(req).unwrap().0 {
        ConvertOutput::Markdown(md) => {
            assert_eq!(md, "| Name | Age |\n| --- | --- |\n| Ada | 36 |\n")
        },
        other => panic!("expected markdown, got {:?}", other),
    }
    let req2 = ConvertRequest::Export {
        tag: "bogus".to_string(),
        path: "p".to_string(),
        markdown: "x\n".to_string(),
    };
    assert!(matches!(convert(req2), Err(ref e) if e.kind == ErrorKind::UnsupportedFormat));
}
