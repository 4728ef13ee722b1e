//! The conversion orchestrator: one entry point that dispatches on a format
//! tag, runs the matching adapter through the Markdown codec, and reports
//! every failure through one error type.  It performs no conversion logic
//! of its own.
use vstd::prelude::*;
use crate::ir::Warning;
use crate::mdspec::{md_parse, md_render};
use crate::mdser::render_markdown;
use crate::mdparse::parse_markdown;
use crate::docx::{WordDoc, word_to_doc, doc_to_word, word_blocks_view, import_word,
    export_word};
use crate::xlsx::{Workbook, workbook_to_doc, doc_to_workbook, sheets_view, import_workbook,
    export_workbook, default_sheet_name};
use crate::pptx::{Deck, deck_to_doc, doc_to_deck, slides_view, import_deck, export_deck};
use crate::pdf::{PageDoc, pages_to_doc, doc_to_pages, pages_view, import_pages, export_pages};
use crate::chars::str_to_chars;

verus! {

/// Which way a conversion runs.
#[derive(Debug, PartialEq, Eq, Structural, Clone, Copy)]
pub enum Direction {
    Import,
    Export,
}

/// The four supported external formats.
#[derive(Debug, PartialEq, Eq, Structural, Clone, Copy)]
pub enum FormatTag {
    Docx,
    Xlsx,
    Pptx,
    Pdf,
}

/// Why a conversion failed.
#[derive(Debug, PartialEq, Eq, Structural, Clone, Copy)]
pub enum ErrorKind {
    SourceUnreadable,
    UnsupportedVariant,
    UnsupportedFormat,
    WriteFailed,
    MalformedMarkdown,
}

/// A surfaced conversion failure, with enough context for one
/// human-readable message.
#[derive(Debug, PartialEq, Eq)]
pub struct ConversionError {
    pub kind: ErrorKind,
    pub direction: Direction,
    pub format: String,
    pub path: String,
}

/// An in-memory external container, one variant per format family.
#[derive(Debug, PartialEq, Eq)]
pub enum ContainerData {
    Word(WordDoc),
    Sheets(Workbook),
    Slides(Deck),
    Pages(PageDoc),
}

/// The format a tag string selects, if any.
pub open spec fn tag_of(s: Seq<char>) -> Option<FormatTag> {
    if s == seq!['d', 'o', 'c', 'x'] {
        Option::Some(FormatTag::Docx)
    } else if s == seq!['x', 'l', 's', 'x'] {
        Option::Some(FormatTag::Xlsx)
    } else if s == seq!['p', 'p', 't', 'x'] {
        Option::Some(FormatTag::Pptx)
    } else if s == seq!['p', 'd', 'f'] {
        Option::Some(FormatTag::Pdf)
    } else {
        Option::None
    }
}

/// Parses a format tag; anything but the four known tags is refused.
pub fn parse_format_tag(tag: &str) -> (r: Option<FormatTag>)
    ensures
        r == tag_of(tag@),
{
    let c = str_to_chars(tag);
    if c.len() == 4 && c[0] == 'd' && c[1] == 'o' && c[2] == 'c' && c[3] == 'x' {
        proof {
            assert(tag@ =~= seq!['d', 'o', 'c', 'x']);
        }
        Option::Some(FormatTag::Docx)
    } else if c.len() == 4 && c[0] == 'x' && c[1] == 'l' && c[2] == 's' && c[3] == 'x' {
        proof {
            assert(tag@ =~= seq!['x', 'l', 's', 'x']);
        }
        Option::Some(FormatTag::Xlsx)
    } else if c.len() == 4 && c[0] == 'p' && c[1] == 'p' && c[2] == 't' && c[3] == 'x' {
        proof {
            assert(tag@ =~= seq!['p', 'p', 't', 'x']);
        }
        Option::Some(FormatTag::Pptx)
    } else if c.len() == 3 && c[0] == 'p' && c[1] == 'd' && c[2] == 'f' {
        proof {
            assert(tag@ =~= seq!['p', 'd', 'f']);
        }
        Option::Some(FormatTag::Pdf)
    } else {
        proof {
            if tag@ == seq!['d', 'o', 'c', 'x'] {
                assert(c@[0] == 'd' && c@[1] == 'o' && c@[2] == 'c' && c@[3] == 'x');
            }
            if tag@ == seq!['x', 'l', 's', 'x'] {
                assert(c@[0] == 'x' && c@[1] == 'l' && c@[2] == 's' && c@[3] == 'x');
            }
            if tag@ == seq!['p', 'p', 't', 'x'] {
                assert(c@[0] == 'p' && c@[1] == 'p' && c@[2] == 't' && c@[3] == 'x');
            }
            if tag@ == seq!['p', 'd', 'f'] {
                assert(c@[0] == 'p' && c@[1] == 'd' && c@[2] == 'f');
            }
        }
        Option::None
    }
}

fn make_error(kind: ErrorKind, direction: Direction, tag: &str, path: &str) -> (e:
    ConversionError)
    ensures
        e.kind == kind,
        e.direction == direction,
        e.format@ == tag@,
        e.path@ == path@,
{
    ConversionError { kind, direction, format: tag.to_owned(), path: path.to_owned() }
}

/// What a successful import returns for the given container: the Markdown
/// text of the imported tree.
pub open spec fn import_result(data: ContainerData) -> Seq<char> {
    match data {
        ContainerData::Word(w) => md_render(import_word(word_blocks_view(w.blocks@))),
        ContainerData::Sheets(wb) => md_render(import_workbook(sheets_view(wb.sheets@),
            wb.sheets@.len() > 1)),
        ContainerData::Slides(d) => md_render(import_deck(slides_view(d.slides@))),
        ContainerData::Pages(p) => md_render(import_pages(pages_view(p.pages@))),
    }
}

/// Whether a container value belongs to the format a tag names.
pub open spec fn data_matches(t: FormatTag, data: ContainerData) -> bool {
    match (t, data) {
        (FormatTag::Docx, ContainerData::Word(_)) => true,
        (FormatTag::Xlsx, ContainerData::Sheets(_)) => true,
        (FormatTag::Pptx, ContainerData::Slides(_)) => true,
        (FormatTag::Pdf, ContainerData::Pages(_)) => true,
        _ => false,
    }
}

/// Imports an external container as Markdown text.  An unknown tag is
/// refused before any adapter runs; a container of the wrong family for
/// the tag reads as an unreadable source.
pub fn convert_import(tag: &str, path: &str, data: ContainerData) -> (r: Result<(String,
    Vec<Warning>), ConversionError>)
    ensures
        match tag_of(tag@) {
            Option::None => match r {
                Result::Err(e) => e.kind == ErrorKind::UnsupportedFormat && e.direction
                    == Direction::Import && e.format@ == tag@ && e.path@ == path@,
                Result::Ok(_) => false,
            },
            Option::Some(t) => if data_matches(t, data) {
                match r {
                    Result::Ok(v) => v.0@ == import_result(data),
                    Result::Err(_) => false,
                }
            } else {
                match r {
                    Result::Err(e) => e.kind == ErrorKind::SourceUnreadable && e.direction
                        == Direction::Import && e.format@ == tag@ && e.path@ == path@,
                    Result::Ok(_) => false,
                }
            },
        },
{
    let t = match parse_format_tag(tag) {
        Option::Some(t) => t,
        Option::None => {
            return Result::Err(make_error(ErrorKind::UnsupportedFormat, Direction::Import,
                tag, path));
        },
    };
    let mut warn: Vec<Warning> = Vec::new();
    match (t, data) {
        (FormatTag::Docx, ContainerData::Word(w)) => {
            let doc = word_to_doc(&w, &mut warn);
            Result::Ok((render_markdown(&doc), warn))
        },
        (FormatTag::Xlsx, ContainerData::Sheets(wb)) => {
            let doc = workbook_to_doc(&wb, &mut warn);
            Result::Ok((render_markdown(&doc), warn))
        },
        (FormatTag::Pptx, ContainerData::Slides(d)) => {
            let doc = deck_to_doc(&d, &mut warn);
            Result::Ok((render_markdown(&doc), warn))
        },
        (FormatTag::Pdf, ContainerData::Pages(p)) => {
            let doc = pages_to_doc(&p, &mut warn);
            Result::Ok((render_markdown(&doc), warn))
        },
        (_, _) => Result::Err(make_error(ErrorKind::SourceUnreadable, Direction::Import, tag,
            path)),
    }
}

/// What a successful export builds for the given tag and Markdown text.
pub open spec fn export_ok(t: FormatTag, text: Seq<char>, data: ContainerData) -> bool {
    match (t, data) {
        (FormatTag::Docx, ContainerData::Word(w)) => word_blocks_view(w.blocks@)
            == export_word(md_parse(text)),
        (FormatTag::Xlsx, ContainerData::Sheets(wb)) => sheets_view(wb.sheets@)
            == export_workbook(md_parse(text), default_sheet_name()),
        (FormatTag::Pptx, ContainerData::Slides(d)) => slides_view(d.slides@) == export_deck(
            md_parse(text),
        ),
        (FormatTag::Pdf, ContainerData::Pages(p)) => pages_view(p.pages@) == export_pages(
            md_parse(text),
        ),
        _ => false,
    }
}

/// Exports Markdown text to an in-memory container of the tagged format.
/// Parsing is total, so every known tag succeeds; an unknown tag is
/// refused before any adapter runs.
pub fn convert_export(tag: &str, path: &str, text: &str) -> (r: Result<(ContainerData,
    Vec<Warning>), ConversionError>)
    ensures
        match tag_of(tag@) {
            Option::None => match r {
                Result::Err(e) => e.kind == ErrorKind::UnsupportedFormat && e.direction
                    == Direction::Export && e.format@ == tag@ && e.path@ == path@,
                Result::Ok(_) => false,
            },
            Option::Some(t) => match r {
                Result::Ok(v) => export_ok(t, text@, v.0),
                Result::Err(_) => false,
            },
        },
{
    let t = match parse_format_tag(tag) {
        Option::Some(t) => t,
        Option::None => {
            return Result::Err(make_error(ErrorKind::UnsupportedFormat, Direction::Export,
                tag, path));
        },
    };
    let (doc, mut warn) = parse_markdown(text);
    match t {
        FormatTag::Docx => {
            let w = doc_to_word(&doc, &mut warn);
            Result::Ok((ContainerData::Word(w), warn))
        },
        FormatTag::Xlsx => {
            let wb = doc_to_workbook(&doc, &mut warn);
            Result::Ok((ContainerData::Sheets(wb), warn))
        },
        FormatTag::Pptx => {
            let d = doc_to_deck(&doc, &mut warn);
            Result::Ok((ContainerData::Slides(d), warn))
        },
        FormatTag::Pdf => {
            let p = doc_to_pages(&doc, &mut warn);
            Result::Ok((ContainerData::Pages(p), warn))
        },
    }
}

/// A request to the orchestrator: a direction, a format tag, and the
/// payload that direction needs.
#[derive(Debug, PartialEq, Eq)]
pub enum ConvertRequest {
    Import { tag: String, path: String, data: ContainerData },
    Export { tag: String, path: String, markdown: String },
}

/// What the orchestrator hands back on success.
#[derive(Debug, PartialEq, Eq)]
pub enum ConvertOutput {
    Markdown(String),
    Container(ContainerData),
}

/// The single dispatch entry point: a pure lookup from the format tag to
/// the matching adapter; an unrecognized tag yields `UnsupportedFormat`
/// without touching any adapter.
pub fn convert(req: ConvertRequest) -> (r: Result<(ConvertOutput, Vec<Warning>),
    ConversionError>)
    ensures
        match req {
            ConvertRequest::Import { tag, path, data } => match tag_of(tag@) {
                Option::None => match r {
                    Result::Err(e) => e.kind == ErrorKind::UnsupportedFormat && e.direction
                        == Direction::Import && e.format@ == tag@ && e.path@ == path@,
                    Result::Ok(_) => false,
                },
                Option::Some(t) => if data_matches(t, data) {
                    match r {
                        Result::Ok(v) => v.0 is Markdown && v.0->Markdown_0@ == import_result(
                            data,
                        ),
                        Result::Err(_) => false,
                    }
                } else {
                    match r {
                        Result::Err(e) => e.kind == ErrorKind::SourceUnreadable && e.direction
                            == Direction::Import && e.format@ == tag@ && e.path@ == path@,
                        Result::Ok(_) => false,
                    }
                },
            },
            ConvertRequest::Export { tag, path, markdown } => match tag_of(tag@) {
                Option::None => match r {
                    Result::Err(e) => e.kind == ErrorKind::UnsupportedFormat && e.direction
                        == Direction::Export && e.format@ == tag@ && e.path@ == path@,
                    Result::Ok(_) => false,
                },
                Option::Some(t) => match r {
                    Result::Ok(v) => v.0 is Container && export_ok(t, markdown@,
                        v.0->Container_0),
                    Result::Err(_) => false,
                },
            },
        },
{
    match req {
        ConvertRequest::Import { tag, path, data } => {
            match convert_import(tag.as_str(), path.as_str(), data) {
                Result::Ok(v) => Result::Ok((ConvertOutput::Markdown(v.0), v.1)),
                Result::Err(e) => Result::Err(e),
            }
        },
        ConvertRequest::Export { tag, path, markdown } => {
            match convert_export(tag.as_str(), path.as_str(), markdown.as_str()) {
                Result::Ok(v) => Result::Ok((ConvertOutput::Container(v.0), v.1)),
                Result::Err(e) => Result::Err(e),
            }
        },
    }
}

} // verus!
