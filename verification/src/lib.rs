//! A Markdown-centric document conversion engine with its surrounding
//! editor-shell logic.  The heart is a verified Markdown codec over a
//! format-neutral block/span tree, with adapters that map word-processor,
//! spreadsheet, presentation and fixed-layout page models to that tree and
//! back, and an orchestrator that dispatches on a format tag.
pub mod ir;
pub mod chars;
pub mod mdspec;
pub mod inline;
pub mod mdlines;
pub mod mdser;
pub mod mdparse;
pub mod xlsx;
pub mod docx;
pub mod pptx;
pub mod pdf;
pub mod engine;
pub mod roundtrip;
pub mod locale;
pub mod state;
pub mod labels;
pub mod paths;
pub mod search;
pub mod listing;
