//! The menu label table: every menu item name in each supported interface
//! language.  An unknown key is returned unchanged, so a missing entry can
//! never break menu construction.
use vstd::prelude::*;
use crate::chars::str_eq;

verus! {


pub open spec fn zh_label(key: Seq<char>) -> Seq<char> {
    if key == "file"@ {
        "檔案"@
    } else if key == "file_new"@ {
        "新檔案"@
    } else if key == "file_open"@ {
        "開啟..."@
    } else if key == "file_save"@ {
        "儲存"@
    } else if key == "file_save_as"@ {
        "另存新檔..."@
    } else if key == "file_close_document"@ {
        "關閉文件"@
    } else if key == "format"@ {
        "格式"@
    } else if key == "format_text"@ {
        "文字"@
    } else if key == "format_bold"@ {
        "粗體"@
    } else if key == "format_italic"@ {
        "斜體"@
    } else if key == "format_strike"@ {
        "刪除線"@
    } else if key == "format_inline_code"@ {
        "行內程式碼"@
    } else if key == "format_headings"@ {
        "標題"@
    } else if key == "format_paragraph"@ {
        "本文"@
    } else if key == "format_heading_1"@ {
        "標題 1"@
    } else if key == "format_heading_2"@ {
        "標題 2"@
    } else if key == "format_heading_3"@ {
        "標題 3"@
    } else if key == "format_heading_4"@ {
        "標題 4"@
    } else if key == "format_heading_5"@ {
        "標題 5"@
    } else if key == "format_heading_6"@ {
        "標題 6"@
    } else if key == "format_lists"@ {
        "清單"@
    } else if key == "format_bullet_list"@ {
        "項目符號清單"@
    } else if key == "format_ordered_list"@ {
        "編號清單"@
    } else if key == "format_blocks"@ {
        "區塊"@
    } else if key == "format_blockquote"@ {
        "引用"@
    } else if key == "format_code_block"@ {
        "程式碼區塊"@
    } else if key == "format_horizontal_rule"@ {
        "水平分割線"@
    } else if key == "view"@ {
        "檢視"@
    } else if key == "view_source_code"@ {
        "原始碼"@
    } else if key == "view_theme"@ {
        "佈景主題"@
    } else if key == "view_language"@ {
        "語言"@
    } else if key == "edit"@ {
        "編輯"@
    } else if key == "edit_undo"@ {
        "復原"@
    } else if key == "edit_redo"@ {
        "重做"@
    } else if key == "edit_cut"@ {
        "剪下"@
    } else if key == "edit_copy"@ {
        "複製"@
    } else if key == "edit_paste"@ {
        "貼上"@
    } else if key == "edit_select_all"@ {
        "全選"@
    } else if key == "edit_find"@ {
        "尋找"@
    } else if key == "edit_find_in_files"@ {
        "在檔案中尋找"@
    } else if key == "window"@ {
        "視窗"@
    } else if key == "help"@ {
        "說明"@
    } else if key == "lang_en"@ {
        "English"@
    } else if key == "lang_zh"@ {
        "繁體中文"@
    } else if key == "file_import"@ {
        "匯入"@
    } else if key == "file_import_docx"@ {
        "從 Word (.docx)"@
    } else if key == "file_import_xlsx"@ {
        "從試算表 (.xlsx)"@
    } else if key == "file_import_pdf"@ {
        "從 PDF"@
    } else if key == "file_import_pptx"@ {
        "從 PowerPoint (.pptx)"@
    } else if key == "file_export"@ {
        "匯出"@
    } else if key == "file_export_docx"@ {
        "匯出為 Word (.docx)..."@
    } else if key == "file_export_xlsx"@ {
        "匯出為試算表 (.xlsx)..."@
    } else if key == "file_export_pdf"@ {
        "匯出為 PDF..."@
    } else if key == "file_export_pptx"@ {
        "匯出為 PowerPoint (.pptx)..."@
    } else if key == "app_about"@ {
        "關於 MarkBear"@
    } else if key == "app_services"@ {
        "服務"@
    } else if key == "app_hide"@ {
        "隱藏 MarkBear"@
    } else if key == "app_hide_others"@ {
        "隱藏其他"@
    } else if key == "app_show_all"@ {
        "全部顯示"@
    } else if key == "app_quit"@ {
        "結束 MarkBear"@
    } else if key == "window_minimize"@ {
        "縮到最小"@
    } else if key == "window_zoom"@ {
        "縮放"@
    } else if key == "window_fullscreen"@ {
        "切換全螢幕"@
    } else if key == "window_close"@ {
        "關閉視窗"@
    } else {
        key
    }
}

pub open spec fn en_label(key: Seq<char>) -> Seq<char> {
    if key == "file"@ {
        "File"@
    } else if key == "file_new"@ {
        "New File"@
    } else if key == "file_open"@ {
        "Open..."@
    } else if key == "file_save"@ {
        "Save"@
    } else if key == "file_save_as"@ {
        "Save As..."@
    } else if key == "file_close_document"@ {
        "Close Document"@
    } else if key == "format"@ {
        "Format"@
    } else if key == "format_text"@ {
        "Text"@
    } else if key == "format_bold"@ {
        "Bold"@
    } else if key == "format_italic"@ {
        "Italic"@
    } else if key == "format_strike"@ {
        "Strikethrough"@
    } else if key == "format_inline_code"@ {
        "Inline Code"@
    } else if key == "format_headings"@ {
        "Headings"@
    } else if key == "format_paragraph"@ {
        "Paragraph"@
    } else if key == "format_heading_1"@ {
        "Heading 1"@
    } else if key == "format_heading_2"@ {
        "Heading 2"@
    } else if key == "format_heading_3"@ {
        "Heading 3"@
    } else if key == "format_heading_4"@ {
        "Heading 4"@
    } else if key == "format_heading_5"@ {
        "Heading 5"@
    } else if key == "format_heading_6"@ {
        "Heading 6"@
    } else if key == "format_lists"@ {
        "Lists"@
    } else if key == "format_bullet_list"@ {
        "Bullet List"@
    } else if key == "format_ordered_list"@ {
        "Ordered List"@
    } else if key == "format_blocks"@ {
        "Blocks"@
    } else if key == "format_blockquote"@ {
        "Blockquote"@
    } else if key == "format_code_block"@ {
        "Code Block"@
    } else if key == "format_horizontal_rule"@ {
        "Horizontal Rule"@
    } else if key == "view"@ {
        "View"@
    } else if key == "view_source_code"@ {
        "Source Code"@
    } else if key == "view_theme"@ {
        "Theme"@
    } else if key == "view_language"@ {
        "Language"@
    } else if key == "edit"@ {
        "Edit"@
    } else if key == "edit_undo"@ {
        "Undo"@
    } else if key == "edit_redo"@ {
        "Redo"@
    } else if key == "edit_cut"@ {
        "Cut"@
    } else if key == "edit_copy"@ {
        "Copy"@
    } else if key == "edit_paste"@ {
        "Paste"@
    } else if key == "edit_select_all"@ {
        "Select All"@
    } else if key == "edit_find"@ {
        "Find..."@
    } else if key == "edit_find_in_files"@ {
        "Find in Files"@
    } else if key == "window"@ {
        "Window"@
    } else if key == "help"@ {
        "Help"@
    } else if key == "lang_en"@ {
        "English"@
    } else if key == "lang_zh"@ {
        "繁體中文"@
    } else if key == "file_import"@ {
        "Import"@
    } else if key == "file_import_docx"@ {
        "From Word (.docx)"@
    } else if key == "file_import_xlsx"@ {
        "From Spreadsheet (.xlsx)"@
    } else if key == "file_import_pdf"@ {
        "From PDF"@
    } else if key == "file_import_pptx"@ {
        "From PowerPoint (.pptx)"@
    } else if key == "file_export"@ {
        "Export"@
    } else if key == "file_export_docx"@ {
        "Export as Word (.docx)..."@
    } else if key == "file_export_xlsx"@ {
        "Export as Spreadsheet (.xlsx)..."@
    } else if key == "file_export_pdf"@ {
        "Export as PDF..."@
    } else if key == "file_export_pptx"@ {
        "Export as PowerPoint (.pptx)..."@
    } else if key == "app_about"@ {
        "About MarkBear"@
    } else if key == "app_services"@ {
        "Services"@
    } else if key == "app_hide"@ {
        "Hide MarkBear"@
    } else if key == "app_hide_others"@ {
        "Hide Others"@
    } else if key == "app_show_all"@ {
        "Show All"@
    } else if key == "app_quit"@ {
        "Quit MarkBear"@
    } else if key == "window_minimize"@ {
        "Minimize"@
    } else if key == "window_zoom"@ {
        "Zoom"@
    } else if key == "window_fullscreen"@ {
        "Toggle Full Screen"@
    } else if key == "window_close"@ {
        "Close Window"@
    } else {
        key
    }
}

/// The label for a menu `key` in interface language `lang`.
pub open spec fn label_of(lang: Seq<char>, key: Seq<char>) -> Seq<char> {
    if lang == "zh"@ {
        zh_label(key)
    } else {
        en_label(key)
    }
}

fn label_zh(key: &str) -> (r: String)
    ensures
        r@ == zh_label(key@),
{
    if str_eq(key, "file") {
        return String::from_str("檔案");
    }
    if str_eq(key, "file_new") {
        return String::from_str("新檔案");
    }
    if str_eq(key, "file_open") {
        return String::from_str("開啟...");
    }
    if str_eq(key, "file_save") {
        return String::from_str("儲存");
    }
    if str_eq(key, "file_save_as") {
        return String::from_str("另存新檔...");
    }
    if str_eq(key, "file_close_document") {
        return String::from_str("關閉文件");
    }
    if str_eq(key, "format") {
        return String::from_str("格式");
    }
    if str_eq(key, "format_text") {
        return String::from_str("文字");
    }
    if str_eq(key, "format_bold") {
        return String::from_str("粗體");
    }
    if str_eq(key, "format_italic") {
        return String::from_str("斜體");
    }
    if str_eq(key, "format_strike") {
        return String::from_str("刪除線");
    }
    if str_eq(key, "format_inline_code") {
        return String::from_str("行內程式碼");
    }
    if str_eq(key, "format_headings") {
        return String::from_str("標題");
    }
    if str_eq(key, "format_paragraph") {
        return String::from_str("本文");
    }
    if str_eq(key, "format_heading_1") {
        return String::from_str("標題 1");
    }
    if str_eq(key, "format_heading_2") {
        return String::from_str("標題 2");
    }
    if str_eq(key, "format_heading_3") {
        return String::from_str("標題 3");
    }
    if str_eq(key, "format_heading_4") {
        return String::from_str("標題 4");
    }
    if str_eq(key, "format_heading_5") {
        return String::from_str("標題 5");
    }
    if str_eq(key, "format_heading_6") {
        return String::from_str("標題 6");
    }
    if str_eq(key, "format_lists") {
        return String::from_str("清單");
    }
    if str_eq(key, "format_bullet_list") {
        return String::from_str("項目符號清單");
    }
    if str_eq(key, "format_ordered_list") {
        return String::from_str("編號清單");
    }
    if str_eq(key, "format_blocks") {
        return String::from_str("區塊");
    }
    if str_eq(key, "format_blockquote") {
        return String::from_str("引用");
    }
    if str_eq(key, "format_code_block") {
        return String::from_str("程式碼區塊");
    }
    if str_eq(key, "format_horizontal_rule") {
        return String::from_str("水平分割線");
    }
    if str_eq(key, "view") {
        return String::from_str("檢視");
    }
    if str_eq(key, "view_source_code") {
        return String::from_str("原始碼");
    }
    if str_eq(key, "view_theme") {
        return String::from_str("佈景主題");
    }
    if str_eq(key, "view_language") {
        return String::from_str("語言");
    }
    if str_eq(key, "edit") {
        return String::from_str("編輯");
    }
    if str_eq(key, "edit_undo") {
        return String::from_str("復原");
    }
    if str_eq(key, "edit_redo") {
        return String::from_str("重做");
    }
    if str_eq(key, "edit_cut") {
        return String::from_str("剪下");
    }
    if str_eq(key, "edit_copy") {
        return String::from_str("複製");
    }
    if str_eq(key, "edit_paste") {
        return String::from_str("貼上");
    }
    if str_eq(key, "edit_select_all") {
        return String::from_str("全選");
    }
    if str_eq(key, "edit_find") {
        return String::from_str("尋找");
    }
    if str_eq(key, "edit_find_in_files") {
        return String::from_str("在檔案中尋找");
    }
    if str_eq(key, "window") {
        return String::from_str("視窗");
    }
    if str_eq(key, "help") {
        return String::from_str("說明");
    }
    if str_eq(key, "lang_en") {
        return String::from_str("English");
    }
    if str_eq(key, "lang_zh") {
        return String::from_str("繁體中文");
    }
    if str_eq(key, "file_import") {
        return String::from_str("匯入");
    }
    if str_eq(key, "file_import_docx") {
        return String::from_str("從 Word (.docx)");
    }
    if str_eq(key, "file_import_xlsx") {
        return String::from_str("從試算表 (.xlsx)");
    }
    if str_eq(key, "file_import_pdf") {
        return String::from_str("從 PDF");
    }
    if str_eq(key, "file_import_pptx") {
        return String::from_str("從 PowerPoint (.pptx)");
    }
    if str_eq(key, "file_export") {
        return String::from_str("匯出");
    }
    if str_eq(key, "file_export_docx") {
        return String::from_str("匯出為 Word (.docx)...");
    }
    if str_eq(key, "file_export_xlsx") {
        return String::from_str("匯出為試算表 (.xlsx)...");
    }
    if str_eq(key, "file_export_pdf") {
        return String::from_str("匯出為 PDF...");
    }
    if str_eq(key, "file_export_pptx") {
        return String::from_str("匯出為 PowerPoint (.pptx)...");
    }
    if str_eq(key, "app_about") {
        return String::from_str("關於 MarkBear");
    }
    if str_eq(key, "app_services") {
        return String::from_str("服務");
    }
    if str_eq(key, "app_hide") {
        return String::from_str("隱藏 MarkBear");
    }
    if str_eq(key, "app_hide_others") {
        return String::from_str("隱藏其他");
    }
    if str_eq(key, "app_show_all") {
        return String::from_str("全部顯示");
    }
    if str_eq(key, "app_quit") {
        return String::from_str("結束 MarkBear");
    }
    if str_eq(key, "window_minimize") {
        return String::from_str("縮到最小");
    }
    if str_eq(key, "window_zoom") {
        return String::from_str("縮放");
    }
    if str_eq(key, "window_fullscreen") {
        return String::from_str("切換全螢幕");
    }
    if str_eq(key, "window_close") {
        return String::from_str("關閉視窗");
    }
    key.to_owned()
}

fn label_en(key: &str) -> (r: String)
    ensures
        r@ == en_label(key@),
{
    if str_eq(key, "file") {
        return String::from_str("File");
    }
    if str_eq(key, "file_new") {
        return String::from_str("New File");
    }
    if str_eq(key, "file_open") {
        return String::from_str("Open...");
    }
    if str_eq(key, "file_save") {
        return String::from_str("Save");
    }
    if str_eq(key, "file_save_as") {
        return String::from_str("Save As...");
    }
    if str_eq(key, "file_close_document") {
        return String::from_str("Close Document");
    }
    if str_eq(key, "format") {
        return String::from_str("Format");
    }
    if str_eq(key, "format_text") {
        return String::from_str("Text");
    }
    if str_eq(key, "format_bold") {
        return String::from_str("Bold");
    }
    if str_eq(key, "format_italic") {
        return String::from_str("Italic");
    }
    if str_eq(key, "format_strike") {
        return String::from_str("Strikethrough");
    }
    if str_eq(key, "format_inline_code") {
        return String::from_str("Inline Code");
    }
    if str_eq(key, "format_headings") {
        return String::from_str("Headings");
    }
    if str_eq(key, "format_paragraph") {
        return String::from_str("Paragraph");
    }
    if str_eq(key, "format_heading_1") {
        return String::from_str("Heading 1");
    }
    if str_eq(key, "format_heading_2") {
        return String::from_str("Heading 2");
    }
    if str_eq(key, "format_heading_3") {
        return String::from_str("Heading 3");
    }
    if str_eq(key, "format_heading_4") {
        return String::from_str("Heading 4");
    }
    if str_eq(key, "format_heading_5") {
        return String::from_str("Heading 5");
    }
    if str_eq(key, "format_heading_6") {
        return String::from_str("Heading 6");
    }
    if str_eq(key, "format_lists") {
        return String::from_str("Lists");
    }
    if str_eq(key, "format_bullet_list") {
        return String::from_str("Bullet List");
    }
    if str_eq(key, "format_ordered_list") {
        return String::from_str("Ordered List");
    }
    if str_eq(key, "format_blocks") {
        return String::from_str("Blocks");
    }
    if str_eq(key, "format_blockquote") {
        return String::from_str("Blockquote");
    }
    if str_eq(key, "format_code_block") {
        return String::from_str("Code Block");
    }
    if str_eq(key, "format_horizontal_rule") {
        return String::from_str("Horizontal Rule");
    }
    if str_eq(key, "view") {
        return String::from_str("View");
    }
    if str_eq(key, "view_source_code") {
        return String::from_str("Source Code");
    }
    if str_eq(key, "view_theme") {
        return String::from_str("Theme");
    }
    if str_eq(key, "view_language") {
        return String::from_str("Language");
    }
    if str_eq(key, "edit") {
        return String::from_str("Edit");
    }
    if str_eq(key, "edit_undo") {
        return String::from_str("Undo");
    }
    if str_eq(key, "edit_redo") {
        return String::from_str("Redo");
    }
    if str_eq(key, "edit_cut") {
        return String::from_str("Cut");
    }
    if str_eq(key, "edit_copy") {
        return String::from_str("Copy");
    }
    if str_eq(key, "edit_paste") {
        return String::from_str("Paste");
    }
    if str_eq(key, "edit_select_all") {
        return String::from_str("Select All");
    }
    if str_eq(key, "edit_find") {
        return String::from_str("Find...");
    }
    if str_eq(key, "edit_find_in_files") {
        return String::from_str("Find in Files");
    }
    if str_eq(key, "window") {
        return String::from_str("Window");
    }
    if str_eq(key, "help") {
        return String::from_str("Help");
    }
    if str_eq(key, "lang_en") {
        return String::from_str("English");
    }
    if str_eq(key, "lang_zh") {
        return String::from_str("繁體中文");
    }
    if str_eq(key, "file_import") {
        return String::from_str("Import");
    }
    if str_eq(key, "file_import_docx") {
        return String::from_str("From Word (.docx)");
    }
    if str_eq(key, "file_import_xlsx") {
        return String::from_str("From Spreadsheet (.xlsx)");
    }
    if str_eq(key, "file_import_pdf") {
        return String::from_str("From PDF");
    }
    if str_eq(key, "file_import_pptx") {
        return String::from_str("From PowerPoint (.pptx)");
    }
    if str_eq(key, "file_export") {
        return String::from_str("Export");
    }
    if str_eq(key, "file_export_docx") {
        return String::from_str("Export as Word (.docx)...");
    }
    if str_eq(key, "file_export_xlsx") {
        return String::from_str("Export as Spreadsheet (.xlsx)...");
    }
    if str_eq(key, "file_export_pdf") {
        return String::from_str("Export as PDF...");
    }
    if str_eq(key, "file_export_pptx") {
        return String::from_str("Export as PowerPoint (.pptx)...");
    }
    if str_eq(key, "app_about") {
        return String::from_str("About MarkBear");
    }
    if str_eq(key, "app_services") {
        return String::from_str("Services");
    }
    if str_eq(key, "app_hide") {
        return String::from_str("Hide MarkBear");
    }
    if str_eq(key, "app_hide_others") {
        return String::from_str("Hide Others");
    }
    if str_eq(key, "app_show_all") {
        return String::from_str("Show All");
    }
    if str_eq(key, "app_quit") {
        return String::from_str("Quit MarkBear");
    }
    if str_eq(key, "window_minimize") {
        return String::from_str("Minimize");
    }
    if str_eq(key, "window_zoom") {
        return String::from_str("Zoom");
    }
    if str_eq(key, "window_fullscreen") {
        return String::from_str("Toggle Full Screen");
    }
    if str_eq(key, "window_close") {
        return String::from_str("Close Window");
    }
    key.to_owned()
}

/// Looks up the menu label for `key` in `lang`; unknown keys come back
/// unchanged, unknown languages fall back to English.
pub fn get_label(lang: &str, key: &str) -> (r: String)
    ensures
        r@ == label_of(lang@, key@),
{
    if str_eq(lang, "zh") {
        label_zh(key)
    } else {
        label_en(key)
    }
}

} // verus!
