use markbear::labels::get_label;
use markbear::locale::{effective_settings, normalize_language, save_language_to_storage,
    UserSettings};
use markbear::paths::{collect_open_paths, open_path_candidate};
use markbear::listing::{entry_precedes, FileEntry};
use markbear::search::{compile_query, search_file_content};
use markbear::state::AppState;

#[test]
fn labels_cover_both_languages() {
    assert_eq!(get_label("en", "file"), "File");
    assert_eq!(get_label("zh", "file"), "檔案");
    assert_eq!(get_label("en", "file_export_pdf"), "Export as PDF...");
    assert_eq!(get_label("zh", "format_bold"), "粗體");
    assert_eq!(get_label("fr", "file"), "File");
    assert_eq!(get_label("en", "no_such_key"), "no_such_key");
    assert_eq!(get_label("zh", "no_such_key"), "no_such_key");
}

#[test]
fn locale_normalization() {
    assert_eq!(normalize_language("zh"), "zh");
    assert_eq!(normalize_language("ZH-TW"), "zh");
    assert_eq!(normalize_language("zh-Hant"), "zh");
    assert_eq!(normalize_language("en-US"), "en");
    assert_eq!(normalize_language("fr-FR"), "en");
    assert_eq!(normalize_language(""), "en");
    assert_eq!(normalize_language("zhx"), "en");
}

#[test]
fn settings_default_and_update() {
    let s = effective_settings(None);
    assert_eq!(s.language, "en");
    let loaded = Some(UserSettings { language: "zh".to_string() });
    let s2 = effective_settings(loaded);
    assert_eq!(s2.language, "zh");
    let saved = save_language_to_storage(Some(UserSettings { language: "en".to_string() }), "zh");
    assert_eq!(saved.language, "zh");
}

#[test]
fn recent_files_dedup_and_cap() {
    let mut st = AppState::new("en".to_string());
    for i in 0..12 {
        st.add_recent_file(format!("/n/{}.md", i));
    }
    let recent = st.get_recent_files();
    assert_eq!(recent.len(), 10);
    assert_eq!(recent[0], "/n/11.md");
    assert_eq!(recent[9], "/n/2.md");
    st.add_recent_file("/n/5.md".to_string());
    let recent2 = st.get_recent_files();
    assert_eq!(recent2[0], "/n/5.md");
    assert_eq!(recent2.iter().filter(|p| p.as_str() == "/n/5.md").count(), 1);
    assert_eq!(recent2.len(), 10);
}

#[test]
fn pending_open_files_queue_and_drain() {
    let mut st = AppState::new("en".to_string());
    st.queue_open_files(&vec!["a.md".to_string(), "b.md".to_string(), "a.md".to_string()]);
    st.queue_open_files(&vec!["b.md".to_string(), "c.md".to_string()]);
    let pending = st.take_pending_open_files();
    assert_eq!(pending, vec!["a.md".to_string(), "b.md".to_string(), "c.md".to_string()]);
    assert!(st.take_pending_open_files().is_empty());
}

#[test]
fn language_state_is_normalized() {
    let mut st = AppState::new("en".to_string());
    st.set_language("ZH-TW");
    assert_eq!(st.get_language(), "zh");
    st.set_language("de-DE");
    assert_eq!(st.get_language(), "en");
}

#[test]
fn open_path_candidates_filter_arguments() {
    assert_eq!(open_path_candidate("\"/docs/notes.md\""), Some("/docs/notes.md".to_string()));
    assert_eq!(open_path_candidate("/docs/readme.MARKDOWN"), Some("/docs/readme.MARKDOWN".to_string()));
    assert_eq!(open_path_candidate("-psn_0_12345"), None);
    assert_eq!(open_path_candidate(""), None);
    assert_eq!(open_path_candidate("/docs/image.png"), None);
    assert_eq!(open_path_candidate("/docs/.md"), None);
    assert_eq!(open_path_candidate("notes.md"), Some("notes.md".to_string()));
    let args = vec![
        "-psn_0_1".to_string(),
        "one.md".to_string(),
        "two.txt".to_string(),
        "three.markdown".to_string(),
    ];
    assert_eq!(
        collect_open_paths(&args),
        vec!["one.md".to_string(), "three.markdown".to_string()]
    );
}

#[test]
fn search_reports_lines_and_ranges() {
    let re = compile_query("needle", false, false).unwrap();
    let mut results = Vec::new();
    search_file_content(
        "/notes/a.md",
        "hay\nthe Needle here\nno\nneedle needle\n",
        &re,
        &mut results,
    );
    assert_eq!(results.len(), 3);
    assert_eq!(results[0].line_number, 2);
    assert_eq!(results[0].line_content, "the Needle here");
    assert_eq!(results[0].match_start, 4);
    assert_eq!(results[0].match_end, 10);
    assert_eq!(results[1].line_number, 4);
    assert_eq!(results[2].line_number, 4);
    assert_eq!(results[2].match_start, 7);
}

#[test]
fn search_respects_case_and_regex_flags() {
    let re = compile_query("Needle", true, false).unwrap();
    let mut results = Vec::new();
    search_file_content("f.md", "needle\nNeedle\n", &re, &mut results);
    assert_eq!(results.len(), 1);
    assert_eq!(results[0].line_number, 2);

    let re2 = compile_query("a+b", false, true).unwrap();
    let mut r2 = Vec::new();
    search_file_content("f.md", "aab\nxyz\n", &re2, &mut r2);
    assert_eq!(r2.len(), 1);

    let re3 = compile_query("a+b", false, false).unwrap();
    let mut r3 = Vec::new();
    search_file_content("f.md", "aab\na+b\n", &re3, &mut r3);
    assert_eq!(r3.len(), 1);
    assert_eq!(r3[0].line_number, 2);

    assert!(compile_query("(unclosed", false, true).is_err());
}

#[test]
fn search_caps_results() {
    let re = compile_query("x", false, false).unwrap();
    let mut content = String::new();
    for _ in 0..600 {
        content.push_str("x\n");
    }
    let mut results = Vec::new();
    search_file_content("f.md", &content, &re, &mut results);
    assert_eq!(results.len(), 500);
}

#[test]
fn listing_order_is_directories_first_then_name() {
    let d = |name: &str, is_dir: bool| FileEntry {
        name: name.to_string(),
        path: format!("/x/{}", name),
        is_directory: is_dir,
    };
    assert!(entry_precedes(&d("zeta", true), &d("alpha", false)));
    assert!(!entry_precedes(&d("alpha", false), &d("zeta", true)));
    assert!(entry_precedes(&d("Alpha", false), &d("beta", false)));
    assert!(entry_precedes(&d("beta", false), &d("Gamma", false)));
    assert!(entry_precedes(&d("ab", false), &d("abc", false)));
    assert!(!entry_precedes(&d("abc", false), &d("ab", false)));
    assert!(!entry_precedes(&d("same", false), &d("SAME", false)));
    assert!(!entry_precedes(&d("SAME", false), &d("same", false)));
}
