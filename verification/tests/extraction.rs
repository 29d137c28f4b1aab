use bookmark_vault::attr::extract_attr_value;
use bookmark_vault::orchestrate::{extract_bookmarks, ProjectSource};
use bookmark_vault::parse::{
    parse_bookmarks_from_global_workspace, parse_bookmarks_from_project_idea, unescape_text,
};
use bookmark_vault::paths::{clean_bookmark_path, extract_project_name, file_name_of};
use bookmark_vault::records::BookmarkKind;
use bookmark_vault::recent::recent_project_candidates;
use bookmark_vault::strutil::parse_i32;

#[test]
fn attr_double_quoted() {
    let chunk = "<bookmark url=\"file://x\" line=\"3\" />";
    assert_eq!(extract_attr_value(chunk, "url"), Some("file://x".to_string()));
    assert_eq!(extract_attr_value(chunk, "line"), Some("3".to_string()));
}

#[test]
fn attr_single_quoted() {
    let chunk = "<bookmark url='file://y' />";
    assert_eq!(extract_attr_value(chunk, "url"), Some("file://y".to_string()));
}

#[test]
fn attr_absent_is_none() {
    assert_eq!(extract_attr_value("<bookmark line=\"3\" />", "url"), None);
}

#[test]
fn attr_unterminated_quote_is_none() {
    assert_eq!(extract_attr_value("<bookmark url=\"file://x", "url"), None);
}

#[test]
fn attr_prefers_first_match() {
    let chunk = "a=\"one\" a=\"two\"";
    assert_eq!(extract_attr_value(chunk, "a"), Some("one".to_string()));
}

#[test]
fn normalize_project_dir_with_root() {
    let r = clean_bookmark_path("file://$PROJECT_DIR$/a/b.txt", Some("/root"));
    assert_eq!(r, "/root/a/b.txt");
}

#[test]
fn normalize_project_dir_without_root() {
    let r = clean_bookmark_path("file://$PROJECT_DIR$/a/b.txt", None);
    assert_eq!(r, "[unknown root]/a/b.txt");
}

#[test]
fn normalize_drive_letter_path() {
    let r = clean_bookmark_path("file:///C:/Users/x/f.txt", None);
    assert_eq!(r, "C:/Users/x/f.txt");
}

#[test]
fn normalize_plain_uri() {
    assert_eq!(clean_bookmark_path("file:///home/u/a.rs", None), "/home/u/a.rs");
}

#[test]
fn unescape_fixed_entities_in_order() {
    assert_eq!(unescape_text("&quot;a&lt;b&gt;c&amp;d"), "\"a<b>c&d");
    assert_eq!(unescape_text("&amp;lt;"), "&lt;");
}

#[test]
fn file_name_takes_last_component() {
    assert_eq!(file_name_of("/home/u/proj/main.rs"), "main.rs");
    assert_eq!(file_name_of("C:\\work\\a.txt"), "a.txt");
    assert_eq!(file_name_of("/home/u/proj/"), "proj");
    assert_eq!(file_name_of("/"), "");
}

#[test]
fn project_name_from_src_component() {
    assert_eq!(extract_project_name("/home/user/myproj/src/main.rs"), "myproj");
    assert_eq!(extract_project_name("C:\\work\\proj\\src\\x.rs"), "proj");
}

#[test]
fn project_name_fallback_is_parent_dir() {
    assert_eq!(extract_project_name("/a/b/c.txt"), "b");
    assert_eq!(extract_project_name("c.txt"), "Unknown");
}

#[test]
fn parse_i32_shapes() {
    assert_eq!(parse_i32("42"), Some(42));
    assert_eq!(parse_i32("-7"), Some(-7));
    assert_eq!(parse_i32("+3"), Some(3));
    assert_eq!(parse_i32("0012"), Some(12));
    assert_eq!(parse_i32(""), None);
    assert_eq!(parse_i32("+"), None);
    assert_eq!(parse_i32("12a"), None);
    assert_eq!(parse_i32("2147483647"), Some(2147483647));
    assert_eq!(parse_i32("2147483648"), None);
    assert_eq!(parse_i32("-2147483648"), Some(-2147483648));
    assert_eq!(parse_i32("-2147483649"), None);
}

#[test]
fn legacy_line_numbers_are_one_indexed() {
    let doc = "<component name=\"BookmarkManager\">\
               <bookmark url=\"file://$PROJECT_DIR$/a.rs\" line=\"41\" />\
               <bookmark url=\"file://$PROJECT_DIR$/b.rs\" line=\"0\" />\
               <bookmark url=\"file://$PROJECT_DIR$/c.rs\" />\
               </component>";
    let records = parse_bookmarks_from_project_idea(doc, "demo", None);
    assert_eq!(records.len(), 3);
    assert_eq!(records[0].line_number, 42);
    assert_eq!(records[1].line_number, 1);
    assert_eq!(records[2].line_number, 1);
}

#[test]
fn legacy_fields_and_classification() {
    let doc = "<bookmark url=\"file:///p/q/r.rs\" line=\"4\" \
               description=\"a &quot;b&quot;\" mnemonic=\"1\" />\
               <bookmark url=\"file:///p/q/s.rs\" line=\"5\" mnemonic=\"\" />";
    let records = parse_bookmarks_from_project_idea(doc, "demo", None);
    assert_eq!(records.len(), 2);
    assert_eq!(records[0].project_name, "demo");
    assert_eq!(records[0].file_path, "/p/q/r.rs");
    assert_eq!(records[0].file_name, "r.rs");
    assert_eq!(records[0].description, "a \"b\"");
    assert_eq!(records[0].mnemonic, Some("1".to_string()));
    assert_eq!(records[0].kind, BookmarkKind::Mnemonic);
    // a present but empty mnemonic leaves the bookmark anonymous
    assert_eq!(records[1].mnemonic, None);
    assert_eq!(records[1].kind, BookmarkKind::Anonymous);
}

#[test]
fn legacy_project_root_substitution() {
    let doc = "<bookmark url=\"file://$PROJECT_DIR$/m.rs\" line=\"1\" />";
    let records = parse_bookmarks_from_project_idea(doc, "demo", Some("/work/demo"));
    assert_eq!(records[0].file_path, "/work/demo/m.rs");
}

fn global_doc_two_groups() -> String {
    "<component name=\"BookmarksManager\">\
     <GroupState>\
     <BookmarkState>\
     <entry key=\"url\" value=\"file://$PROJECT_DIR$/src/main.rs\" />\
     <entry key=\"line\" value=\"10\" />\
     <option name=\"description\" value=\"entry &amp; point\" />\
     </BookmarkState>\
     <option name=\"name\" value=\"beta\" />\
     </GroupState>\
     <GroupState>\
     <BookmarkState>\
     <entry key=\"url\" value=\"file://$PROJECT_DIR$/lib.rs\" />\
     <entry key=\"line\" value=\"2\" />\
     <entry key=\"mnemonic\" value=\"A\" />\
     </BookmarkState>\
     <option name=\"name\" value=\"alpha\" />\
     </GroupState>\
     </component>"
        .to_string()
}

#[test]
fn global_parser_reads_groups_and_fields() {
    let records = parse_bookmarks_from_global_workspace(&global_doc_two_groups());
    assert_eq!(records.len(), 2);
    assert_eq!(records[0].project_name, "beta");
    assert_eq!(records[0].line_number, 11);
    assert_eq!(records[0].description, "entry & point");
    assert_eq!(records[0].kind, BookmarkKind::Anonymous);
    assert_eq!(records[1].project_name, "alpha");
    assert_eq!(records[1].mnemonic, Some("A".to_string()));
    assert_eq!(records[1].kind, BookmarkKind::Mnemonic);
}

#[test]
fn no_component_marker_yields_empty() {
    assert_eq!(parse_bookmarks_from_global_workspace("<project></project>").len(), 0);
    assert_eq!(parse_bookmarks_from_project_idea("<project></project>", "p", None).len(), 0);
    let none = extract_bookmarks(&vec!["<project></project>".to_string()], &Vec::new());
    assert_eq!(none.len(), 0);
}

#[test]
fn orchestrator_sorts_by_project_name() {
    let records = extract_bookmarks(&vec![global_doc_two_groups()], &Vec::new());
    assert_eq!(records.len(), 2);
    assert_eq!(records[0].project_name, "alpha");
    assert_eq!(records[1].project_name, "beta");
}

#[test]
fn orchestrator_fallback_deduplicates_by_path_and_line() {
    let doc_a = "<bookmark url=\"file:///p/same.rs\" line=\"7\" description=\"first\" />";
    let doc_b = "<bookmark url=\"file:///p/same.rs\" line=\"7\" description=\"second\" />\
                 <bookmark url=\"file:///p/other.rs\" line=\"7\" />";
    let sources = vec![
        ProjectSource { project_name: "one".to_string(), documents: vec![doc_a.to_string()] },
        ProjectSource { project_name: "two".to_string(), documents: vec![doc_b.to_string()] },
    ];
    let records = extract_bookmarks(&Vec::new(), &sources);
    assert_eq!(records.len(), 2);
    // the duplicate key keeps the first-seen record
    assert_eq!(records[0].project_name, "one");
    assert_eq!(records[0].description, "first");
    assert_eq!(records[1].file_path, "/p/other.rs");
}

#[test]
fn orchestrator_prefers_global_sources() {
    let fallback = vec![ProjectSource {
        project_name: "legacy".to_string(),
        documents: vec!["<bookmark url=\"file:///f.rs\" line=\"1\" />".to_string()],
    }];
    let records = extract_bookmarks(&vec![global_doc_two_groups()], &fallback);
    assert_eq!(records.len(), 2);
    assert!(records.iter().all(|r| r.project_name != "legacy"));
}

#[test]
fn attr_empty_value_is_some_empty() {
    assert_eq!(extract_attr_value("m=\"\"", "m"), Some(String::new()));
}

#[test]
fn group_without_name_option_gets_fallback_name() {
    let doc = "<component name=\"BookmarksManager\">\
               <GroupState>\
               <BookmarkState>\
               <entry key=\"url\" value=\"file:///p/a.rs\" />\
               </BookmarkState>\
               </GroupState>\
               </component>";
    let records = parse_bookmarks_from_global_workspace(doc);
    assert_eq!(records.len(), 1);
    assert_eq!(records[0].project_name, "Unknown Project");
}

#[test]
fn bookmark_block_without_url_is_skipped() {
    let doc = "<component name=\"BookmarksManager\">\
               <GroupState>\
               <BookmarkState>\
               <entry key=\"line\" value=\"3\" />\
               </BookmarkState>\
               <option name=\"name\" value=\"p\" />\
               </GroupState>\
               </component>";
    assert_eq!(parse_bookmarks_from_global_workspace(doc).len(), 0);
}

#[test]
fn sort_is_stable_for_equal_project_names() {
    let doc = "<component name=\"BookmarksManager\">\
               <GroupState>\
               <BookmarkState>\
               <entry key=\"url\" value=\"file:///p/first.rs\" />\
               <entry key=\"line\" value=\"1\" />\
               </BookmarkState>\
               <BookmarkState>\
               <entry key=\"url\" value=\"file:///p/second.rs\" />\
               <entry key=\"line\" value=\"2\" />\
               </BookmarkState>\
               <option name=\"name\" value=\"same\" />\
               </GroupState>\
               </component>";
    let records = extract_bookmarks(&vec![doc.to_string()], &Vec::new());
    assert_eq!(records.len(), 2);
    // equal sort keys keep their original relative order
    assert_eq!(records[0].file_name, "first.rs");
    assert_eq!(records[1].file_name, "second.rs");
}

#[test]
fn recent_candidates_filter_substitute_and_dedup() {
    let content = "a\"/home/u/proj\"b\"$USER_HOME$/work\"c\"/tmp/x.jar\"d\"/home/u/proj\"e";
    let c = recent_project_candidates(content, "/home/u");
    assert_eq!(c, vec!["/home/u/proj".to_string(), "/home/u/work".to_string()]);
}
