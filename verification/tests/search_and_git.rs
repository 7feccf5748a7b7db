use madsterm::git::{
    count_diff_lines, detached_head_label, map_status_string, origin_label, status_entries,
};
use madsterm::search::{build_search_pattern, collect_line_matches};

#[test]
fn test_map_status_new() {
    assert_eq!(map_status_string(true, false, false), "added");
}

#[test]
fn test_map_status_deleted() {
    assert_eq!(map_status_string(false, true, false), "deleted");
}

#[test]
fn test_map_status_renamed() {
    assert_eq!(map_status_string(false, false, true), "renamed");
}

#[test]
fn test_map_status_modified() {
    assert_eq!(map_status_string(false, false, false), "modified");
}

#[test]
fn status_entries_split_staged_and_unstaged() {
    // Staged addition and unstaged modification of the same file.
    let entries = status_entries(
        "a.txt", true, false, false, false, false, true, false, false, (3, 0), (1, 2),
    );
    assert_eq!(entries.len(), 2);
    assert_eq!(entries[0].path, "a.txt");
    assert_eq!(entries[0].status, "added");
    assert_eq!((entries[0].additions, entries[0].deletions), (3, 0));
    assert!(entries[0].is_staged);
    assert_eq!(entries[1].status, "modified");
    assert_eq!((entries[1].additions, entries[1].deletions), (1, 2));
    assert!(!entries[1].is_staged);
}

#[test]
fn status_entries_nothing_for_unchanged() {
    let entries = status_entries(
        "a.txt", false, false, false, false, false, false, false, false, (0, 0), (0, 0),
    );
    assert!(entries.is_empty());
}

#[test]
fn diff_line_counts() {
    let origins = vec!['+', '+', ' ', '-', '=', '+'];
    assert_eq!(count_diff_lines(&origins), (3, 1));
    assert_eq!(count_diff_lines(&Vec::new()), (0, 0));
}

#[test]
fn detached_head_shows_short_hash() {
    assert_eq!(
        detached_head_label("0123456789abcdef0123456789abcdef01234567"),
        "(0123456)"
    );
}

#[test]
fn origin_labels() {
    assert_eq!(origin_label('+'), "+");
    assert_eq!(origin_label('-'), "-");
    assert_eq!(origin_label(' '), " ");
    assert_eq!(origin_label('='), " ");
}

#[test]
fn literal_matches_in_a_line() {
    let re = build_search_pattern("cat", true, false, false).expect("pattern");
    let matches = collect_line_matches(&re, "cat catalog scattered", 3);
    assert_eq!(matches.len(), 3);
    assert_eq!(matches[0].line_number, 3);
    assert_eq!(matches[0].line_content, "cat catalog scattered");
    assert_eq!((matches[0].match_start, matches[0].match_end), (0, 3));
    assert_eq!((matches[1].match_start, matches[1].match_end), (4, 7));
}

#[test]
fn whole_word_matches_only_the_word() {
    let re = build_search_pattern("cat", false, true, false).expect("pattern");
    let matches = collect_line_matches(&re, "cat catalog scattered", 1);
    assert_eq!(matches.len(), 1);
    assert_eq!((matches[0].match_start, matches[0].match_end), (0, 3));
}

#[test]
fn case_insensitive_matches_all_spellings() {
    let re = build_search_pattern("Hello", false, false, false).expect("pattern");
    let matches = collect_line_matches(&re, "Hello HELLO hello", 1);
    assert_eq!(matches.len(), 3);
}

#[test]
fn case_sensitive_matches_one_spelling() {
    let re = build_search_pattern("Hello", true, false, false).expect("pattern");
    let matches = collect_line_matches(&re, "Hello HELLO hello", 1);
    assert_eq!(matches.len(), 1);
}

#[test]
fn regex_mode_uses_the_pattern_as_written() {
    let re = build_search_pattern(r"\w+\d+", true, false, true).expect("pattern");
    let matches = collect_line_matches(&re, "foo123 bar456 baz", 1);
    assert_eq!(matches.len(), 2);
}

#[test]
fn escaped_mode_treats_metacharacters_literally() {
    let re = build_search_pattern("a.b", true, false, false).expect("pattern");
    let matches = collect_line_matches(&re, "a.b axb", 1);
    assert_eq!(matches.len(), 1);
    assert_eq!((matches[0].match_start, matches[0].match_end), (0, 3));
}

#[test]
fn broken_pattern_is_rejected() {
    match build_search_pattern("(", true, false, true) {
        Err(madsterm::error::AppError::InvalidInput(m)) => {
            assert!(m.starts_with("Invalid regex: "))
        }
        other => panic!("expected InvalidInput, got {:?}", other.map(|_| ())),
    }
}

#[test]
fn match_offsets_count_characters_not_bytes() {
    let re = build_search_pattern("cat", true, false, false).expect("pattern");
    // "é" is two bytes but one character; offsets must count characters.
    let matches = collect_line_matches(&re, "é cat", 1);
    assert_eq!(matches.len(), 1);
    assert_eq!((matches[0].match_start, matches[0].match_end), (2, 5));
}

fn leaf(name: &str) -> madsterm::tree::FileNode {
    madsterm::tree::FileNode {
        name: name.to_string(),
        path: format!("/x/{name}"),
        is_dir: false,
        children: None,
    }
}

fn dir(name: &str) -> madsterm::tree::FileNode {
    madsterm::tree::FileNode {
        name: name.to_string(),
        path: format!("/x/{name}"),
        is_dir: true,
        children: Some(Vec::new()),
    }
}

#[test]
fn children_are_ordered_dirs_first_then_by_name() {
    let dirs = vec![dir("zdir"), dir("adir")];
    let files = vec![leaf("bfile.txt"), leaf("afile.txt")];
    let ordered = madsterm::tree::order_children(dirs, files);
    let names: Vec<&str> = ordered.iter().map(|c| c.name.as_str()).collect();
    assert_eq!(names, vec!["adir", "zdir", "afile.txt", "bfile.txt"]);
}

#[test]
fn ordering_folds_case_and_keeps_every_entry() {
    let files = vec![leaf("Beta"), leaf("alpha"), leaf("GAMMA"), leaf("delta")];
    let ordered = madsterm::tree::order_children(Vec::new(), files);
    let names: Vec<&str> = ordered.iter().map(|c| c.name.as_str()).collect();
    assert_eq!(names, vec!["alpha", "Beta", "delta", "GAMMA"]);
}

#[test]
fn content_scan_numbers_lines_and_strips_line_endings() {
    let re = build_search_pattern("Hello", true, false, false).expect("pattern");
    let (matches, truncated) =
        madsterm::search::collect_content_matches(&re, "Hello world\r\nfoo bar\nHello again", 100);
    assert!(!truncated);
    assert_eq!(matches.len(), 2);
    assert_eq!(matches[0].line_number, 1);
    assert_eq!(matches[0].line_content, "Hello world");
    assert_eq!((matches[0].match_start, matches[0].match_end), (0, 5));
    assert_eq!(matches[1].line_number, 3);
    assert_eq!(matches[1].line_content, "Hello again");
}

#[test]
fn content_scan_stops_at_the_budget() {
    let re = build_search_pattern("match", true, false, false).expect("pattern");
    let content = "match\n".repeat(100);
    let (matches, truncated) = madsterm::search::collect_content_matches(&re, &content, 5);
    assert_eq!(matches.len(), 5);
    assert!(truncated);
    assert_eq!(matches[4].line_number, 5);

    let (all, exact) = madsterm::search::collect_content_matches(&re, &content, 100);
    assert_eq!(all.len(), 100);
    assert!(exact, "reaching the budget exactly reports truncation");
}

#[test]
fn content_scan_handles_a_final_line_without_newline() {
    let re = build_search_pattern("tail", true, false, false).expect("pattern");
    let (matches, truncated) = madsterm::search::collect_content_matches(&re, "head\ntail", 10);
    assert!(!truncated);
    assert_eq!(matches.len(), 1);
    assert_eq!(matches[0].line_number, 2);
    assert_eq!(matches[0].line_content, "tail");
}

#[test]
fn content_scan_of_empty_content_finds_nothing() {
    let re = build_search_pattern("x", true, false, false).expect("pattern");
    let (matches, truncated) = madsterm::search::collect_content_matches(&re, "", 10);
    assert!(matches.is_empty());
    assert!(!truncated);
}
