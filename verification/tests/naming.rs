use media_mirror::layout::{fragment_filename, is_fragment_name, join_path, page_filename};
use media_mirror::sanitize::{institution_folder, sanitize};
use media_mirror::table::{find_column, plan_crawler_row};
use media_mirror::text::{contains_str, eq_str, starts_with_str};
use media_mirror::urls::normalize_url;

#[test]
fn sanitize_strips_and_underscores() {
    assert_eq!(sanitize("Foo Bar, Inc."), "Foo_Bar_Inc");
}

#[test]
fn sanitize_is_idempotent_on_example() {
    let once = sanitize("Foo Bar, Inc.");
    assert_eq!(sanitize(&once), once);
}

#[test]
fn sanitize_collapses_whitespace_runs() {
    assert_eq!(sanitize("a \t b"), "a_b");
    assert_eq!(sanitize("  "), "_");
    assert_eq!(sanitize(""), "");
}

#[test]
fn sanitize_keeps_underscore_and_hyphen() {
    assert_eq!(sanitize("state_u-main"), "state_u-main");
}

#[test]
fn sanitize_drops_separators() {
    assert_eq!(sanitize("a/b\\c"), "abc");
}

#[test]
fn folder_name_trims_before_sanitizing() {
    assert_eq!(institution_folder("  Foo Bar, Inc.  "), "Foo_Bar_Inc");
}

#[test]
fn normalize_keeps_a_recognized_scheme() {
    let p = normalize_url("https://example.edu").unwrap();
    assert_eq!(p.text, "https://example.edu/");
}

#[test]
fn normalize_prepends_default_scheme() {
    let p = normalize_url("example.edu").unwrap();
    assert_eq!(p.text, "https://example.edu/");
}

#[test]
fn normalize_rejects_whitespace_input() {
    let e = normalize_url("   ").unwrap_err();
    assert_eq!(e.input, "   ");
}

#[test]
fn normalize_reports_host_and_last_segment() {
    let p = normalize_url("https://player.vimeo.com/video/12345").unwrap();
    assert_eq!(p.host.as_deref(), Some("player.vimeo.com"));
    assert_eq!(p.last_segment.as_deref(), Some("12345"));
}

#[test]
fn fragment_filenames_are_sequential() {
    assert_eq!(fragment_filename(1), "video_1.html");
    assert_eq!(fragment_filename(2), "video_2.html");
    assert_eq!(fragment_filename(12), "video_12.html");
    assert_eq!(fragment_filename(907), "video_907.html");
}

#[test]
fn paths_join_with_one_separator() {
    assert_eq!(join_path("output", "FooBar_Inc"), "output/FooBar_Inc");
    assert_eq!(page_filename(), "index.html");
}

#[test]
fn fragment_names_are_recognized() {
    assert!(is_fragment_name("video_3.html"));
    assert!(!is_fragment_name("index.html"));
}

#[test]
fn string_helpers_behave() {
    assert!(eq_str("abc", "abc"));
    assert!(!eq_str("abc", "abd"));
    assert!(contains_str("player.vimeo.com", "vimeo.com"));
    assert!(!contains_str("www.youtube.com", "vimeo.com"));
    assert!(starts_with_str("video_1.html", "video_"));
    assert!(!starts_with_str("index.html", "video_"));
}

#[test]
fn find_column_returns_first_match() {
    let headers = vec![
        "UNITID".to_string(),
        "INSTNM".to_string(),
        "WEBADDR".to_string(),
    ];
    assert_eq!(find_column(&headers, "WEBADDR"), Some(2));
    assert_eq!(find_column(&headers, "INSTNM"), Some(1));
    assert_eq!(find_column(&headers, "STABBR"), None);
}

#[test]
fn crawler_rows_keep_normalized_addresses() {
    let row = plan_crawler_row("example.edu", "Foo U").unwrap();
    assert_eq!(row.0, "https://example.edu/");
    assert_eq!(row.1, "Foo U");
    assert!(plan_crawler_row("   ", "Bad U").is_none());
}
