use permasnip::{
    LineRange, ParsedUrl, construct_raw_github_link, format_output, select,
};

fn sample(file_path: &str, line_range: Option<LineRange>) -> ParsedUrl {
    ParsedUrl {
        owner: "owner".to_string(),
        repo: "repo".to_string(),
        sha: "abc123".to_string(),
        file_path: file_path.to_string(),
        line_range,
    }
}

#[test]
fn markdown_output_is_exact() {
    let url = "https://example/owner/repo/blob/abc123/src/lib.rs#L2-L4";
    let parsed = sample("src/lib.rs", Some(LineRange { start: 2, end: 4 }));
    let lines = vec!["a".to_string(), "b".to_string(), "c".to_string()];
    let got = format_output(&parsed, url, &lines, true);
    let want = "[src/lib.rs:L2-L4](https://example/owner/repo/blob/abc123/src/lib.rs#L2-L4)\n```rs\na\nb\nc\n```";
    assert_eq!(got, want);
}

#[test]
fn markdown_output_from_parsed_permalink() {
    let url = "https://example/owner/repo/blob/abc123/src/lib.rs#L2-L4";
    let parsed = ParsedUrl::new(url).unwrap();
    let content = "z1\na\nb\nc\nz5";
    let lines = select(content, parsed.line_range);
    let got = format_output(&parsed, url, &lines, true);
    let want = "[src/lib.rs:L2-L4](https://example/owner/repo/blob/abc123/src/lib.rs#L2-L4)\n```rs\na\nb\nc\n```";
    assert_eq!(got, want);
}

#[test]
fn header_without_range_has_no_line_suffix() {
    let parsed = sample("src/lib.rs", None);
    let lines = vec!["x".to_string()];
    let got = format_output(&parsed, "https://u", &lines, true);
    assert_eq!(got, "[src/lib.rs](https://u)\n```rs\nx\n```");
}

#[test]
fn one_line_range_prints_both_bounds() {
    let parsed = sample("a.py", Some(LineRange { start: 9, end: 9 }));
    let lines = vec!["pass".to_string()];
    let got = format_output(&parsed, "u", &lines, true);
    assert_eq!(got, "[a.py:L9-L9](u)\n```py\npass\n```");
}

#[test]
fn file_without_extension_gets_bare_fence() {
    let parsed = sample("Makefile", None);
    let lines = vec!["all:".to_string()];
    let got = format_output(&parsed, "u", &lines, true);
    assert_eq!(got, "[Makefile](u)\n```\nall:\n```");
}

#[test]
fn raw_output_joins_lines_as_they_are() {
    let parsed = sample("src/lib.rs", None);
    let lines = vec!["a".to_string(), "b".to_string(), "c".to_string()];
    let got = format_output(&parsed, "u", &lines, false);
    assert_eq!(got, "a\nb\nc");
}

#[test]
fn raw_output_of_no_lines_is_empty() {
    let parsed = sample("src/lib.rs", None);
    let got = format_output(&parsed, "u", &vec![], false);
    assert_eq!(got, "");
}

#[test]
fn markdown_output_of_no_lines_has_empty_block() {
    let parsed = sample("f.rs", None);
    let got = format_output(&parsed, "u", &vec![], true);
    assert_eq!(got, "[f.rs](u)\n```rs\n```");
}

#[test]
fn raw_link_is_exact() {
    let parsed = sample("dir/file.rs", None);
    let got = construct_raw_github_link(&parsed);
    assert_eq!(got, "https://raw.githubusercontent.com/owner/repo/abc123/dir/file.rs");
}

#[test]
fn decimal_line_numbers_are_printed_in_full() {
    let parsed = sample("f.c", Some(LineRange { start: 100, end: 12345 }));
    let got = format_output(&parsed, "u", &vec![], true);
    assert_eq!(got, "[f.c:L100-L12345](u)\n```c\n```");
}
