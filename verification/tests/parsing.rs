use permasnip::{LineRange, ParsedUrl, PermalinkError, parse_github_url_line_numbers, parse_path};

#[test]
fn parses_full_permalink() {
    let url = "https://github.com/ionic-team/stencil/blob/d5011d0ca5988ca862263fb990f6eb1a34b9c4d3/src/declarations/stencil-public-runtime.ts#L572-L578";
    let parsed = ParsedUrl::new(url).unwrap();
    assert_eq!(parsed.owner, "ionic-team");
    assert_eq!(parsed.repo, "stencil");
    assert_eq!(parsed.sha, "d5011d0ca5988ca862263fb990f6eb1a34b9c4d3");
    assert_eq!(parsed.file_path, "src/declarations/stencil-public-runtime.ts");
    assert_eq!(parsed.line_range, Some(LineRange { start: 572, end: 578 }));
}

#[test]
fn path_parts_recovered_exactly() {
    let parts = parse_path("/my-owner/my-repo0/blob/abc123/dir/file.rs").unwrap();
    assert_eq!(parts.owner, "my-owner");
    assert_eq!(parts.repo, "my-repo0");
    assert_eq!(parts.sha, "abc123");
    assert_eq!(parts.file_path, "dir/file.rs");
}

#[test]
fn path_with_empty_file_part() {
    let parts = parse_path("/o/r/blob/c/").unwrap();
    assert_eq!(parts.file_path, "");
}

#[test]
fn path_with_uppercase_owner_is_rejected() {
    assert!(parse_path("/Owner/repo/blob/abc/file").is_none());
}

#[test]
fn missing_blob_segment_is_malformed() {
    let r = ParsedUrl::new("https://github.com/owner/repo/tree/abc123/file.rs");
    assert_eq!(r, Err(PermalinkError::MalformedUrl));
}

#[test]
fn not_a_url_is_malformed() {
    let r = ParsedUrl::new("no scheme at all");
    assert_eq!(r, Err(PermalinkError::MalformedUrl));
}

#[test]
fn fragment_out_of_order_is_normalised() {
    let r = parse_github_url_line_numbers("L50-L10");
    assert_eq!(r, Ok(LineRange { start: 10, end: 50 }));
}

#[test]
fn fragment_single_line() {
    let r = parse_github_url_line_numbers("L7");
    assert_eq!(r, Ok(LineRange { start: 7, end: 7 }));
}

#[test]
fn fragment_non_numeric_is_invalid() {
    let r = parse_github_url_line_numbers("Lxyz");
    assert_eq!(r, Err(PermalinkError::InvalidLineNumber));
    let url = "https://github.com/owner/repo/blob/abc123/file.rs#Lxyz";
    assert_eq!(ParsedUrl::new(url), Err(PermalinkError::InvalidLineNumber));
}

#[test]
fn fragment_zero_is_invalid() {
    let r = parse_github_url_line_numbers("L0");
    assert_eq!(r, Err(PermalinkError::InvalidLineNumber));
}

#[test]
fn fragment_empty_is_invalid() {
    let r = parse_github_url_line_numbers("");
    assert_eq!(r, Err(PermalinkError::InvalidLineNumber));
}

#[test]
fn fragment_three_tokens_is_invalid() {
    let r = parse_github_url_line_numbers("L1-L2-L3");
    assert_eq!(r, Err(PermalinkError::InvalidLineNumber));
}

#[test]
fn fragment_overflowing_number_is_invalid() {
    let r = parse_github_url_line_numbers("L99999999999999999999999999999");
    assert_eq!(r, Err(PermalinkError::InvalidLineNumber));
}

#[test]
fn fragment_without_l_prefix_is_accepted() {
    let r = parse_github_url_line_numbers("12-34");
    assert_eq!(r, Ok(LineRange { start: 12, end: 34 }));
}

#[test]
fn no_fragment_means_whole_file() {
    let url = "https://github.com/owner/repo/blob/abc123/file.rs";
    let parsed = ParsedUrl::new(url).unwrap();
    assert_eq!(parsed.line_range, None);
}

#[test]
fn error_messages_are_distinct() {
    assert!(PermalinkError::MalformedUrl.message().contains("shape"));
    assert!(PermalinkError::InvalidLineNumber.message().contains("line numbers"));
    assert!(PermalinkError::Fetch.message().contains("retrieved"));
    assert!(PermalinkError::ContentNotFound.message().contains("missing"));
}
