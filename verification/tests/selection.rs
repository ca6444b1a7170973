use permasnip::{LineRange, select, split_lines};

#[test]
fn selects_inner_range_in_order() {
    let doc = "l1\nl2\nl3\nl4\nl5\nl6\nl7\nl8\nl9\nl10";
    let range = Some(LineRange { start: 3, end: 5 });
    let first = select(doc, range);
    assert_eq!(first, vec!["l3", "l4", "l5"]);
    let again = select(doc, range);
    assert_eq!(first, again);
}

#[test]
fn range_past_the_end_truncates() {
    let doc = "l1\nl2\nl3\nl4\nl5";
    let got = select(doc, Some(LineRange { start: 3, end: 10 }));
    assert_eq!(got, vec!["l3", "l4", "l5"]);
}

#[test]
fn range_entirely_past_the_end_is_empty() {
    let doc = "a\nb\nc";
    let got = select(doc, Some(LineRange { start: 7, end: 9 }));
    assert!(got.is_empty());
}

#[test]
fn no_range_selects_every_line() {
    let doc = "a\nb\nc";
    let got = select(doc, None);
    assert_eq!(got, vec!["a", "b", "c"]);
}

#[test]
fn trailing_newline_does_not_add_a_line() {
    assert_eq!(split_lines("a\nb\n"), vec!["a", "b"]);
}

#[test]
fn carriage_returns_are_chomped() {
    assert_eq!(split_lines("a\r\nb"), vec!["a", "b"]);
}

#[test]
fn lone_carriage_return_is_kept() {
    assert_eq!(split_lines("a\rb"), vec!["a\rb"]);
}

#[test]
fn empty_content_has_no_lines() {
    assert!(split_lines("").is_empty());
}

#[test]
fn blank_lines_survive() {
    assert_eq!(split_lines("a\n\nb"), vec!["a", "", "b"]);
}
