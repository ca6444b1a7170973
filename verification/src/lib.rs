//! Takes a permalink to a line or line range of a file on a code forge
//! apart, derives the address of the raw file content, selects the
//! referenced lines out of that content, and renders them either plainly
//! or as a Markdown fenced block with a header linking back to the source.
//! The parsing, the selection and the formatting are all verified; the one
//! outside call is to the `url` crate, which splits a URL string into its
//! path and its fragment.

use vstd::prelude::*;

pub mod digits;
pub mod formatter;
pub mod fragment;
pub mod path;
pub mod permalink;
pub mod scan;
pub mod selector;
pub mod urlsplit;

pub use formatter::format_output;
pub use fragment::{LineRange, parse_github_url_line_numbers};
pub use path::{PathParts, parse_path};
pub use permalink::{ParsedUrl, construct_raw_github_link};
pub use selector::{select, select_lines, split_lines};

verus! {

/// The errors a run can end with: a permalink whose path does not have the
/// owner/repo/blob/sha/file shape, a fragment that does not name one or two
/// positive line numbers, a failed retrieval, and a line element missing from
/// a rendered page.
#[derive(Clone, Copy, Debug, PartialEq, Eq, Structural)]
pub enum PermalinkError {
    MalformedUrl,
    InvalidLineNumber,
    Fetch,
    ContentNotFound,
}

impl PermalinkError {
    /// A human-readable description of the failure.
    pub fn message(&self) -> (m: &'static str)
        ensures
            m@ == match *self {
                PermalinkError::MalformedUrl => "the permalink does not have the owner/repo/blob/sha/path shape"@,
                PermalinkError::InvalidLineNumber => "the fragment does not name one or two positive line numbers"@,
                PermalinkError::Fetch => "the file content could not be retrieved"@,
                PermalinkError::ContentNotFound => "a requested line is missing from the rendered page"@,
            },
    {
        match self {
            PermalinkError::MalformedUrl => "the permalink does not have the owner/repo/blob/sha/path shape",
            PermalinkError::InvalidLineNumber => "the fragment does not name one or two positive line numbers",
            PermalinkError::Fetch => "the file content could not be retrieved",
            PermalinkError::ContentNotFound => "a requested line is missing from the rendered page",
        }
    }
}

} // verus!
