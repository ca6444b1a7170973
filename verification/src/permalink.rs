//! A permalink taken apart: owner, repository, commit sha, file path, and
//! the optional line range from the fragment.

use vstd::prelude::*;
use crate::PermalinkError;
use crate::fragment::{LineRange, fragment_range, parse_github_url_line_numbers};
use crate::path::{parse_path, path_matches};
use crate::urlsplit::{split_url, url_accepts, url_fragment_of, url_path_of};

verus! {

/// Everything a permalink says, as plain values. Well-formed when the line
/// range, if present, is an ordered pair of positive numbers.
#[derive(Debug, PartialEq, Eq)]
pub struct ParsedUrl {
    pub owner: String,
    pub repo: String,
    pub sha: String,
    pub file_path: String,
    pub line_range: Option<LineRange>,
}

impl ParsedUrl {
    pub open spec fn wf(self) -> bool {
        match self.line_range {
            Some(r) => r.wf(),
            None => true,
        }
    }

    /// Takes a permalink string apart. Fails with `MalformedUrl` when the
    /// string is not an absolute URL or its path does not have the
    /// owner/repo/blob/sha/file shape, and with `InvalidLineNumber` when a
    /// fragment is present but does not name one or two positive line
    /// numbers.
    pub fn new(raw: &str) -> (r: Result<ParsedUrl, PermalinkError>)
        ensures
            r matches Ok(u) ==> u.wf(),
            !url_accepts(raw@) ==> r == Err::<ParsedUrl, PermalinkError>(
                PermalinkError::MalformedUrl,
            ),
            url_accepts(raw@) && !(exists|o: Seq<char>, q: Seq<char>, s: Seq<char>, f: Seq<char>|
                path_matches(url_path_of(raw@), o, q, s, f)) ==> r == Err::<
                ParsedUrl,
                PermalinkError,
            >(PermalinkError::MalformedUrl),
            r matches Ok(u) ==> url_accepts(raw@) && path_matches(
                url_path_of(raw@),
                u.owner@,
                u.repo@,
                u.sha@,
                u.file_path@,
            ),
            url_accepts(raw@) && (exists|o: Seq<char>, q: Seq<char>, s: Seq<char>, f: Seq<char>|
                path_matches(url_path_of(raw@), o, q, s, f)) ==> match url_fragment_of(raw@) {
                None => r matches Ok(u) && u.line_range is None,
                Some(fr) => match fragment_range(fr) {
                    Some((a, b)) => r matches Ok(u) && u.line_range == Some(
                        LineRange { start: a as usize, end: b as usize },
                    ),
                    None => r == Err::<ParsedUrl, PermalinkError>(
                        PermalinkError::InvalidLineNumber,
                    ),
                },
            },
    {
        let parts = match split_url(raw) {
            Ok(p) => p,
            Err(_) => {
                return Err(PermalinkError::MalformedUrl);
            },
        };
        let pp = match parse_path(parts.path.as_str()) {
            Some(pp) => pp,
            None => {
                return Err(PermalinkError::MalformedUrl);
            },
        };
        let line_range = match parts.fragment {
            None => None,
            Some(frag) => match parse_github_url_line_numbers(frag.as_str()) {
                Ok(lr) => Some(lr),
                Err(e) => {
                    return Err(e);
                },
            },
        };
        Ok(ParsedUrl { owner: pp.owner, repo: pp.repo, sha: pp.sha, file_path: pp.file_path, line_range })
    }
}

/// The address the raw file content lives at for a given permalink.
pub open spec fn raw_link(
    owner: Seq<char>,
    repo: Seq<char>,
    sha: Seq<char>,
    file: Seq<char>,
) -> Seq<char> {
    "https://raw.githubusercontent.com/"@ + owner + "/"@ + repo + "/"@ + sha + "/"@ + file
}

/// Builds the direct raw-content address for the parsed permalink.
pub fn construct_raw_github_link(parsed: &ParsedUrl) -> (r: String)
    ensures
        r@ == raw_link(parsed.owner@, parsed.repo@, parsed.sha@, parsed.file_path@),
{
    let mut u = "https://raw.githubusercontent.com/".to_owned();
    u.append(parsed.owner.as_str());
    u.append("/");
    u.append(parsed.repo.as_str());
    u.append("/");
    u.append(parsed.sha.as_str());
    u.append("/");
    u.append(parsed.file_path.as_str());
    proof {
        assert(u@ =~= raw_link(parsed.owner@, parsed.repo@, parsed.sha@, parsed.file_path@));
    }
    u
}

} // verus!
