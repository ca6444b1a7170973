//! Rendering the selected lines: either plainly, newline-separated, or as
//! a Markdown fenced block under a header that links back to the source.

use vstd::prelude::*;
use crate::digits::{dec_digits, decimal_string};
use crate::fragment::LineRange;
use crate::permalink::ParsedUrl;
use crate::selector::views;

verus! {

/// Index of the last `.` in the path, or `-1` when there is none.
pub open spec fn rfind_dot(s: Seq<char>) -> int
    decreases s.len(),
{
    if s.len() == 0 {
        -1
    } else if s.last() == '.' {
        s.len() - 1
    } else {
        rfind_dot(s.drop_last())
    }
}

pub proof fn lemma_rfind_dot_bounds(s: Seq<char>)
    ensures
        -1 <= rfind_dot(s) < s.len(),
    decreases s.len(),
{
    if s.len() > 0 && s.last() != '.' {
        lemma_rfind_dot_bounds(s.drop_last());
    }
}

/// The file's extension: what follows the last `.` of the path, or nothing
/// when the path has no `.` at all.
pub open spec fn extension_of(path: Seq<char>) -> Option<Seq<char>> {
    let d = rfind_dot(path);
    if d < 0 {
        None
    } else {
        Some(path.skip(d + 1))
    }
}

/// The header of a Markdown-formatted snippet: the file path, with the
/// requested range when there was one, linking back to the permalink.
pub open spec fn header_line(
    file_path: Seq<char>,
    range: Option<LineRange>,
    url: Seq<char>,
) -> Seq<char> {
    match range {
        None => "["@ + file_path + "]("@ + url + ")"@,
        Some(r) => "["@ + file_path + ":L"@ + dec_digits(r.start as int) + "-L"@ + dec_digits(
            r.end as int,
        ) + "]("@ + url + ")"@,
    }
}

/// The opening fence, annotated with the file's extension when it has one.
pub open spec fn fence_open(file_path: Seq<char>) -> Seq<char> {
    "```"@ + match extension_of(file_path) {
        Some(e) => e,
        None => Seq::<char>::empty(),
    }
}

/// Every line followed by a newline.
pub open spec fn body_lines(ls: Seq<Seq<char>>) -> Seq<char>
    decreases ls.len(),
{
    if ls.len() == 0 {
        Seq::<char>::empty()
    } else {
        ls[0] + "\n"@ + body_lines(ls.skip(1))
    }
}

/// The lines joined with newline separators, nothing after the last.
pub open spec fn join_lines(ls: Seq<Seq<char>>) -> Seq<char>
    decreases ls.len(),
{
    if ls.len() == 0 {
        Seq::<char>::empty()
    } else if ls.len() == 1 {
        ls[0]
    } else {
        ls[0] + "\n"@ + join_lines(ls.skip(1))
    }
}

/// The whole Markdown form: header, opening fence, the lines, closing
/// fence.
pub open spec fn markdown_output(
    file_path: Seq<char>,
    range: Option<LineRange>,
    url: Seq<char>,
    lines: Seq<Seq<char>>,
) -> Seq<char> {
    header_line(file_path, range, url) + "\n"@ + fence_open(file_path) + "\n"@ + body_lines(lines)
        + "```"@
}

fn last_dot_index(p: &str) -> (r: Option<usize>)
    ensures
        match r {
            Some(d) => rfind_dot(p@) == d as int && d < p@.len(),
            None => rfind_dot(p@) < 0,
        },
{
    let n = p.unicode_len();
    let mut i: usize = n;
    proof {
        assert(p@.take(n as int) =~= p@);
    }
    while i > 0
        invariant
            i <= n,
            n == p@.len(),
            rfind_dot(p@) == rfind_dot(p@.take(i as int)),
        decreases i,
    {
        if p.get_char(i - 1) == '.' {
            proof {
                assert(p@.take(i as int).last() == p@[i - 1]);
            }
            return Some(i - 1);
        }
        proof {
            assert(p@.take(i as int).last() == p@[i - 1]);
            assert(p@.take(i as int).drop_last() =~= p@.take(i - 1));
        }
        i = i - 1;
    }
    proof {
        assert(p@.take(0) =~= Seq::<char>::empty());
    }
    None
}

fn join_from(lines: &Vec<String>, idx: usize) -> (r: String)
    requires
        idx <= lines.len(),
    ensures
        r@ == join_lines(views(lines@).skip(idx as int)),
    decreases lines.len() - idx,
{
    if idx == lines.len() {
        proof {
            assert(views(lines@).skip(idx as int) =~= Seq::<Seq<char>>::empty());
        }
        String::new()
    } else if idx + 1 == lines.len() {
        proof {
            assert(views(lines@).skip(idx as int) =~= seq![lines@[idx as int]@]);
        }
        lines[idx].clone()
    } else {
        let mut s = lines[idx].clone();
        s.append("\n");
        let rest = join_from(lines, idx + 1);
        s.append(rest.as_str());
        proof {
            let vs = views(lines@).skip(idx as int);
            assert(vs[0] == lines@[idx as int]@);
            assert(vs.skip(1) =~= views(lines@).skip(idx as int + 1));
            assert(s@ =~= join_lines(vs));
        }
        s
    }
}

fn body_from(lines: &Vec<String>, idx: usize) -> (r: String)
    requires
        idx <= lines.len(),
    ensures
        r@ == body_lines(views(lines@).skip(idx as int)),
    decreases lines.len() - idx,
{
    if idx == lines.len() {
        proof {
            assert(views(lines@).skip(idx as int) =~= Seq::<Seq<char>>::empty());
        }
        String::new()
    } else {
        let mut s = lines[idx].clone();
        s.append("\n");
        let rest = body_from(lines, idx + 1);
        s.append(rest.as_str());
        proof {
            let vs = views(lines@).skip(idx as int);
            assert(vs[0] == lines@[idx as int]@);
            assert(vs.skip(1) =~= views(lines@).skip(idx as int + 1));
            assert(s@ =~= body_lines(vs));
        }
        s
    }
}

fn build_header(file_path: &str, range: Option<LineRange>, url: &str) -> (r: String)
    ensures
        r@ == header_line(file_path@, range, url@),
{
    let mut h = "[".to_owned();
    h.append(file_path);
    match range {
        None => {},
        Some(lr) => {
            h.append(":L");
            let s1 = decimal_string(lr.start);
            h.append(s1.as_str());
            h.append("-L");
            let s2 = decimal_string(lr.end);
            h.append(s2.as_str());
        },
    }
    h.append("](");
    h.append(url);
    h.append(")");
    proof {
        assert(h@ =~= header_line(file_path@, range, url@));
    }
    h
}

/// Renders the selected lines for printing: joined as they are when
/// Markdown is off; under a linking header and inside a fenced block,
/// annotated with the file's extension, when it is on.
pub fn format_output(
    parsed: &ParsedUrl,
    original_url: &str,
    lines: &Vec<String>,
    markdown: bool,
) -> (r: String)
    ensures
        markdown ==> r@ == markdown_output(
            parsed.file_path@,
            parsed.line_range,
            original_url@,
            views(lines@),
        ),
        !markdown ==> r@ == join_lines(views(lines@)),
{
    proof {
        assert(views(lines@).skip(0) =~= views(lines@));
    }
    if !markdown {
        return join_from(lines, 0);
    }
    let mut s = build_header(parsed.file_path.as_str(), parsed.line_range, original_url);
    s.append("\n");
    s.append("```");
    match last_dot_index(parsed.file_path.as_str()) {
        Some(d) => {
            let n = parsed.file_path.as_str().unicode_len();
            let ext = parsed.file_path.as_str().substring_char(d + 1, n);
            proof {
                assert(ext@ =~= parsed.file_path@.skip(d + 1));
            }
            s.append(ext);
        },
        None => {},
    }
    s.append("\n");
    let b = body_from(lines, 0);
    s.append(b.as_str());
    s.append("```");
    proof {
        assert(s@ =~= markdown_output(
            parsed.file_path@,
            parsed.line_range,
            original_url@,
            views(lines@),
        ));
    }
    s
}

} // verus!
