//! Splitting fetched content into lines and selecting a 1-based inclusive
//! range of them. A range running past the last line truncates to the
//! lines that exist rather than failing.

use vstd::prelude::*;
use crate::fragment::LineRange;
use crate::scan::{find_char, find_char_from, lemma_find_char};

verus! {

/// A carriage return just before a newline is not part of the line.
pub open spec fn chomp_cr(l: Seq<char>) -> Seq<char> {
    if l.len() > 0 && l.last() == '\r' {
        l.drop_last()
    } else {
        l
    }
}

/// The lines of a text: the chunks between newlines. A final newline ends
/// the last line; it does not begin an empty one.
pub open spec fn split_lines_spec(s: Seq<char>) -> Seq<Seq<char>>
    decreases s.len(),
    via split_lines_spec_dec
{
    if s.len() == 0 {
        seq![]
    } else {
        let i = find_char(s, '\n');
        if i == s.len() {
            seq![s]
        } else {
            seq![chomp_cr(s.take(i))] + split_lines_spec(s.skip(i + 1))
        }
    }
}

#[via_fn]
proof fn split_lines_spec_dec(s: Seq<char>) {
    lemma_find_char(s, '\n');
}

/// The views of a vector of owned lines.
pub open spec fn views(v: Seq<String>) -> Seq<Seq<char>> {
    v.map_values(|x: String| x@)
}

/// The selected lines: all of them without a range, else the 1-based
/// inclusive slice, truncated to the lines available.
pub open spec fn select_spec(lines: Seq<Seq<char>>, range: Option<LineRange>) -> Seq<Seq<char>> {
    match range {
        None => lines,
        Some(r) => {
            let lo = if r.start - 1 <= lines.len() {
                r.start - 1
            } else {
                lines.len() as int
            };
            let hi = if r.end <= lines.len() {
                r.end as int
            } else {
                lines.len() as int
            };
            lines.subrange(lo, hi)
        },
    }
}

/// Splits content into lines, dropping each terminating newline (and a
/// carriage return just before it).
pub fn split_lines(s: &str) -> (r: Vec<String>)
    ensures
        views(r@) == split_lines_spec(s@),
{
    let n = s.unicode_len();
    let mut out: Vec<String> = Vec::new();
    let mut start: usize = 0;
    proof {
        assert(s@.skip(0) =~= s@);
        assert(views(out@) + split_lines_spec(s@) =~= split_lines_spec(s@));
    }
    while start < n
        invariant
            start <= n,
            n == s@.len(),
            split_lines_spec(s@) == views(out@) + split_lines_spec(s@.skip(start as int)),
        decreases n - start,
    {
        let ghost t = s@.skip(start as int);
        let ghost prev = out@;
        let i = find_char_from(s, '\n', start);
        proof {
            assert(find_char(t, '\n') == i - start);
        }
        if i == n {
            let line = s.substring_char(start, n).to_owned();
            out.push(line);
            proof {
                assert(line@ =~= t);
                assert(split_lines_spec(t) == seq![t]);
                assert(views(out@) =~= views(prev) + seq![t]);
                assert(s@.skip(n as int) =~= Seq::<char>::empty());
                assert(views(out@) + split_lines_spec(s@.skip(n as int)) =~= split_lines_spec(
                    s@,
                ));
            }
            start = n;
        } else {
            let line_end = if i > start && s.get_char(i - 1) == '\r' {
                i - 1
            } else {
                i
            };
            let line = s.substring_char(start, line_end).to_owned();
            out.push(line);
            proof {
                assert(t.take(i - start) =~= s@.subrange(start as int, i as int));
                if i > start && s@[i - 1] == '\r' {
                    assert(t.take(i - start).drop_last() =~= s@.subrange(
                        start as int,
                        i - 1,
                    ));
                }
                assert(line@ == chomp_cr(t.take(i - start)));
                assert(split_lines_spec(t) == seq![chomp_cr(t.take(i - start))]
                    + split_lines_spec(t.skip(i - start + 1)));
                assert(t.skip(i - start + 1) =~= s@.skip(i + 1));
                assert(views(out@) =~= views(prev) + seq![line@]);
                assert(views(out@) + split_lines_spec(s@.skip(i + 1)) =~= split_lines_spec(
                    s@,
                ));
            }
            start = i + 1;
        }
    }
    proof {
        assert(s@.skip(n as int) =~= Seq::<char>::empty());
        assert(views(out@) + split_lines_spec(s@.skip(n as int)) =~= views(out@));
    }
    out
}

/// Copies the selected slice of lines out of the split content.
pub fn select_lines(lines: &Vec<String>, range: Option<LineRange>) -> (r: Vec<String>)
    requires
        match range {
            Some(lr) => lr.wf(),
            None => true,
        },
    ensures
        views(r@) == select_spec(views(lines@), range),
{
    let n = lines.len();
    let (lo, hi): (usize, usize) = match range {
        None => (0, n),
        Some(lr) => (
            if lr.start - 1 <= n {
                lr.start - 1
            } else {
                n
            },
            if lr.end <= n {
                lr.end
            } else {
                n
            },
        ),
    };
    let mut out: Vec<String> = Vec::new();
    let mut idx: usize = lo;
    while idx < hi
        invariant
            lo <= idx <= hi <= n,
            n == lines@.len(),
            views(out@) == views(lines@).subrange(lo as int, idx as int),
        decreases hi - idx,
    {
        let ghost prev = out@;
        out.push(lines[idx].clone());
        proof {
            assert(views(out@) =~= views(prev) + seq![lines@[idx as int]@]);
            assert(views(out@) =~= views(lines@).subrange(lo as int, idx + 1));
        }
        idx = idx + 1;
    }
    proof {
        assert(views(Seq::<String>::empty()) =~= views(lines@).subrange(lo as int, lo as int));
        match range {
            None => {
                assert(views(lines@).subrange(0, n as int) =~= views(lines@));
            },
            Some(lr) => {},
        }
    }
    out
}

/// Splits content into lines and selects the requested range, the whole
/// file when there is none.
pub fn select(content: &str, range: Option<LineRange>) -> (r: Vec<String>)
    requires
        match range {
            Some(lr) => lr.wf(),
            None => true,
        },
    ensures
        views(r@) == select_spec(split_lines_spec(content@), range),
{
    let lines = split_lines(content);
    select_lines(&lines, range)
}

/// Selecting a range that lies inside the document yields exactly the
/// lines from `start` to `end`, 1-based and in order.
pub proof fn lemma_select_exact(lines: Seq<Seq<char>>, lr: LineRange)
    requires
        lr.wf(),
        lr.end <= lines.len(),
    ensures
        select_spec(lines, Some(lr)).len() == lr.end - lr.start + 1,
        forall|i: int|
            0 <= i <= lr.end - lr.start ==> select_spec(lines, Some(lr))[i] == lines[lr.start - 1
                + i],
{
}

/// Selecting a range whose end runs past the document truncates to the
/// lines that exist: everything from `start` on.
pub proof fn lemma_select_truncates(lines: Seq<Seq<char>>, lr: LineRange)
    requires
        lr.wf(),
        lr.start - 1 <= lines.len(),
        lr.end > lines.len(),
    ensures
        select_spec(lines, Some(lr)) == lines.skip(lr.start - 1),
{
    assert(select_spec(lines, Some(lr)) =~= lines.skip(lr.start - 1));
}

} // verus!
