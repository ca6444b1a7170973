//! The permalink path grammar: `/<owner>/<repo>/blob/<sha>/<file-path>`,
//! where owner and repo are non-empty strings of lowercase alphanumerics
//! and hyphens, and the commit sha is a non-empty string of lowercase
//! alphanumerics. The file path is the uninterpreted remainder and may be
//! empty or contain further slashes.

use vstd::prelude::*;
use crate::scan::{find_char, find_char_from, lemma_find_char_witness};

verus! {

pub open spec fn is_seg_char(c: char) -> bool {
    ('a' as int <= c as int <= 'z' as int) || ('0' as int <= c as int <= '9' as int) || c as int
        == '-' as int
}

pub open spec fn is_sha_char(c: char) -> bool {
    ('a' as int <= c as int <= 'z' as int) || ('0' as int <= c as int <= '9' as int)
}

pub open spec fn valid_seg(s: Seq<char>) -> bool {
    s.len() > 0 && forall|i: int| 0 <= i < s.len() ==> is_seg_char(#[trigger] s[i])
}

pub open spec fn valid_sha(s: Seq<char>) -> bool {
    s.len() > 0 && forall|i: int| 0 <= i < s.len() ==> is_sha_char(#[trigger] s[i])
}

pub open spec fn blob_segment() -> Seq<char> {
    seq!['/', 'b', 'l', 'o', 'b', '/']
}

/// The path a permalink with the given parts has.
pub open spec fn render_path(
    owner: Seq<char>,
    repo: Seq<char>,
    sha: Seq<char>,
    file: Seq<char>,
) -> Seq<char> {
    seq!['/'] + owner + seq!['/'] + repo + blob_segment() + sha + seq!['/'] + file
}

/// `p` is the path of a well-shaped permalink with exactly these parts.
pub open spec fn path_matches(
    p: Seq<char>,
    owner: Seq<char>,
    repo: Seq<char>,
    sha: Seq<char>,
    file: Seq<char>,
) -> bool {
    valid_seg(owner) && valid_seg(repo) && valid_sha(sha) && p == render_path(
        owner,
        repo,
        sha,
        file,
    )
}

/// A match pins every part down: each boundary of the shape is the first
/// slash after the previous one, so a path determines owner, repo, sha and
/// file path exactly.
pub proof fn lemma_match_forces(
    p: Seq<char>,
    owner: Seq<char>,
    repo: Seq<char>,
    sha: Seq<char>,
    file: Seq<char>,
)
    requires
        path_matches(p, owner, repo, sha, file),
    ensures
        p.len() == 9 + owner.len() + repo.len() + sha.len() + file.len(),
        p[0] == '/',
        find_char(p.skip(1), '/') == owner.len() as int,
        owner == p.subrange(1, 1 + owner.len() as int),
        p[1 + owner.len() as int] == '/',
        find_char(p.skip(2 + owner.len() as int), '/') == repo.len() as int,
        repo == p.subrange(2 + owner.len() as int, 2 + owner.len() + repo.len() as int),
        p[2 + owner.len() + repo.len() as int] == '/',
        p[3 + owner.len() + repo.len() as int] == 'b',
        p[4 + owner.len() + repo.len() as int] == 'l',
        p[5 + owner.len() + repo.len() as int] == 'o',
        p[6 + owner.len() + repo.len() as int] == 'b',
        p[7 + owner.len() + repo.len() as int] == '/',
        find_char(p.skip(8 + owner.len() + repo.len() as int), '/') == sha.len() as int,
        sha == p.subrange(
            8 + owner.len() + repo.len() as int,
            8 + owner.len() + repo.len() + sha.len() as int,
        ),
        p[8 + owner.len() + repo.len() + sha.len() as int] == '/',
        file == p.subrange(9 + owner.len() + repo.len() + sha.len() as int, p.len() as int),
{
    let lo = owner.len() as int;
    let lr = repo.len() as int;
    let ls = sha.len() as int;
    assert(p.len() == 9 + owner.len() + repo.len() + sha.len() + file.len());
    assert forall|idx: int| 0 <= idx < p.len() implies p[idx] == render_path(
        owner,
        repo,
        sha,
        file,
    )[idx] by {}
    assert(owner =~= p.subrange(1, 1 + lo));
    assert(repo =~= p.subrange(2 + lo, 2 + lo + lr));
    assert(sha =~= p.subrange(8 + lo + lr, 8 + lo + lr + ls));
    assert(file =~= p.subrange(9 + lo + lr + ls, p.len() as int));
    let t1 = p.skip(1);
    assert forall|j: int| 0 <= j < lo implies t1[j] != '/' by {
        assert(t1[j] == owner[j]);
        assert(is_seg_char(owner[j]));
    }
    assert(t1[lo] == p[1 + lo]);
    lemma_find_char_witness(t1, '/', lo);
    let t2 = p.skip(2 + lo);
    assert forall|j: int| 0 <= j < lr implies t2[j] != '/' by {
        assert(t2[j] == repo[j]);
        assert(is_seg_char(repo[j]));
    }
    assert(t2[lr] == p[2 + lo + lr]);
    lemma_find_char_witness(t2, '/', lr);
    let t3 = p.skip(8 + lo + lr);
    assert forall|j: int| 0 <= j < ls implies t3[j] != '/' by {
        assert(t3[j] == sha[j]);
        assert(is_sha_char(sha[j]));
    }
    assert(t3[ls] == p[8 + lo + lr + ls]);
    lemma_find_char_witness(t3, '/', ls);
}

/// Rendering valid parts always yields a matching path: together with
/// `lemma_path_parts_unique`, a valid permalink path determines owner,
/// repository, commit sha and file path exactly.
pub proof fn lemma_render_matches(
    owner: Seq<char>,
    repo: Seq<char>,
    sha: Seq<char>,
    file: Seq<char>,
)
    requires
        valid_seg(owner),
        valid_seg(repo),
        valid_sha(sha),
    ensures
        path_matches(render_path(owner, repo, sha, file), owner, repo, sha, file),
{
}

/// A permalink path decomposes in at most one way: two matches of the same
/// path agree on every part.
pub proof fn lemma_path_parts_unique(
    p: Seq<char>,
    o1: Seq<char>,
    q1: Seq<char>,
    s1: Seq<char>,
    f1: Seq<char>,
    o2: Seq<char>,
    q2: Seq<char>,
    s2: Seq<char>,
    f2: Seq<char>,
)
    requires
        path_matches(p, o1, q1, s1, f1),
        path_matches(p, o2, q2, s2, f2),
    ensures
        o1 == o2,
        q1 == q2,
        s1 == s2,
        f1 == f2,
{
    lemma_match_forces(p, o1, q1, s1, f1);
    lemma_match_forces(p, o2, q2, s2, f2);
    assert(o1.len() == o2.len());
    assert(q1.len() == q2.len());
    assert(s1.len() == s2.len());
}

/// A path in which `/blob/` occurs nowhere matches no permalink shape at
/// all, so parsing it must fail.
pub proof fn lemma_no_blob_segment_no_match(p: Seq<char>)
    requires
        forall|j: int| 0 <= j <= p.len() - 6 ==> #[trigger] p.subrange(j, j + 6) != blob_segment(),
    ensures
        forall|o: Seq<char>, q: Seq<char>, s: Seq<char>, f: Seq<char>| !path_matches(p, o, q, s, f),
{
    assert forall|o: Seq<char>, q: Seq<char>, s: Seq<char>, f: Seq<char>|
        !path_matches(p, o, q, s, f) by {
        if path_matches(p, o, q, s, f) {
            lemma_match_forces(p, o, q, s, f);
            let j = 2 + o.len() + q.len() as int;
            assert(p.subrange(j, j + 6) =~= blob_segment());
        }
    }
}

/// The parts read out of a permalink path.
#[derive(Debug, PartialEq, Eq)]
pub struct PathParts {
    pub owner: String,
    pub repo: String,
    pub sha: String,
    pub file_path: String,
}

fn check_seg_range(p: &str, from: usize, to: usize) -> (b: bool)
    requires
        from <= to <= p@.len(),
    ensures
        b == valid_seg(p@.subrange(from as int, to as int)),
{
    let sub = Ghost(p@.subrange(from as int, to as int));
    if to == from {
        return false;
    }
    let mut i: usize = from;
    while i < to
        invariant
            from <= i <= to <= p@.len(),
            sub@ == p@.subrange(from as int, to as int),
            forall|j: int| from <= j < i ==> is_seg_char(#[trigger] p@[j]),
        decreases to - i,
    {
        let u = p.get_char(i) as u32;
        if !((97 <= u && u <= 122) || (48 <= u && u <= 57) || u == 45) {
            proof {
                assert(sub@[i - from] == p@[i as int]);
                assert(!is_seg_char(sub@[i - from]));
            }
            return false;
        }
        i = i + 1;
    }
    proof {
        assert forall|j: int| 0 <= j < sub@.len() implies is_seg_char(#[trigger] sub@[j]) by {
            assert(sub@[j] == p@[j + from]);
        }
    }
    true
}

fn check_sha_range(p: &str, from: usize, to: usize) -> (b: bool)
    requires
        from <= to <= p@.len(),
    ensures
        b == valid_sha(p@.subrange(from as int, to as int)),
{
    let sub = Ghost(p@.subrange(from as int, to as int));
    if to == from {
        return false;
    }
    let mut i: usize = from;
    while i < to
        invariant
            from <= i <= to <= p@.len(),
            sub@ == p@.subrange(from as int, to as int),
            forall|j: int| from <= j < i ==> is_sha_char(#[trigger] p@[j]),
        decreases to - i,
    {
        let u = p.get_char(i) as u32;
        if !((97 <= u && u <= 122) || (48 <= u && u <= 57)) {
            proof {
                assert(sub@[i - from] == p@[i as int]);
                assert(!is_sha_char(sub@[i - from]));
            }
            return false;
        }
        i = i + 1;
    }
    proof {
        assert forall|j: int| 0 <= j < sub@.len() implies is_sha_char(#[trigger] sub@[j]) by {
            assert(sub@[j] == p@[j + from]);
        }
    }
    true
}

/// Reads the owner, repository, commit sha and file path out of a URL path,
/// or reports that the path does not have the permalink shape at all.
#[verifier::rlimit(100)]
pub fn parse_path(p: &str) -> (r: Option<PathParts>)
    ensures
        r matches Some(pp) ==> path_matches(p@, pp.owner@, pp.repo@, pp.sha@, pp.file_path@),
        r is None ==> forall|o: Seq<char>, q: Seq<char>, s: Seq<char>, f: Seq<char>|
            !path_matches(p@, o, q, s, f),
{
    let n = p.unicode_len();
    if n == 0 || p.get_char(0) != '/' {
        proof {
            assert forall|o: Seq<char>, q: Seq<char>, s: Seq<char>, f: Seq<char>|
                !path_matches(p@, o, q, s, f) by {
                if path_matches(p@, o, q, s, f) {
                    lemma_match_forces(p@, o, q, s, f);
                }
            }
        }
        return None;
    }
    let i = find_char_from(p, '/', 1);
    if i >= n || !check_seg_range(p, 1, i) {
        proof {
            assert forall|o: Seq<char>, q: Seq<char>, s: Seq<char>, f: Seq<char>|
                !path_matches(p@, o, q, s, f) by {
                if path_matches(p@, o, q, s, f) {
                    lemma_match_forces(p@, o, q, s, f);
                    assert(i == 1 + o.len());
                    assert(o =~= p@.subrange(1, i as int));
                }
            }
        }
        return None;
    }
    let j = find_char_from(p, '/', i + 1);
    if j >= n || !check_seg_range(p, i + 1, j) {
        proof {
            assert forall|o: Seq<char>, q: Seq<char>, s: Seq<char>, f: Seq<char>|
                !path_matches(p@, o, q, s, f) by {
                if path_matches(p@, o, q, s, f) {
                    lemma_match_forces(p@, o, q, s, f);
                    assert(i == 1 + o.len());
                    assert(j == 2 + o.len() + q.len());
                    assert(q =~= p@.subrange(i as int + 1, j as int));
                }
            }
        }
        return None;
    }
    if n - j < 6 || p.get_char(j + 1) != 'b' || p.get_char(j + 2) != 'l' || p.get_char(j + 3)
        != 'o' || p.get_char(j + 4) != 'b' || p.get_char(j + 5) != '/' {
        proof {
            assert forall|o: Seq<char>, q: Seq<char>, s: Seq<char>, f: Seq<char>|
                !path_matches(p@, o, q, s, f) by {
                if path_matches(p@, o, q, s, f) {
                    lemma_match_forces(p@, o, q, s, f);
                    assert(i == 1 + o.len());
                    assert(j == 2 + o.len() + q.len());
                }
            }
        }
        return None;
    }
    let k = find_char_from(p, '/', j + 6);
    if k >= n || !check_sha_range(p, j + 6, k) {
        proof {
            assert forall|o: Seq<char>, q: Seq<char>, s: Seq<char>, f: Seq<char>|
                !path_matches(p@, o, q, s, f) by {
                if path_matches(p@, o, q, s, f) {
                    lemma_match_forces(p@, o, q, s, f);
                    assert(i == 1 + o.len());
                    assert(j == 2 + o.len() + q.len());
                    assert(k == 8 + o.len() + q.len() + s.len());
                    assert(s =~= p@.subrange(j as int + 6, k as int));
                }
            }
        }
        return None;
    }
    let owner = p.substring_char(1, i).to_owned();
    let repo = p.substring_char(i + 1, j).to_owned();
    let sha = p.substring_char(j + 6, k).to_owned();
    let file_path = p.substring_char(k + 1, n).to_owned();
    proof {
        let o = owner@;
        let q = repo@;
        let s = sha@;
        let f = file_path@;
        let rp = render_path(o, q, s, f);
        assert(rp.len() == p@.len());
        assert forall|idx: int| 0 <= idx < p@.len() implies rp[idx] == p@[idx] by {
            if idx == 0 {
            } else if idx < i {
                assert(rp[idx] == o[idx - 1]);
                assert(o[idx - 1] == p@[idx]);
            } else if idx == i {
                assert(rp[idx] == '/');
            } else if idx < j {
                assert(rp[idx] == q[idx - (i + 1)]);
                assert(q[idx - (i + 1)] == p@[idx]);
            } else if idx < j + 6 {
                assert(rp[idx] == blob_segment()[idx - j]);
            } else if idx < k {
                assert(rp[idx] == s[idx - (j + 6)]);
                assert(s[idx - (j + 6)] == p@[idx]);
            } else if idx == k {
                assert(rp[idx] == '/');
            } else {
                assert(rp[idx] == f[idx - (k + 1)]);
                assert(f[idx - (k + 1)] == p@[idx]);
            }
        }
        assert(p@ =~= rp);
    }
    Some(PathParts { owner, repo, sha, file_path })
}

} // verus!
