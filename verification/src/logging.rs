//! How log records name the source file they come from.

use vstd::prelude::*;
use vstd::string::*;

use crate::text::{chars_of, matches_at, string_of_range};

verus! {

broadcast use vstd::seq::group_seq_axioms;

/// Start of the last occurrence of `pat` in `s`, or -1.
pub open spec fn rfind_seq(s: Seq<char>, pat: Seq<char>) -> int
    decreases s.len(),
{
    if s.len() < pat.len() {
        -1
    } else if s.subrange(s.len() - pat.len(), s.len() as int) == pat {
        s.len() - pat.len()
    } else if s.len() == 0 {
        -1
    } else {
        rfind_seq(s.drop_last(), pat)
    }
}

/// Index of the last `c` in `s`, or -1.
pub open spec fn rfind_char(s: Seq<char>, c: char) -> int
    decreases s.len(),
{
    if s.len() == 0 {
        -1
    } else if s.last() == c {
        s.len() - 1
    } else {
        rfind_char(s.drop_last(), c)
    }
}

/// Where the shown part of a source path starts: after the last `/` that
/// comes before the last `/src`, so that the crate's directory is shown;
/// the whole path where there is no such `/`.
pub open spec fn source_start(p: Seq<char>) -> int {
    let k = rfind_seq(p, "/src"@);
    if k >= 0 {
        let j = rfind_char(p.subrange(0, k), '/');
        if j >= 0 { j + 1 } else { 0 }
    } else {
        0
    }
}

/// `pat` stands in `s` at `k`.
pub open spec fn match_at(s: Seq<char>, pat: Seq<char>, k: int) -> bool {
    0 <= k && k + pat.len() <= s.len() && s.subrange(k, k + pat.len()) == pat
}

proof fn lemma_rfind_seq(s: Seq<char>, pat: Seq<char>, j: int)
    requires
        j == -1 || match_at(s, pat, j),
        forall|k: int| j < k ==> !#[trigger] match_at(s, pat, k),
    ensures
        rfind_seq(s, pat) == j,
    decreases s.len(),
{
    if s.len() < pat.len() {
    } else {
        let top = s.len() - pat.len();
        if s.subrange(top, s.len() as int) == pat {
            assert(match_at(s, pat, top));
            assert(!(j < top));
        } else {
            assert(s.len() > 0) by {
                if s.len() == 0 {
                    assert(s.subrange(top, s.len() as int) =~= pat);
                }
            }
            let t = s.drop_last();
            assert(j != top);
            assert(!match_at(s, pat, top));
            assert forall|k: int| j < k implies !#[trigger] match_at(t, pat, k) by {
                if match_at(t, pat, k) {
                    assert(t.subrange(k, k + pat.len()) =~= s.subrange(k, k + pat.len()));
                    assert(match_at(s, pat, k));
                }
            }
            if j >= 0 {
                assert(t.subrange(j, j + pat.len()) =~= s.subrange(j, j + pat.len()));
            }
            lemma_rfind_seq(t, pat, j);
        }
    }
}

proof fn lemma_rfind_char(s: Seq<char>, c: char, j: int)
    requires
        j == -1 || (0 <= j < s.len() && s[j] == c),
        forall|k: int| j < k < s.len() && 0 <= k ==> s[k] != c,
    ensures
        rfind_char(s, c) == j,
    decreases s.len(),
{
    if s.len() > 0 && s.last() != c {
        let t = s.drop_last();
        assert forall|k: int| j < k < t.len() && 0 <= k implies t[k] != c by {
            assert(t[k] == s[k]);
        }
        lemma_rfind_char(t, c, j);
    }
}

/// The start of the last `pat` in `v`, or `None`.
fn last_match(v: &Vec<char>, pat: &Vec<char>) -> (r: Option<usize>)
    ensures
        match r {
            Some(k) => rfind_seq(v@, pat@) == k as int && match_at(v@, pat@, k as int),
            None => rfind_seq(v@, pat@) == -1,
        },
{
    if pat.len() > v.len() {
        proof {
            assert forall|k: int| -1 < k implies !#[trigger] match_at(v@, pat@, k) by {}
            lemma_rfind_seq(v@, pat@, -1);
        }
        return None;
    }
    let mut i: usize = v.len() - pat.len();
    assert forall|k: int| i < k implies !#[trigger] match_at(v@, pat@, k) by {}
    loop
        invariant
            pat@.len() <= v@.len(),
            i <= v@.len() - pat@.len(),
            forall|k: int| i < k ==> !#[trigger] match_at(v@, pat@, k),
        decreases i,
    {
        if matches_at(v, i, pat) {
            proof { lemma_rfind_seq(v@, pat@, i as int); }
            return Some(i);
        }
        assert(!match_at(v@, pat@, i as int));
        if i == 0 {
            proof {
                assert forall|k: int| -1 < k implies !#[trigger] match_at(v@, pat@, k) by {}
                lemma_rfind_seq(v@, pat@, -1);
            }
            return None;
        }
        i = i - 1;
    }
}

/// The index of the last `c` in `v[..end]`, or `None`.
fn last_char_before(v: &Vec<char>, end: usize, c: char) -> (r: Option<usize>)
    requires
        end <= v@.len(),
    ensures
        match r {
            Some(k) => k < end && rfind_char(v@.subrange(0, end as int), c) == k as int,
            None => rfind_char(v@.subrange(0, end as int), c) == -1,
        },
{
    let ghost s = v@.subrange(0, end as int);
    let mut i: usize = end;
    while i > 0
        invariant
            i <= end <= v@.len(),
            s == v@.subrange(0, end as int),
            forall|k: int| i <= k < end ==> s[k] != c,
        decreases i,
    {
        i = i - 1;
        if v[i] == c {
            proof { lemma_rfind_char(s, c, i as int); }
            return Some(i);
        }
    }
    proof { lemma_rfind_char(s, c, -1); }
    None
}

/// The part of a source path shown in a log record: from the directory of
/// the crate the file belongs to; `<unnamed>` where the record names no file.
pub fn source_path(file: Option<&str>) -> (r: String)
    ensures
        r@ == match file {
            Some(p) => p@.subrange(source_start(p@), p@.len() as int),
            None => "<unnamed>"@,
        },
{
    match file {
        Some(p) => {
            let v = chars_of(p);
            let pat = chars_of("/src");
            let start = match last_match(&v, &pat) {
                Some(k) => {
                    match last_char_before(&v, k, '/') {
                        Some(j) => j + 1,
                        None => 0,
                    }
                },
                None => 0,
            };
            string_of_range(&v, start, v.len())
        },
        None => "<unnamed>".to_owned(),
    }
}

} // verus!
