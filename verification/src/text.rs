//! Character-level string utilities shared by the parsers.
//!
//! Everything here is phrased over `Seq<char>`, the view of `&str`, so the
//! parser contracts can speak about character positions without caring how
//! the characters are encoded.

use vstd::prelude::*;
use vstd::string::StrSliceExecFns;

verus! {

/// `pat` occurs in `s` at character position `i`.
pub open spec fn match_at(s: Seq<char>, pat: Seq<char>, i: int) -> bool {
    0 <= i && i + pat.len() <= s.len() && s.subrange(i, i + pat.len()) == pat
}

/// `s` starts with `pat`.
pub open spec fn spec_starts_with(s: Seq<char>, pat: Seq<char>) -> bool {
    match_at(s, pat, 0)
}

/// `s` ends with `pat`.
pub open spec fn spec_ends_with(s: Seq<char>, pat: Seq<char>) -> bool {
    match_at(s, pat, s.len() - pat.len())
}

/// Character position of the leftmost occurrence of `pat` in `s`, if any.
pub open spec fn spec_find(s: Seq<char>, pat: Seq<char>) -> Option<int>
    decreases s.len(),
{
    if pat.len() > s.len() {
        None
    } else if s.subrange(0, pat.len() as int) == pat {
        Some(0)
    } else if s.len() == 0 {
        None
    } else {
        match spec_find(s.drop_first(), pat) {
            Some(i) => Some(i + 1),
            None => None,
        }
    }
}

/// `spec_find` returns the leftmost match, and `None` only when no
/// position matches at all.
pub proof fn lemma_find_first(s: Seq<char>, pat: Seq<char>)
    ensures
        spec_find(s, pat) matches Some(i) ==> match_at(s, pat, i) && (forall|j: int|
            0 <= j < i ==> !match_at(s, pat, j)),
        spec_find(s, pat) is None ==> (forall|j: int| !match_at(s, pat, j)),
    decreases s.len(),
{
    if pat.len() > s.len() {
        assert forall|j: int| !match_at(s, pat, j) by {}
    } else if s.subrange(0, pat.len() as int) == pat {
        assert(match_at(s, pat, 0));
    } else if s.len() == 0 {
        assert forall|j: int| !match_at(s, pat, j) by {}
    } else {
        let t = s.drop_first();
        lemma_find_first(t, pat);
        assert forall|j: int| 1 <= j && j + pat.len() <= s.len() implies match_at(s, pat, j)
            == match_at(t, pat, j - 1) by {
            assert(s.subrange(j, j + pat.len()) =~= t.subrange(j - 1, j - 1 + pat.len()));
        }
        match spec_find(t, pat) {
            Some(i) => {
                assert(match_at(t, pat, i));
                assert(match_at(s, pat, i + 1));
                assert forall|j: int| 0 <= j < i + 1 implies !match_at(s, pat, j) by {
                    if j == 0 {
                        assert(!match_at(s, pat, 0));
                    } else {
                        assert(!match_at(t, pat, j - 1));
                    }
                }
            },
            None => {
                assert forall|j: int| !match_at(s, pat, j) by {
                    if 1 <= j && j + pat.len() <= s.len() {
                        assert(!match_at(t, pat, j - 1));
                    }
                }
            },
        }
    }
}

/// Converse direction: a leftmost match pins `spec_find` down.
pub proof fn lemma_find_complete(s: Seq<char>, pat: Seq<char>, i: int)
    requires
        match_at(s, pat, i),
        forall|j: int| 0 <= j < i ==> !match_at(s, pat, j),
    ensures
        spec_find(s, pat) == Some(i),
{
    lemma_find_first(s, pat);
    match spec_find(s, pat) {
        Some(k) => {
            if k < i {
                assert(!match_at(s, pat, k));
            } else if i < k {
                assert(!match_at(s, pat, i));
            }
        },
        None => {
            assert(!match_at(s, pat, i));
        },
    }
}

/// `spec_find` fails exactly when no position matches.
pub proof fn lemma_find_none(s: Seq<char>, pat: Seq<char>)
    requires
        forall|j: int| 0 <= j ==> !match_at(s, pat, j),
    ensures
        spec_find(s, pat) is None,
{
    lemma_find_first(s, pat);
    match spec_find(s, pat) {
        Some(i) => {
            assert(!match_at(s, pat, i));
        },
        None => {},
    }
}

/// Compares `pat` against the characters of `s` starting at position `i`.
pub fn matches_at(s: &str, pat: &str, i: usize, m: usize) -> (b: bool)
    requires
        m == pat@.len(),
        i + m <= s@.len(),
        s@.len() <= usize::MAX,
    ensures
        b == match_at(s@, pat@, i as int),
{
    let mut j: usize = 0;
    while j < m
        invariant
            m == pat@.len(),
            i + m <= s@.len(),
            s@.len() <= usize::MAX,
            0 <= j <= m,
            forall|k: int| 0 <= k < j ==> s@[i + k] == pat@[k],
        decreases m - j,
    {
        if s.get_char(i + j) != pat.get_char(j) {
            proof {
                assert(s@.subrange(i as int, i + m) != pat@) by {
                    assert(s@.subrange(i as int, i + m)[j as int] == s@[i + j]);
                }
            }
            return false;
        }
        j += 1;
    }
    proof {
        assert(s@.subrange(i as int, i + m) =~= pat@);
    }
    true
}

/// Character position of the leftmost occurrence of `pat` in `s`, if any.
pub fn find_sub(s: &str, pat: &str) -> (r: Option<usize>)
    ensures
        match r {
            Some(i) => spec_find(s@, pat@) == Some(i as int),
            None => spec_find(s@, pat@) is None,
        },
{
    let n = s.unicode_len();
    let m = pat.unicode_len();
    if m > n {
        proof {
            lemma_find_none(s@, pat@);
        }
        return None;
    }
    let last = n - m;
    let mut i: usize = 0;
    loop
        invariant_except_break
            n == s@.len(),
            m == pat@.len(),
            m <= n,
            last == n - m,
            0 <= i <= last,
            forall|j: int| 0 <= j < i ==> !match_at(s@, pat@, j),
        ensures
            forall|j: int| !match_at(s@, pat@, j),
        decreases n - m - i,
    {
        if matches_at(s, pat, i, m) {
            proof {
                lemma_find_complete(s@, pat@, i as int);
            }
            return Some(i);
        }
        if i == last {
            break;
        }
        i += 1;
    }
    proof {
        lemma_find_none(s@, pat@);
    }
    None
}

/// `s` starts with `pat`.
pub fn str_starts_with(s: &str, pat: &str) -> (b: bool)
    ensures
        b == spec_starts_with(s@, pat@),
{
    let n = s.unicode_len();
    let m = pat.unicode_len();
    if m > n {
        false
    } else {
        matches_at(s, pat, 0, m)
    }
}

/// `s` ends with `pat`.
pub fn str_ends_with(s: &str, pat: &str) -> (b: bool)
    ensures
        b == spec_ends_with(s@, pat@),
{
    let n = s.unicode_len();
    let m = pat.unicode_len();
    if m > n {
        false
    } else {
        matches_at(s, pat, n - m, m)
    }
}

/// Length of the longest prefix of `s` whose characters all satisfy `p`.
pub open spec fn run_pred(s: Seq<char>, p: spec_fn(char) -> bool) -> int
    decreases s.len(),
{
    if s.len() == 0 {
        0
    } else if p(s[0]) {
        1 + run_pred(s.drop_first(), p)
    } else {
        0
    }
}

/// The characteristic properties of `run_pred`.
pub proof fn lemma_run_pred(s: Seq<char>, p: spec_fn(char) -> bool)
    ensures
        0 <= run_pred(s, p) <= s.len(),
        forall|k: int| 0 <= k < run_pred(s, p) ==> p(s[k]),
        run_pred(s, p) < s.len() ==> !p(s[run_pred(s, p)]),
    decreases s.len(),
{
    if s.len() == 0 {
    } else if p(s[0]) {
        let t = s.drop_first();
        lemma_run_pred(t, p);
        let r = run_pred(s, p);
        assert forall|k: int| 0 <= k < r implies p(s[k]) by {
            if k > 0 {
                assert(p(t[k - 1]));
            }
        }
        if r < s.len() {
            assert(!p(t[r - 1]));
        }
    } else {
    }
}

/// Any index with the characteristic properties equals `run_pred`.
pub proof fn lemma_run_pred_unique(s: Seq<char>, p: spec_fn(char) -> bool, e: int)
    requires
        0 <= e <= s.len(),
        forall|k: int| 0 <= k < e ==> p(s[k]),
        e < s.len() ==> !p(s[e]),
    ensures
        e == run_pred(s, p),
{
    lemma_run_pred(s, p);
    let r = run_pred(s, p);
    if e < r {
        assert(p(s[e]));
    } else if r < e {
        assert(p(s[r]));
    }
}

/// Length of the longest suffix of `s` whose characters all satisfy `p`.
pub open spec fn run_pred_rev(s: Seq<char>, p: spec_fn(char) -> bool) -> int
    decreases s.len(),
{
    if s.len() == 0 {
        0
    } else if p(s.last()) {
        1 + run_pred_rev(s.drop_last(), p)
    } else {
        0
    }
}

/// The characteristic properties of `run_pred_rev`.
pub proof fn lemma_run_pred_rev(s: Seq<char>, p: spec_fn(char) -> bool)
    ensures
        0 <= run_pred_rev(s, p) <= s.len(),
        forall|k: int| s.len() - run_pred_rev(s, p) <= k < s.len() ==> p(s[k]),
        run_pred_rev(s, p) < s.len() ==> !p(s[s.len() - run_pred_rev(s, p) - 1]),
    decreases s.len(),
{
    if s.len() == 0 {
    } else if p(s.last()) {
        let t = s.drop_last();
        lemma_run_pred_rev(t, p);
        let r = run_pred_rev(s, p);
        assert forall|k: int| s.len() - r <= k < s.len() implies p(s[k]) by {
            if k < s.len() - 1 {
                assert(p(t[k]));
            }
        }
        if r < s.len() {
            assert(!p(t[t.len() - (r - 1) - 1]));
        }
    } else {
    }
}

/// Any suffix length with the characteristic properties equals `run_pred_rev`.
pub proof fn lemma_run_pred_rev_unique(s: Seq<char>, p: spec_fn(char) -> bool, e: int)
    requires
        0 <= e <= s.len(),
        forall|k: int| s.len() - e <= k < s.len() ==> p(s[k]),
        e < s.len() ==> !p(s[s.len() - e - 1]),
    ensures
        e == run_pred_rev(s, p),
{
    lemma_run_pred_rev(s, p);
    let r = run_pred_rev(s, p);
    if e < r {
        assert(p(s[s.len() - e - 1]));
    } else if r < e {
        assert(p(s[s.len() - r - 1]));
    }
}

/// Longest prefix of `s` made of characters of `set`.
pub open spec fn run_in(s: Seq<char>, set: Seq<char>) -> int {
    run_pred(s, |c: char| set.contains(c))
}

/// Longest prefix of `s` made of characters outside `set`.
pub open spec fn run_out(s: Seq<char>, set: Seq<char>) -> int {
    run_pred(s, |c: char| !set.contains(c))
}

/// `c` occurs in `set`.
pub fn set_contains(set: &str, c: char) -> (b: bool)
    ensures
        b == set@.contains(c),
{
    let m = set.unicode_len();
    let mut j: usize = 0;
    loop
        invariant_except_break
            m == set@.len(),
            0 <= j <= m,
            forall|k: int| 0 <= k < j ==> set@[k] != c,
        ensures
            forall|k: int| 0 <= k < m ==> set@[k] != c,
        decreases m - j,
    {
        if j >= m {
            break;
        }
        if set.get_char(j) == c {
            return true;
        }
        j += 1;
    }
    false
}

/// Number of leading characters of `s` that lie in `set`.
pub fn scan_while_in(s: &str, set: &str) -> (r: usize)
    ensures
        r as int == run_in(s@, set@),
{
    let n = s.unicode_len();
    let mut i: usize = 0;
    loop
        invariant_except_break
            n == s@.len(),
            0 <= i <= n,
            forall|k: int| 0 <= k < i ==> set@.contains(s@[k]),
        ensures
            0 <= i <= n,
            forall|k: int| 0 <= k < i ==> set@.contains(s@[k]),
            i < n ==> !set@.contains(s@[i as int]),
        decreases n - i,
    {
        if i >= n {
            break;
        }
        if !set_contains(set, s.get_char(i)) {
            break;
        }
        i += 1;
    }
    proof {
        lemma_run_pred_unique(s@, |c: char| set@.contains(c), i as int);
    }
    i
}

/// Number of leading characters of `s` that lie outside `set`.
pub fn scan_while_out(s: &str, set: &str) -> (r: usize)
    ensures
        r as int == run_out(s@, set@),
{
    let n = s.unicode_len();
    let mut i: usize = 0;
    loop
        invariant_except_break
            n == s@.len(),
            0 <= i <= n,
            forall|k: int| 0 <= k < i ==> !set@.contains(s@[k]),
        ensures
            0 <= i <= n,
            forall|k: int| 0 <= k < i ==> !set@.contains(s@[k]),
            i < n ==> set@.contains(s@[i as int]),
        decreases n - i,
    {
        if i >= n {
            break;
        }
        if set_contains(set, s.get_char(i)) {
            break;
        }
        i += 1;
    }
    proof {
        lemma_run_pred_unique(s@, |c: char| !set@.contains(c), i as int);
    }
    i
}

/// The characters removed from either end by trimming.
pub open spec fn is_blank(c: char) -> bool {
    c == ' ' || c == '\t' || c == '\n' || c == '\r'
}

/// `s` without leading and trailing blank characters.
pub open spec fn spec_trim(s: Seq<char>) -> Seq<char> {
    let a = run_pred(s, |c: char| is_blank(c));
    let b = s.len() - run_pred_rev(s, |c: char| is_blank(c));
    if b <= a {
        Seq::empty()
    } else {
        s.subrange(a, b)
    }
}

/// Removes leading and trailing blank characters.
pub fn trim(s: &str) -> (r: &str)
    ensures
        r@ == spec_trim(s@),
{
    let n = s.unicode_len();
    let mut i: usize = 0;
    loop
        invariant_except_break
            n == s@.len(),
            0 <= i <= n,
            forall|k: int| 0 <= k < i ==> is_blank(s@[k]),
        ensures
            0 <= i <= n,
            forall|k: int| 0 <= k < i ==> is_blank(s@[k]),
            i < n ==> !is_blank(s@[i as int]),
        decreases n - i,
    {
        if i >= n {
            break;
        }
        let c = s.get_char(i);
        if !(c == ' ' || c == '\t' || c == '\n' || c == '\r') {
            break;
        }
        i += 1;
    }
    proof {
        lemma_run_pred_unique(s@, |c: char| is_blank(c), i as int);
    }
    if i == n {
        proof {
            lemma_run_pred_rev(s@, |c: char| is_blank(c));
        }
        let r = s.substring_char(n, n);
        proof {
            assert(r@ =~= spec_trim(s@));
        }
        return r;
    }
    let mut j: usize = n;
    loop
        invariant_except_break
            n == s@.len(),
            i < n,
            !is_blank(s@[i as int]),
            i < j <= n,
            forall|k: int| j <= k < n ==> is_blank(s@[k]),
        ensures
            i < j <= n,
            forall|k: int| j <= k < n ==> is_blank(s@[k]),
            !is_blank(s@[j - 1]),
        decreases j,
    {
        let c = s.get_char(j - 1);
        if !(c == ' ' || c == '\t' || c == '\n' || c == '\r') {
            break;
        }
        if j - 1 == i {
            proof {
                assert(false);
            }
            break;
        }
        j -= 1;
    }
    proof {
        lemma_run_pred_rev_unique(s@, |c: char| is_blank(c), n - j);
    }
    let r = s.substring_char(i, j);
    proof {
        assert(r@ =~= spec_trim(s@));
    }
    r
}

/// Splits `s` at the first occurrence of `pat`: the text before the
/// occurrence and the text after it.
pub fn split_once_at<'a>(s: &'a str, pat: &str) -> (r: Option<(&'a str, &'a str)>)
    ensures
        match spec_find(s@, pat@) {
            Some(i) => r matches Some(p) && p.0@ == s@.subrange(0, i) && p.1@ == s@.subrange(
                i + pat@.len(),
                s@.len() as int,
            ),
            None => r is None,
        },
{
    let n = s.unicode_len();
    let m = pat.unicode_len();
    match find_sub(s, pat) {
        Some(i) => {
            proof {
                lemma_find_first(s@, pat@);
            }
            Some((s.substring_char(0, i), s.substring_char(i + m, n)))
        },
        None => None,
    }
}

/// Removes a leading occurrence of `pat`.
pub fn strip_prefix_str<'a>(s: &'a str, pat: &str) -> (r: Option<&'a str>)
    ensures
        spec_starts_with(s@, pat@) ==> (r matches Some(t) && t@ == s@.subrange(
            pat@.len() as int,
            s@.len() as int,
        )),
        !spec_starts_with(s@, pat@) ==> r is None,
{
    let n = s.unicode_len();
    let m = pat.unicode_len();
    if str_starts_with(s, pat) {
        Some(s.substring_char(m, n))
    } else {
        None
    }
}

/// Removes a trailing occurrence of `pat`.
pub fn strip_suffix_str<'a>(s: &'a str, pat: &str) -> (r: Option<&'a str>)
    ensures
        spec_ends_with(s@, pat@) ==> (r matches Some(t) && t@ == s@.subrange(
            0,
            s@.len() - pat@.len(),
        )),
        !spec_ends_with(s@, pat@) ==> r is None,
{
    let n = s.unicode_len();
    let m = pat.unicode_len();
    if str_ends_with(s, pat) {
        Some(s.substring_char(0, n - m))
    } else {
        None
    }
}

/// First line of `s` and the text after it.  A line ends at the first
/// newline, and a carriage return just before that newline is not part
/// of the line; without any newline the whole text is the line.
pub open spec fn spec_line_split(s: Seq<char>) -> (Seq<char>, Seq<char>) {
    match spec_find(s, seq!['\n']) {
        Some(i) => {
            let line = s.subrange(0, i);
            if line.len() > 0 && line.last() == '\r' {
                (line.drop_last(), s.subrange(i + 1, s.len() as int))
            } else {
                (line, s.subrange(i + 1, s.len() as int))
            }
        },
        None => (s, Seq::empty()),
    }
}

/// Takes the first line off `s`, as [`spec_line_split`] describes.
pub fn line_split<'a>(s: &'a str) -> (r: (&'a str, &'a str))
    ensures
        r.0@ == spec_line_split(s@).0,
        r.1@ == spec_line_split(s@).1,
{
    proof {
        reveal_strlit("\n");
        assert("\n"@ =~= seq!['\n']);
    }
    match split_once_at(s, "\n") {
        Some((line, rest)) => {
            let ll = line.unicode_len();
            if ll > 0 && line.get_char(ll - 1) == '\r' {
                let stripped = line.substring_char(0, ll - 1);
                proof {
                    assert(stripped@ =~= spec_line_split(s@).0);
                }
                (stripped, rest)
            } else {
                (line, rest)
            }
        },
        None => {
            let n = s.unicode_len();
            let empty = s.substring_char(n, n);
            proof {
                assert(empty@ =~= Seq::<char>::empty());
            }
            (s, empty)
        },
    }
}

/// The two strings hold the same characters.
pub fn str_eq(a: &str, b: &str) -> (r: bool)
    ensures
        r == (a@ == b@),
{
    let n = a.unicode_len();
    let m = b.unicode_len();
    if n != m {
        return false;
    }
    let same = matches_at(a, b, 0, m);
    proof {
        assert(a@.subrange(0, m as int) =~= a@);
    }
    same
}

} // verus!
