//! Upstream version strings and the forms that Debian versions give them.

use crate::rules::no_newline;
use crate::text::{
    chars_of, first_index, is_digit, lemma_first_index_is, lemma_first_index_none, lowercase,
    occurs_at, occurs_at_exec, push_range, same_chars, slice_of, string_of,
};
use vstd::prelude::*;

verus! {

/// How many of the characters from index `i` on are `c`.
pub open spec fn count_from(s: Seq<char>, c: char, i: int) -> nat
    decreases s.len() - i,
{
    if i < 0 || i >= s.len() {
        0
    } else if s[i] == c {
        1 + count_from(s, c, i + 1)
    } else {
        count_from(s, c, i + 1)
    }
}

/// The characters from index `i` on that are not `c`.
pub open spec fn without_char(s: Seq<char>, c: char, i: int) -> Seq<char>
    decreases s.len() - i,
{
    if i < 0 || i >= s.len() {
        Seq::empty()
    } else if s[i] == c {
        without_char(s, c, i + 1)
    } else {
        seq![s[i]] + without_char(s, c, i + 1)
    }
}

/// The version with its underscores settled: one underscore among several
/// dots is dropped, and underscores without any dot become dots.
pub open spec fn underscores_settled(s: Seq<char>) -> Seq<char> {
    let underscores = count_from(s, '_', 0);
    let dots = count_from(s, '.', 0);
    if underscores == 1 && dots > 1 {
        without_char(s, '_', 0)
    } else if underscores > 0 && dots == 0 {
        crate::text::map_char(s, '_', '.')
    } else {
        s
    }
}

/// At index `i` a hyphen begins the mark of a pre-release: `-rc`, `-beta`
/// or `-alpha`.
pub open spec fn prerelease_hyphen_at(s: Seq<char>, i: int) -> bool {
    0 <= i < s.len() && s[i] == '-' && (occurs_at(s, seq!['r', 'c'], i + 1) || occurs_at(
        s,
        seq!['b', 'e', 't', 'a'],
        i + 1,
    ) || occurs_at(s, seq!['a', 'l', 'p', 'h', 'a'], i + 1))
}

/// The version with `~` for the hyphen of every pre-release mark.
pub open spec fn prereleases_marked(s: Seq<char>) -> Seq<char> {
    Seq::new(
        s.len(),
        |i: int|
            if prerelease_hyphen_at(s, i) {
                '~'
            } else {
                s[i]
            },
    )
}

/// What a pattern looks for in a version.
#[derive(Clone, Copy, PartialEq, Eq, Structural)]
pub enum Mark {
    /// A dot, a digit, and `a`, `b` or `rc`.
    Prerelease,
    /// One of `~`, `+` and `-`, and then `ds`, `dfsg`, `git`, `bzr`, `svn`
    /// or `hg`.
    Repack,
    /// One of `~`, `+` and `-`.
    Separator,
}

/// One of `~`, `+` and `-`.
pub open spec fn is_separator(c: char) -> bool {
    c == '~' || c == '+' || c == '-'
}

/// The mark stands at index `p`.
pub open spec fn mark_at(mark: Mark, s: Seq<char>, p: int) -> bool {
    match mark {
        Mark::Prerelease => 0 <= p && p + 2 < s.len() && s[p] == '.' && is_digit(s[p + 1]) && (s[p
            + 2] == 'a' || s[p + 2] == 'b' || occurs_at(s, seq!['r', 'c'], p + 2)),
        Mark::Repack => 0 <= p < s.len() && is_separator(s[p]) && (occurs_at(
            s,
            seq!['d', 's'],
            p + 1,
        ) || occurs_at(s, seq!['d', 'f', 's', 'g'], p + 1) || occurs_at(
            s,
            seq!['g', 'i', 't'],
            p + 1,
        ) || occurs_at(s, seq!['b', 'z', 'r'], p + 1) || occurs_at(s, seq!['s', 'v', 'n'], p + 1)
            || occurs_at(s, seq!['h', 'g'], p + 1)),
        Mark::Separator => 0 <= p < s.len() && is_separator(s[p]),
    }
}

/// The predicate `mark_at` of a mark and a version.
pub open spec fn mark_pred(mark: Mark, s: Seq<char>) -> spec_fn(int) -> bool {
    |p: int| mark_at(mark, s, p)
}

/// The index at which the line that holds index `p` begins.
pub open spec fn line_start(s: Seq<char>, p: int) -> int
    decreases p,
{
    if p <= 0 || p > s.len() || s[p - 1] == '\n' {
        p
    } else {
        line_start(s, p - 1)
    }
}

/// The greatest index below `n` at which the mark stands with no line feed
/// between `lo` and it.
pub open spec fn last_mark(mark: Mark, s: Seq<char>, lo: int, n: int) -> Option<int>
    decreases n,
{
    if n <= 0 || n <= lo {
        None
    } else if mark_at(mark, s, n - 1) && no_newline(s, lo, n - 1) {
        Some(n - 1)
    } else {
        last_mark(mark, s, lo, n - 1)
    }
}

/// Where the mark is found: the start of the first line that holds the
/// mark, and the last place in that line at which it stands.
pub open spec fn find_mark(mark: Mark, s: Seq<char>) -> Option<(int, int)> {
    match first_index(mark_pred(mark, s), 0, s.len() as int) {
        Some(first) => {
            let lo = line_start(s, first);
            match last_mark(mark, s, lo, s.len() as int) {
                Some(p) => Some((lo, p)),
                None => None,
            }
        },
        None => None,
    }
}

/// How many ASCII digits stand from index `i` on before another character.
pub open spec fn digit_run(s: Seq<char>, i: int) -> nat
    decreases s.len() - i,
{
    if i < 0 || i >= s.len() || !is_digit(s[i]) {
        0
    } else {
        1 + digit_run(s, i + 1)
    }
}

/// The version with its pre-release number set off by `~`: of the first
/// line that holds a dot, a digit and `a`, `b` or `rc`, what stands up to
/// the last such place, the dot and the digit, `~`, the letters, and the
/// digits that follow them. A version without such a place stays as it is.
pub open spec fn prerelease_set_off(s: Seq<char>) -> Seq<char> {
    match find_mark(Mark::Prerelease, s) {
        Some((lo, p)) => {
            let letters: int = if s[p + 2] == 'a' || s[p + 2] == 'b' {
                1
            } else {
                2
            };
            let end = p + 2 + letters + digit_run(s, p + 2 + letters);
            s.subrange(lo, p + 2) + seq!['~'] + s.subrange(p + 2, end)
        },
        None => s,
    }
}

/// The upstream version as a Debian version writes it.
pub open spec fn debianized(version: Seq<char>) -> Seq<char> {
    prerelease_set_off(prereleases_marked(underscores_settled(version)))
}

fn count_exec(s: &Vec<char>, c: char) -> (r: usize)
    ensures
        r == count_from(s@, c, 0),
{
    let mut n: usize = 0;
    let mut i: usize = 0;
    while i < s.len()
        invariant
            i <= s.len(),
            n <= i,
            n + count_from(s@, c, i as int) == count_from(s@, c, 0),
        decreases s.len() - i,
    {
        if s[i] == c {
            n += 1;
        }
        i += 1;
    }
    n
}

fn without_char_exec(s: &Vec<char>, c: char) -> (r: Vec<char>)
    ensures
        r@ == without_char(s@, c, 0),
{
    let mut out: Vec<char> = Vec::new();
    let mut i: usize = 0;
    proof {
        assert(out@ + without_char(s@, c, 0) =~= without_char(s@, c, 0));
    }
    while i < s.len()
        invariant
            i <= s.len(),
            out@ + without_char(s@, c, i as int) == without_char(s@, c, 0),
        decreases s.len() - i,
    {
        if s[i] != c {
            let ghost before = out@;
            out.push(s[i]);
            proof {
                assert(before + (seq![s@[i as int]] + without_char(s@, c, i + 1)) =~= out@
                    + without_char(s@, c, i + 1));
            }
        }
        i += 1;
    }
    proof {
        assert(out@ + without_char(s@, c, i as int) =~= out@);
    }
    out
}

fn word_at(s: &Vec<char>, word: &str, i: usize) -> (r: bool)
    ensures
        r == occurs_at(s@, word@, i as int),
{
    let w = chars_of(word);
    occurs_at_exec(s, &w, i)
}

fn prerelease_hyphen_at_exec(s: &Vec<char>, i: usize) -> (r: bool)
    requires
        i < s.len(),
    ensures
        r == prerelease_hyphen_at(s@, i as int),
{
    proof {
        reveal_strlit("rc");
        reveal_strlit("beta");
        reveal_strlit("alpha");
        assert("rc"@ =~= seq!['r', 'c']);
        assert("beta"@ =~= seq!['b', 'e', 't', 'a']);
        assert("alpha"@ =~= seq!['a', 'l', 'p', 'h', 'a']);
    }
    s[i] == '-' && (word_at(s, "rc", i + 1) || word_at(s, "beta", i + 1) || word_at(
        s,
        "alpha",
        i + 1,
    ))
}

fn prereleases_marked_exec(s: &Vec<char>) -> (r: Vec<char>)
    ensures
        r@ == prereleases_marked(s@),
{
    let mut out: Vec<char> = Vec::new();
    let mut i: usize = 0;
    while i < s.len()
        invariant
            i <= s.len(),
            out@ == prereleases_marked(s@).take(i as int),
        decreases s.len() - i,
    {
        let c = if prerelease_hyphen_at_exec(s, i) {
            '~'
        } else {
            s[i]
        };
        out.push(c);
        proof {
            assert(out@ =~= prereleases_marked(s@).take(i + 1));
        }
        i += 1;
    }
    proof {
        assert(prereleases_marked(s@).take(i as int) =~= prereleases_marked(s@));
    }
    out
}

fn is_separator_exec(c: char) -> (r: bool)
    ensures
        r == is_separator(c),
{
    c == '~' || c == '+' || c == '-'
}

fn mark_at_exec(mark: Mark, s: &Vec<char>, p: usize) -> (r: bool)
    requires
        p < s.len(),
    ensures
        r == mark_at(mark, s@, p as int),
{
    proof {
        reveal_strlit("rc");
        reveal_strlit("ds");
        reveal_strlit("dfsg");
        reveal_strlit("git");
        reveal_strlit("bzr");
        reveal_strlit("svn");
        reveal_strlit("hg");
        assert("rc"@ =~= seq!['r', 'c']);
        assert("ds"@ =~= seq!['d', 's']);
        assert("dfsg"@ =~= seq!['d', 'f', 's', 'g']);
        assert("git"@ =~= seq!['g', 'i', 't']);
        assert("bzr"@ =~= seq!['b', 'z', 'r']);
        assert("svn"@ =~= seq!['s', 'v', 'n']);
        assert("hg"@ =~= seq!['h', 'g']);
    }
    match mark {
        Mark::Prerelease => {
            if s.len() - p <= 2 || s[p] != '.' {
                return false;
            }
            let d = s[p + 1];
            if d < '0' || d > '9' {
                return false;
            }
            s[p + 2] == 'a' || s[p + 2] == 'b' || word_at(s, "rc", p + 2)
        },
        Mark::Repack => {
            is_separator_exec(s[p]) && (word_at(s, "ds", p + 1) || word_at(s, "dfsg", p + 1)
                || word_at(s, "git", p + 1) || word_at(s, "bzr", p + 1) || word_at(
                s,
                "svn",
                p + 1,
            ) || word_at(s, "hg", p + 1))
        },
        Mark::Separator => is_separator_exec(s[p]),
    }
}

fn no_newline_between(s: &Vec<char>, a: usize, b: usize) -> (r: bool)
    requires
        a <= b <= s.len(),
    ensures
        r == no_newline(s@, a as int, b as int),
{
    let mut k: usize = a;
    while k < b
        invariant
            a <= k <= b <= s.len(),
            no_newline(s@, a as int, k as int),
        decreases b - k,
    {
        if s[k] == '\n' {
            return false;
        }
        k += 1;
    }
    true
}

fn first_mark(mark: Mark, s: &Vec<char>) -> (r: Option<usize>)
    ensures
        match r {
            Some(i) => first_index(mark_pred(mark, s@), 0, s.len() as int) == Some(i as int) && i
                < s.len() && mark_at(mark, s@, i as int),
            None => first_index(mark_pred(mark, s@), 0, s.len() as int) is None,
        },
{
    let mut i: usize = 0;
    while i < s.len()
        invariant
            i <= s.len(),
            forall|j: int| 0 <= j < i ==> !#[trigger] mark_pred(mark, s@)(j),
        decreases s.len() - i,
    {
        if mark_at_exec(mark, s, i) {
            proof {
                lemma_first_index_is(mark_pred(mark, s@), 0, s.len() as int, i as int);
            }
            return Some(i);
        }
        i += 1;
    }
    proof {
        lemma_first_index_none(mark_pred(mark, s@), 0, s.len() as int);
    }
    None
}

fn find_mark_exec(mark: Mark, s: &Vec<char>) -> (r: Option<(usize, usize)>)
    ensures
        match r {
            Some((lo, p)) => find_mark(mark, s@) == Some((lo as int, p as int)) && lo <= p
                < s.len() && mark_at(mark, s@, p as int),
            None => find_mark(mark, s@) is None,
        },
{
    let first = match first_mark(mark, s) {
        Some(f) => f,
        None => {
            return None;
        },
    };
    let mut lo: usize = first;
    while lo > 0 && s[lo - 1] != '\n'
        invariant
            lo <= first < s.len(),
            line_start(s@, first as int) == line_start(s@, lo as int),
        decreases lo,
    {
        lo -= 1;
    }
    let mut n: usize = s.len();
    while n > lo
        invariant
            lo <= n <= s.len(),
            first_index(mark_pred(mark, s@), 0, s.len() as int) == Some(first as int),
            line_start(s@, first as int) == lo,
            last_mark(mark, s@, lo as int, s.len() as int) == last_mark(
                mark,
                s@,
                lo as int,
                n as int,
            ),
        decreases n,
    {
        if mark_at_exec(mark, s, n - 1) && no_newline_between(s, lo, n - 1) {
            return Some((lo, n - 1));
        }
        n -= 1;
    }
    None
}

fn prerelease_set_off_exec(s: &Vec<char>) -> (r: Vec<char>)
    ensures
        r@ == prerelease_set_off(s@),
{
    match find_mark_exec(Mark::Prerelease, s) {
        Some((lo, p)) => {
            let letters: usize = if s[p + 2] == 'a' || s[p + 2] == 'b' {
                1
            } else {
                proof {
                    assert(occurs_at(s@, seq!['r', 'c'], p + 2));
                }
                2
            };
            let start: usize = p + 2 + letters;
            let mut end: usize = start;
            while end < s.len() && '0' <= s[end] && s[end] <= '9'
                invariant
                    start <= end <= s.len(),
                    digit_run(s@, start as int) == (end - start) + digit_run(s@, end as int),
                decreases s.len() - end,
            {
                end += 1;
            }
            let mut out = slice_of(s, lo, p + 2);
            out.push('~');
            push_range(&mut out, s, p + 2, end);
            out
        },
        None => {
            let out = slice_of(s, 0, s.len());
            proof {
                assert(s@.subrange(0, s.len() as int) =~= s@);
            }
            out
        },
    }
}

/// Makes an upstream version string suitable for a Debian version.
pub fn debianize_upstream_version(version: &str) -> (r: String)
    ensures
        r@ == debianized(version@),
{
    let chars = chars_of(version);
    let underscores = count_exec(&chars, '_');
    let dots = count_exec(&chars, '.');
    let settled = if underscores == 1 && dots > 1 {
        without_char_exec(&chars, '_')
    } else if underscores > 0 && dots == 0 {
        crate::text::map_char_exec(&chars, '_', '.')
    } else {
        chars
    };
    let marked = prereleases_marked_exec(&settled);
    let out = prerelease_set_off_exec(&marked);
    string_of(&out)
}

/// What stands before the mark in the line in which it is found.
pub open spec fn base_before(mark: Mark, s: Seq<char>) -> Option<Seq<char>> {
    match find_mark(mark, s) {
        Some((lo, p)) => Some(s.subrange(lo, p)),
        None => None,
    }
}

/// A digit or a dot.
pub open spec fn is_digit_or_dot(c: char) -> bool {
    is_digit(c) || c == '.'
}

/// The index of the last `~` below `n`.
pub open spec fn last_tilde(s: Seq<char>, n: int) -> Option<int>
    decreases n,
{
    if n <= 0 || n > s.len() {
        None
    } else if s[n - 1] == '~' {
        Some(n - 1)
    } else {
        last_tilde(s, n - 1)
    }
}

/// What follows the last `~` of the version, where that is one or more
/// digits and dots up to the end.
pub open spec fn number_after_tilde(s: Seq<char>) -> Option<Seq<char>> {
    match last_tilde(s, s.len() as int) {
        Some(q) => if q + 1 < s.len() && forall|k: int|
            q < k < s.len() ==> is_digit_or_dot(#[trigger] s[k]) {
            Some(s.subrange(q + 1, s.len() as int))
        } else {
            None
        },
        None => None,
    }
}

/// The upstream version, in lower case, matches the release, in lower
/// case: it is the release, or the release is what stands before a repack
/// mark, before the last separator of the line, or after the last `~`.
pub open spec fn release_matched(upstream: Seq<char>, release: Seq<char>) -> bool {
    upstream == release || base_before(Mark::Repack, upstream) == Some(release) || base_before(
        Mark::Separator,
        upstream,
    ) == Some(release) || number_after_tilde(upstream) == Some(release)
}

fn base_before_exec(mark: Mark, s: &Vec<char>) -> (r: Option<Vec<char>>)
    ensures
        match r {
            Some(b) => base_before(mark, s@) == Some(b@),
            None => base_before(mark, s@) is None,
        },
{
    match find_mark_exec(mark, s) {
        Some((lo, p)) => Some(slice_of(s, lo, p)),
        None => None,
    }
}

fn number_after_tilde_exec(s: &Vec<char>) -> (r: Option<Vec<char>>)
    ensures
        match r {
            Some(b) => number_after_tilde(s@) == Some(b@),
            None => number_after_tilde(s@) is None,
        },
{
    let mut n: usize = s.len();
    while n > 0 && s[n - 1] != '~'
        invariant
            n <= s.len(),
            last_tilde(s@, s.len() as int) == last_tilde(s@, n as int),
        decreases n,
    {
        n -= 1;
    }
    if n == 0 {
        return None;
    }
    let q: usize = n - 1;
    if q + 1 >= s.len() {
        return None;
    }
    let mut k: usize = q + 1;
    while k < s.len()
        invariant
            q < k <= s.len(),
            last_tilde(s@, s.len() as int) == Some(q as int),
            forall|j: int| q < j < k ==> is_digit_or_dot(#[trigger] s@[j]),
        decreases s.len() - k,
    {
        let c = s[k];
        if !(('0' <= c && c <= '9') || c == '.') {
            assert(!is_digit_or_dot(s@[k as int]));
            return None;
        }
        k += 1;
    }
    Some(slice_of(s, q + 1, s.len()))
}

/// Whether an upstream version string matches an upstream release, the
/// case of letters and suffixes for repacks and snapshots set aside.
pub fn matches_release(upstream_version: &str, release_version: &str) -> (r: bool)
    ensures
        r == release_matched(lowercase(upstream_version@), lowercase(release_version@)),
{
    let release_lower = release_version.to_lowercase();
    let upstream_lower = upstream_version.to_lowercase();
    let release = chars_of(release_lower.as_str());
    let upstream = chars_of(upstream_lower.as_str());
    if same_chars(&upstream, &release) {
        return true;
    }
    match base_before_exec(Mark::Repack, &upstream) {
        Some(base) => {
            if same_chars(&base, &release) {
                return true;
            }
        },
        None => {},
    }
    match base_before_exec(Mark::Separator, &upstream) {
        Some(base) => {
            if same_chars(&base, &release) {
                return true;
            }
        },
        None => {},
    }
    match number_after_tilde_exec(&upstream) {
        Some(lead) => same_chars(&lead, &release),
        None => false,
    }
}

} // verus!
