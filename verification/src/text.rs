//! Text handling over sequences of characters.
//!
//! Strings are viewed as `Seq<char>`. The functions here move between
//! `&str`/`String` and `Vec<char>` and provide the searches and edits that
//! the rest of the library is built from.

use vstd::prelude::*;

verus! {

/// `String::push` appends one character to the end of the string.
pub assume_specification[ String::push ](s: &mut String, ch: char)
    ensures
        final(s)@ == old(s)@.push(ch),
;

/// The character has the Unicode property `White_Space`: it is one of
/// U+0009 to U+000D, U+0020, U+0085, U+00A0, U+1680, U+2000 to U+200A,
/// U+2028, U+2029, U+202F, U+205F and U+3000.
pub open spec fn is_whitespace(c: char) -> bool {
    let n: u32 = c as u32;
    ||| 0x09 <= n <= 0x0D
    ||| n == 0x20
    ||| n == 0x85
    ||| n == 0xA0
    ||| n == 0x1680
    ||| 0x2000 <= n <= 0x200A
    ||| n == 0x2028
    ||| n == 0x2029
    ||| n == 0x202F
    ||| n == 0x205F
    ||| n == 0x3000
}

/// `char::is_whitespace` tells whether the character has the Unicode
/// property `White_Space`, which is a fixed list of code points.
pub assume_specification[ char::is_whitespace ](c: char) -> (b: bool)
    ensures
        b == is_whitespace(c),
;

/// What `str::to_lowercase` returns for a string with the characters `s`.
pub uninterp spec fn lowercase(s: Seq<char>) -> Seq<char>;

/// `str::to_lowercase` returns the lowercase equivalent of the string, as
/// Unicode defines it.
pub assume_specification[ str::to_lowercase ](s: &str) -> (r: String)
    ensures
        r@ == lowercase(s@),
;

/// The characters of `s`, in order.
pub fn chars_of(s: &str) -> (v: Vec<char>)
    ensures
        v@ == s@,
{
    let mut v: Vec<char> = Vec::new();
    for c in it: s.chars()
        invariant
            v@ == it.seq().take(it.index() as int),
            it.seq() == s@,
    {
        v.push(c);
    }
    v
}

/// The string made of the characters of `v`, in order.
pub fn string_of(v: &Vec<char>) -> (s: String)
    ensures
        s@ == v@,
{
    let mut s = String::new();
    let mut i: usize = 0;
    while i < v.len()
        invariant
            i <= v.len(),
            s@ == v@.take(i as int),
        decreases v.len() - i,
    {
        s.push(v[i]);
        i += 1;
    }
    s
}

/// `p` stands in `s` at index `i`.
pub open spec fn occurs_at(s: Seq<char>, p: Seq<char>, i: int) -> bool {
    0 <= i && i + p.len() <= s.len() && s.subrange(i, i + p.len()) == p
}

/// `p` stands somewhere in `s`. The empty sequence stands in every sequence.
pub open spec fn contains(s: Seq<char>, p: Seq<char>) -> bool {
    exists|i: int| occurs_at(s, p, i)
}

/// `s` begins with `p`.
pub open spec fn starts_with(s: Seq<char>, p: Seq<char>) -> bool {
    occurs_at(s, p, 0)
}

/// The least index from `k` up to, not including, `n` at which `p` holds.
pub open spec fn first_index(p: spec_fn(int) -> bool, k: int, n: int) -> Option<int>
    decreases n - k,
{
    if k >= n {
        None
    } else if p(k) {
        Some(k)
    } else {
        first_index(p, k + 1, n)
    }
}

/// What `first_index` returns is the least index in range at which `p` holds.
pub proof fn lemma_first_index(p: spec_fn(int) -> bool, k: int, n: int)
    ensures
        match first_index(p, k, n) {
            Some(i) => k <= i < n && p(i) && forall|j: int| k <= j < i ==> !#[trigger] p(j),
            None => forall|j: int| k <= j < n ==> !#[trigger] p(j),
        },
    decreases n - k,
{
    if k < n && !p(k) {
        lemma_first_index(p, k + 1, n);
    }
}

/// An index at which `p` holds, with none before it from `k` on, is what
/// `first_index` returns.
pub proof fn lemma_first_index_is(p: spec_fn(int) -> bool, k: int, n: int, i: int)
    requires
        k <= i < n,
        p(i),
        forall|j: int| k <= j < i ==> !#[trigger] p(j),
    ensures
        first_index(p, k, n) == Some(i),
    decreases n - k,
{
    if k < i {
        lemma_first_index_is(p, k + 1, n, i);
    }
}

/// Two predicates that agree on every index in range have the same first
/// index.
pub proof fn lemma_first_index_same(
    p: spec_fn(int) -> bool, q: spec_fn(int) -> bool, k: int, n: int,
)
    requires
        forall|j: int| k <= j < n ==> #[trigger] p(j) == q(j),
    ensures
        first_index(p, k, n) == first_index(q, k, n),
    decreases n - k,
{
    if k < n {
        assert(p(k) == q(k));
        if !p(k) {
            lemma_first_index_same(p, q, k + 1, n);
        }
    }
}

/// Widening the range by one index changes the first index only where
/// there was none.
pub proof fn lemma_first_index_wider(p: spec_fn(int) -> bool, k: int, n: int)
    requires
        k <= n,
    ensures
        first_index(p, k, n + 1) == (match first_index(p, k, n) {
            Some(i) => Some(i),
            None => if p(n) {
                Some(n)
            } else {
                None
            },
        }),
    decreases n - k,
{
    if k < n {
        if !p(k) {
            lemma_first_index_wider(p, k + 1, n);
        }
    } else {
        assert(first_index(p, n + 1, n + 1) is None);
    }
}

/// With no index in range at which `p` holds, `first_index` returns `None`.
pub proof fn lemma_first_index_none(p: spec_fn(int) -> bool, k: int, n: int)
    requires
        forall|j: int| k <= j < n ==> !#[trigger] p(j),
    ensures
        first_index(p, k, n) is None,
    decreases n - k,
{
    if k < n {
        lemma_first_index_none(p, k + 1, n);
    }
}

/// The predicate "the character at this index is `c`" of a text.
pub open spec fn char_pred(s: Seq<char>, c: char) -> spec_fn(int) -> bool {
    |k: int| s[k] == c
}

/// The index of the first `c` in `s`.
pub fn find_char(s: &Vec<char>, c: char) -> (r: Option<usize>)
    ensures
        match r {
            Some(i) => first_index(char_pred(s@, c), 0, s.len() as int) == Some(i as int) && i
                < s.len() && s@[i as int] == c,
            None => first_index(char_pred(s@, c), 0, s.len() as int) is None,
        },
{
    let mut i: usize = 0;
    while i < s.len()
        invariant
            i <= s.len(),
            forall|k: int| 0 <= k < i ==> !#[trigger] char_pred(s@, c)(k),
        decreases s.len() - i,
    {
        if s[i] == c {
            proof {
                lemma_first_index_is(char_pred(s@, c), 0, s.len() as int, i as int);
            }
            return Some(i);
        }
        i += 1;
    }
    proof {
        lemma_first_index_none(char_pred(s@, c), 0, s.len() as int);
    }
    None
}

/// Whether `p` stands in `s` at index `i`.
pub fn occurs_at_exec(s: &Vec<char>, p: &Vec<char>, i: usize) -> (r: bool)
    ensures
        r == occurs_at(s@, p@, i as int),
{
    if i > s.len() || p.len() > s.len() - i {
        return false;
    }
    let mut k: usize = 0;
    while k < p.len()
        invariant
            k <= p.len(),
            i + p.len() <= s.len(),
            forall|j: int| 0 <= j < k ==> s@[i + j] == p@[j],
        decreases p.len() - k,
    {
        if s[i + k] != p[k] {
            proof {
                assert(s@.subrange(i as int, i + p.len())[k as int] == s@[i + k]);
            }
            return false;
        }
        k += 1;
    }
    proof {
        assert(s@.subrange(i as int, i + p.len()) =~= p@);
    }
    true
}

/// The least index from `from` on at which `p` stands in `s`.
pub fn find_from(s: &Vec<char>, p: &Vec<char>, from: usize) -> (r: Option<usize>)
    ensures
        match r {
            Some(i) => from <= i && occurs_at(s@, p@, i as int) && forall|j: int|
                from <= j < i ==> !occurs_at(s@, p@, j),
            None => forall|j: int| from <= j ==> !occurs_at(s@, p@, j),
        },
{
    if from > s.len() {
        return None;
    }
    let mut i: usize = from;
    while i < s.len()
        invariant
            from <= i <= s.len(),
            forall|j: int| from <= j < i ==> !occurs_at(s@, p@, j),
        decreases s.len() - i,
    {
        if occurs_at_exec(s, p, i) {
            return Some(i);
        }
        i += 1;
    }
    if occurs_at_exec(s, p, i) {
        return Some(i);
    }
    None
}

/// Whether `p` stands somewhere in `s`.
pub fn contains_exec(s: &Vec<char>, p: &Vec<char>) -> (r: bool)
    ensures
        r == contains(s@, p@),
{
    find_from(s, p, 0).is_some()
}

/// Appends the characters of `src` from index `from` up to, not including,
/// `to` to `dst`.
pub fn push_range(dst: &mut Vec<char>, src: &Vec<char>, from: usize, to: usize)
    requires
        from <= to <= src.len(),
    ensures
        final(dst)@ == old(dst)@ + src@.subrange(from as int, to as int),
{
    let mut i: usize = from;
    while i < to
        invariant
            from <= i <= to <= src.len(),
            dst@ == old(dst)@ + src@.subrange(from as int, i as int),
        decreases to - i,
    {
        dst.push(src[i]);
        i += 1;
    }
}

/// Appends all of `src` to `dst`.
pub fn push_all(dst: &mut Vec<char>, src: &Vec<char>)
    ensures
        final(dst)@ == old(dst)@ + src@,
{
    push_range(dst, src, 0, src.len());
    proof {
        assert(src@.subrange(0, src.len() as int) =~= src@);
    }
}

/// The characters of `src` from index `from` up to, not including, `to`.
pub fn slice_of(src: &Vec<char>, from: usize, to: usize) -> (r: Vec<char>)
    requires
        from <= to <= src.len(),
    ensures
        r@ == src@.subrange(from as int, to as int),
{
    let mut r: Vec<char> = Vec::new();
    push_range(&mut r, src, from, to);
    r
}

/// Whether the two vectors hold the same characters.
pub fn same_chars(a: &Vec<char>, b: &Vec<char>) -> (r: bool)
    ensures
        r == (a@ == b@),
{
    if a.len() != b.len() {
        return false;
    }
    let r = occurs_at_exec(a, b, 0);
    proof {
        assert(a@.subrange(0, a.len() as int) =~= a@);
    }
    r
}

/// Whether the two strings hold the same characters.
pub fn str_eq(a: &str, b: &str) -> (r: bool)
    ensures
        r == (a@ == b@),
{
    let x = chars_of(a);
    let y = chars_of(b);
    same_chars(&x, &y)
}

/// `a + b` stands at `i` exactly when `a` stands at `i` and `b` right
/// after it.
pub proof fn lemma_occurs_concat(s: Seq<char>, a: Seq<char>, b: Seq<char>, i: int)
    ensures
        occurs_at(s, a + b, i) <==> occurs_at(s, a, i) && occurs_at(s, b, i + a.len()),
{
    if occurs_at(s, a + b, i) {
        let ab = s.subrange(i, i + a.len() + b.len());
        assert(s.subrange(i, i + a.len()) =~= ab.subrange(0, a.len() as int));
        assert(ab.subrange(0, a.len() as int) =~= a);
        assert(s.subrange(i + a.len(), i + a.len() + b.len()) =~= ab.subrange(
            a.len() as int,
            (a.len() + b.len()) as int,
        ));
        assert(ab.subrange(a.len() as int, (a.len() + b.len()) as int) =~= b);
    }
    if occurs_at(s, a, i) && occurs_at(s, b, i + a.len()) {
        assert(s.subrange(i, i + (a + b).len()) =~= s.subrange(i, i + a.len()) + s.subrange(
            i + a.len(),
            i + a.len() + b.len(),
        ));
    }
}

/// A single character stands at `i` exactly when it is the character at
/// index `i`.
pub proof fn lemma_occurs_one(s: Seq<char>, c: char, i: int)
    ensures
        occurs_at(s, seq![c], i) <==> 0 <= i < s.len() && s[i] == c,
{
    if 0 <= i < s.len() {
        assert(s.subrange(i, i + 1)[0] == s[i]);
        if s[i] == c {
            assert(s.subrange(i, i + 1) =~= seq![c]);
        }
    }
}

/// The index of the first character from `i` on that is not whitespace, or
/// the length of `s` where there is none.
pub open spec fn skip_whitespace(s: Seq<char>, i: int) -> int
    decreases s.len() - i,
{
    if 0 <= i < s.len() && is_whitespace(s[i]) {
        skip_whitespace(s, i + 1)
    } else {
        i
    }
}

/// The index after the last character below `j` that is not whitespace,
/// and `lo` where none stands between `lo` and `j`.
pub open spec fn skip_whitespace_back(s: Seq<char>, lo: int, j: int) -> int
    decreases j,
{
    if 0 <= lo < j <= s.len() && is_whitespace(s[j - 1]) {
        skip_whitespace_back(s, lo, j - 1)
    } else {
        j
    }
}

/// `s` without the whitespace at its start and at its end.
pub open spec fn trim(s: Seq<char>) -> Seq<char> {
    let a = skip_whitespace(s, 0);
    let b = skip_whitespace_back(s, a, s.len() as int);
    s.subrange(a, b)
}

/// `s` without the whitespace at its start and at its end.
pub fn trim_exec(s: &Vec<char>) -> (r: Vec<char>)
    ensures
        r@ == trim(s@),
{
    let mut a: usize = 0;
    while a < s.len() && s[a].is_whitespace()
        invariant
            a <= s.len(),
            skip_whitespace(s@, 0) == skip_whitespace(s@, a as int),
        decreases s.len() - a,
    {
        a += 1;
    }
    let mut b: usize = s.len();
    while b > a && s[b - 1].is_whitespace()
        invariant
            a <= b <= s.len(),
            skip_whitespace_back(s@, a as int, s.len() as int) == skip_whitespace_back(
                s@,
                a as int,
                b as int,
            ),
        decreases b,
    {
        b -= 1;
    }
    slice_of(s, a, b)
}

/// An ASCII decimal digit.
pub open spec fn is_digit(c: char) -> bool {
    '0' <= c <= '9'
}

/// Every character of `s` is an ASCII decimal digit.
pub open spec fn all_digits(s: Seq<char>) -> bool {
    forall|i: int| 0 <= i < s.len() ==> is_digit(#[trigger] s[i])
}

/// The number that the decimal digits `s` write.
pub open spec fn digits_value(s: Seq<char>) -> nat
    decreases s.len(),
{
    if s.len() == 0 {
        0
    } else {
        (digits_value(s.drop_last()) * 10 + (s.last() as u32 - '0' as u32)) as nat
    }
}

/// The number up to `limit` that the digits `body` write; `None` where
/// `body` is empty, holds another character, or writes a greater number.
pub open spec fn parse_digits(body: Seq<char>, limit: nat) -> Option<nat> {
    if body.len() > 0 && all_digits(body) && digits_value(body) <= limit {
        Some(digits_value(body))
    } else {
        None
    }
}

/// What `u8::from_str` accepts: an optional `+`, then one or more ASCII
/// digits that write a number up to 255.
pub open spec fn parse_u8(s: Seq<char>) -> Option<u8> {
    let body = if s.len() > 0 && s[0] == '+' {
        s.subrange(1, s.len() as int)
    } else {
        s
    };
    match parse_digits(body, 255) {
        Some(n) => Some(n as u8),
        None => None,
    }
}

/// What `i32::from_str` accepts: an optional `+` or `-`, then one or more
/// ASCII digits that write a number within the range of `i32`.
pub open spec fn parse_i32(s: Seq<char>) -> Option<i32> {
    if s.len() > 0 && s[0] == '-' {
        match parse_digits(s.subrange(1, s.len() as int), 2147483648) {
            Some(n) => Some((-n) as i32),
            None => None,
        }
    } else if s.len() > 0 && s[0] == '+' {
        match parse_digits(s.subrange(1, s.len() as int), 2147483647) {
            Some(n) => Some(n as i32),
            None => None,
        }
    } else {
        match parse_digits(s, 2147483647) {
            Some(n) => Some(n as i32),
            None => None,
        }
    }
}

/// The number that a longer row of digits writes is not below the number
/// that its beginning writes.
pub proof fn lemma_digits_value_grows(s: Seq<char>, k: int)
    requires
        all_digits(s),
        0 <= k <= s.len(),
    ensures
        digits_value(s.take(k)) <= digits_value(s),
    decreases s.len(),
{
    if k < s.len() {
        let t = s.drop_last();
        assert(all_digits(t)) by {
            assert forall|i: int| 0 <= i < t.len() implies is_digit(#[trigger] t[i]) by {
                assert(t[i] == s[i]);
            }
        }
        lemma_digits_value_grows(t, k);
        assert(t.take(k) =~= s.take(k));
        assert(is_digit(s[s.len() - 1]));
    } else {
        assert(s.take(k) =~= s);
    }
}

fn parse_digits_exec(s: &Vec<char>, start: usize, limit: u64) -> (r: Option<u64>)
    requires
        start <= s.len(),
        limit <= 0xffff_ffff,
    ensures
        match r {
            Some(n) => parse_digits(s@.subrange(start as int, s.len() as int), limit as nat)
                == Some(n as nat),
            None => parse_digits(s@.subrange(start as int, s.len() as int), limit as nat)
                is None,
        },
{
    let ghost body = s@.subrange(start as int, s.len() as int);
    if start == s.len() {
        return None;
    }
    let mut acc: u64 = 0;
    let mut k: usize = start;
    proof {
        assert(body.take(0) =~= Seq::<char>::empty());
    }
    while k < s.len()
        invariant
            start <= k <= s.len(),
            start < s.len(),
            limit <= 0xffff_ffff,
            body == s@.subrange(start as int, s.len() as int),
            all_digits(body.take(k - start)),
            acc == digits_value(body.take(k - start)),
            acc <= limit,
        decreases s.len() - k,
    {
        let c = s[k];
        let ghost next = body.take(k - start + 1);
        proof {
            assert(next.drop_last() =~= body.take(k - start));
            assert(next.last() == c);
            assert(body[k - start] == c);
        }
        if c < '0' || c > '9' {
            return None;
        }
        let d: u64 = (c as u32 - '0' as u32) as u64;
        proof {
            assert(all_digits(next)) by {
                assert forall|i: int| 0 <= i < next.len() implies is_digit(#[trigger] next[i]) by {
                    if i < k - start {
                        assert(next[i] == body.take(k - start)[i]);
                    }
                }
            }
        }
        if acc * 10 + d > limit {
            proof {
                if all_digits(body) {
                    lemma_digits_value_grows(body, k - start + 1);
                }
            }
            return None;
        }
        acc = acc * 10 + d;
        k += 1;
    }
    proof {
        assert(body.take(k - start) =~= body);
    }
    Some(acc)
}

/// Reads a `u8` as `u8::from_str` does.
pub fn parse_u8_exec(s: &Vec<char>) -> (r: Option<u8>)
    ensures
        r == parse_u8(s@),
{
    let start: usize = if s.len() > 0 && s[0] == '+' {
        1
    } else {
        0
    };
    proof {
        assert(s@.subrange(0, s.len() as int) =~= s@);
    }
    match parse_digits_exec(s, start, 255) {
        Some(n) => Some(n as u8),
        None => None,
    }
}

/// Reads an `i32` as `i32::from_str` does.
pub fn parse_i32_exec(s: &Vec<char>) -> (r: Option<i32>)
    ensures
        r == parse_i32(s@),
{
    proof {
        assert(s@.subrange(0, s.len() as int) =~= s@);
    }
    if s.len() > 0 && s[0] == '-' {
        match parse_digits_exec(s, 1, 2147483648) {
            Some(n) => Some((0 - n as i64) as i32),
            None => None,
        }
    } else if s.len() > 0 && s[0] == '+' {
        match parse_digits_exec(s, 1, 2147483647) {
            Some(n) => Some(n as i32),
            None => None,
        }
    } else {
        match parse_digits_exec(s, 0, 2147483647) {
            Some(n) => Some(n as i32),
            None => None,
        }
    }
}

/// `s` with every `from` turned into `to`.
pub open spec fn map_char(s: Seq<char>, from: char, to: char) -> Seq<char> {
    Seq::new(
        s.len(),
        |i: int|
            if s[i] == from {
                to
            } else {
                s[i]
            },
    )
}

/// `s` with every `from` turned into `to`.
pub fn map_char_exec(s: &Vec<char>, from: char, to: char) -> (r: Vec<char>)
    ensures
        r@ == map_char(s@, from, to),
{
    let mut r: Vec<char> = Vec::new();
    let mut i: usize = 0;
    while i < s.len()
        invariant
            i <= s.len(),
            r@ == map_char(s@, from, to).take(i as int),
        decreases s.len() - i,
    {
        let c = s[i];
        r.push(if c == from { to } else { c });
        proof {
            assert(r@ =~= map_char(s@, from, to).take(i + 1));
        }
        i += 1;
    }
    proof {
        assert(map_char(s@, from, to).take(s.len() as int) =~= map_char(s@, from, to));
    }
    r
}

/// The character that writes the digit `d`.
pub open spec fn digit_char(d: nat) -> char {
    ((d + 48) as u8) as char
}

/// The decimal digits that write `n`, without leading zeros.
pub open spec fn decimal(n: nat) -> Seq<char>
    decreases n,
{
    if n < 10 {
        seq![digit_char(n)]
    } else {
        decimal(n / 10).push(digit_char(n % 10))
    }
}

/// Appends the decimal digits of `n` to `out`.
pub fn push_decimal(out: &mut Vec<char>, n: u64)
    ensures
        final(out)@ == old(out)@ + decimal(n as nat),
    decreases n,
{
    if n >= 10 {
        push_decimal(out, n / 10);
    }
    let d: u8 = (n % 10) as u8;
    out.push((d + 48) as char);
    proof {
        if n >= 10 {
            assert(out@ =~= old(out)@ + decimal(n as nat));
        } else {
            assert(out@ =~= old(out)@ + decimal(n as nat));
        }
    }
}

/// The views of the strings of `v`, in order.
pub open spec fn views(v: Seq<String>) -> Seq<Seq<char>> {
    Seq::new(v.len(), |i: int| v[i]@)
}

/// The pieces of `s` from `start` to `end`, cut at each `c` from index `k`
/// on: `start <= k` is where the scan stands in the piece that began at
/// `start`.
pub open spec fn split_scan(s: Seq<char>, c: char, start: int, k: int, end: int) -> Seq<Seq<char>>
    decreases end - k,
{
    if k >= end {
        seq![s.subrange(start, end)]
    } else if s[k] == c {
        seq![s.subrange(start, k)] + split_scan(s, c, k + 1, k + 1, end)
    } else {
        split_scan(s, c, start, k + 1, end)
    }
}

/// The pieces of `s` between `start` and `end`, cut at each `c`. There is
/// always at least one piece, and a piece may be empty.
pub open spec fn split_range(s: Seq<char>, c: char, start: int, end: int) -> Seq<Seq<char>> {
    split_scan(s, c, start, start, end)
}

/// The views of the vectors of `v`, in order.
pub open spec fn char_views(v: Seq<Vec<char>>) -> Seq<Seq<char>> {
    Seq::new(v.len(), |i: int| v[i]@)
}

/// The pieces of `s` between `start` and `end`, cut at each `c`.
pub fn split_exec(s: &Vec<char>, c: char, start: usize, end: usize) -> (r: Vec<Vec<char>>)
    requires
        start <= end <= s.len(),
    ensures
        char_views(r@) == split_range(s@, c, start as int, end as int),
{
    let mut out: Vec<Vec<char>> = Vec::new();
    let mut from: usize = start;
    let mut p: usize = start;
    proof {
        assert(char_views(out@) + split_scan(s@, c, from as int, p as int, end as int)
            =~= split_range(s@, c, start as int, end as int));
    }
    while p < end
        invariant
            start <= from <= p <= end <= s.len(),
            char_views(out@) + split_scan(s@, c, from as int, p as int, end as int)
                == split_range(s@, c, start as int, end as int),
        decreases end - p,
    {
        if s[p] == c {
            let piece = slice_of(s, from, p);
            let ghost before = char_views(out@);
            out.push(piece);
            proof {
                assert(char_views(out@) =~= before.push(piece@));
                assert(before + (seq![piece@] + split_scan(s@, c, p + 1, p + 1, end as int))
                    =~= before.push(piece@) + split_scan(s@, c, p + 1, p + 1, end as int));
            }
            from = p + 1;
        }
        p += 1;
    }
    let piece = slice_of(s, from, end);
    let ghost before = char_views(out@);
    out.push(piece);
    proof {
        assert(char_views(out@) =~= before.push(piece@));
        assert(before + seq![piece@] =~= before.push(piece@));
    }
    out
}

/// The texts from index `i` on, with `sep` between them.
pub open spec fn joined_from(items: Seq<Seq<char>>, sep: Seq<char>, i: int) -> Seq<char>
    decreases items.len() - i,
{
    if i < 0 || i >= items.len() {
        Seq::empty()
    } else if i == items.len() - 1 {
        items[i]
    } else {
        items[i] + sep + joined_from(items, sep, i + 1)
    }
}

/// The texts with `sep` between them.
pub fn join_exec(items: &Vec<String>, sep: &str) -> (r: String)
    ensures
        r@ == joined_from(views(items@), sep@, 0),
{
    let ghost iv = views(items@);
    let separator = chars_of(sep);
    let mut out: Vec<char> = Vec::new();
    let mut i: usize = 0;
    proof {
        assert(out@ + joined_from(iv, sep@, 0) =~= joined_from(iv, sep@, 0));
    }
    while i < items.len()
        invariant
            i <= items.len(),
            iv == views(items@),
            separator@ == sep@,
            out@ + joined_from(iv, sep@, i as int) == joined_from(iv, sep@, 0),
        decreases items.len() - i,
    {
        let ghost before = out@;
        let item = chars_of(items[i].as_str());
        push_all(&mut out, &item);
        proof {
            assert(iv[i as int] == items@[i as int]@);
        }
        if i + 1 < items.len() {
            push_all(&mut out, &separator);
            proof {
                assert(out@ + joined_from(iv, sep@, i + 1) =~= before + (iv[i as int] + sep@
                    + joined_from(iv, sep@, i + 1)));
            }
        } else {
            proof {
                assert(out@ + joined_from(iv, sep@, i + 1) =~= before + iv[i as int]);
            }
        }
        i += 1;
    }
    proof {
        assert(out@ + joined_from(iv, sep@, i as int) =~= out@);
    }
    string_of(&out)
}

} // verus!
