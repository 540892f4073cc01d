//! Editing the `dh` invocation line of a `debian/rules` file.
//!
//! A line is a sequence of characters that calls the sequencer with flags
//! separated by blanks. The `--with` flag carries a comma-separated list of
//! add-on names, joined to the flag by `=` or by a space.

use crate::text::{
    chars_of, contains, contains_exec, first_index, lemma_first_index_is, lemma_first_index_none,
    lemma_occurs_concat, lemma_occurs_one, occurs_at, occurs_at_exec, push_all, push_range,
    slice_of, split_range, split_scan, starts_with, str_eq, string_of, trim, trim_exec, views,
};
use vstd::prelude::*;

verus! {

/// A space or a tab.
pub open spec fn is_blank(c: char) -> bool {
    c == ' ' || c == '\t'
}

/// What joins `--with` to its value: a space or `=`.
pub open spec fn is_joiner(c: char) -> bool {
    c == ' ' || c == '='
}

/// The characters of `--with`.
pub open spec fn with_word() -> Seq<char> {
    seq!['-', '-', 'w', 'i', 't', 'h']
}

/// A `--with` flag begins at `i`: a blank, `--with`, and a joiner.
pub open spec fn with_flag_at(s: Seq<char>, i: int) -> bool {
    &&& 0 <= i
    &&& i + 8 <= s.len()
    &&& is_blank(s[i])
    &&& s.subrange(i + 1, i + 7) == with_word()
    &&& is_joiner(s[i + 7])
}

/// A `--with` flag begins at `i` and a value follows it.
pub open spec fn with_value_at(s: Seq<char>, i: int) -> bool {
    with_flag_at(s, i) && i + 8 < s.len() && !is_blank(s[i + 8])
}

/// The predicate `with_value_at` of a line.
pub open spec fn with_value_pred(s: Seq<char>) -> spec_fn(int) -> bool {
    |i: int| with_value_at(s, i)
}

/// How many characters from `j` on are not blank, up to the first blank.
pub open spec fn value_len(s: Seq<char>, j: int) -> nat
    decreases s.len() - j,
{
    if j < 0 || j >= s.len() || is_blank(s[j]) {
        0
    } else {
        1 + value_len(s, j + 1)
    }
}

/// The value that begins at `j` ends within the line.
pub proof fn lemma_value_len(s: Seq<char>, j: int)
    requires
        0 <= j <= s.len(),
    ensures
        j + value_len(s, j) <= s.len(),
    decreases s.len() - j,
{
    if j < s.len() && !is_blank(s[j]) {
        lemma_value_len(s, j + 1);
    }
}

/// Between `a` and `b` the line holds no line feed.
pub open spec fn no_newline(s: Seq<char>, a: int, b: int) -> bool {
    forall|k: int| a <= k < b ==> s[k] != '\n'
}

/// The line with `arg` added to its `--with` list.
///
/// A line that holds `arg` anywhere stays as it is. Otherwise `arg` and a
/// comma go in front of the value of the first `--with` flag that has one,
/// and the flag stays as it is written. A line without such a flag gets
/// ` --with=arg` at its end; `--without` is no such flag.
pub open spec fn add_with(line: Seq<char>, arg: Seq<char>) -> Seq<char> {
    if contains(line, arg) {
        line
    } else {
        match first_index(with_value_pred(line), 0, line.len() as int) {
            Some(i) => line.subrange(0, i + 8) + arg + seq![','] + line.subrange(
                i + 8,
                line.len() as int,
            ),
            None => line + seq![' '] + with_word() + seq!['='] + arg,
        }
    }
}

/// The add-on names of every `--with` flag from index `k` on, in order.
pub open spec fn with_values_from(s: Seq<char>, k: int) -> Seq<Seq<char>>
    decreases s.len() - k,
{
    if k < 0 || k >= s.len() {
        Seq::empty()
    } else if with_value_at(s, k) {
        let n = value_len(s, k + 8);
        proof {
            lemma_value_len(s, k + 8);
        }
        split_range(s, ',', k + 8, k + 8 + n) + with_values_from(s, k + 8 + n)
    } else {
        with_values_from(s, k + 1)
    }
}

/// The add-on names of every `--with` flag of the line, in order.
pub open spec fn get_with(line: Seq<char>) -> Seq<Seq<char>> {
    with_values_from(line, 0)
}

/// At `i` a `--with` flag holds `arg` alone, and the line ends there or
/// goes on after a space without a line feed.
pub open spec fn sole_at(s: Seq<char>, arg: Seq<char>, i: int) -> bool {
    &&& with_flag_at(s, i)
    &&& occurs_at(s, arg, i + 8)
    &&& {
        let r = i + 8 + arg.len();
        r == s.len() || (r + 1 < s.len() && s[r] == ' ' && no_newline(s, r + 1, s.len() as int))
    }
}

/// The predicate `sole_at` of a line and an argument.
pub open spec fn sole_pred(s: Seq<char>, arg: Seq<char>) -> spec_fn(int) -> bool {
    |i: int| sole_at(s, arg, i)
}

/// The line without the first `--with` flag that holds `arg` alone.
pub open spec fn drop_sole(s: Seq<char>, arg: Seq<char>) -> Seq<char> {
    match first_index(sole_pred(s, arg), 0, s.len() as int) {
        Some(i) => s.subrange(0, i) + s.subrange(i + 8 + arg.len(), s.len() as int),
        None => s,
    }
}

/// At `i` a `--with` flag holds `arg` and a comma first.
pub open spec fn leading_at(s: Seq<char>, arg: Seq<char>, i: int) -> bool {
    with_flag_at(s, i) && occurs_at(s, arg + seq![','], i + 8)
}

/// The predicate `leading_at` of a line and an argument.
pub open spec fn leading_pred(s: Seq<char>, arg: Seq<char>) -> spec_fn(int) -> bool {
    |i: int| leading_at(s, arg, i)
}

/// The line without `arg` and its comma where `arg` is the first name of a
/// `--with` flag.
pub open spec fn drop_leading(s: Seq<char>, arg: Seq<char>) -> Seq<char> {
    match first_index(leading_pred(s, arg), 0, s.len() as int) {
        Some(i) => s.subrange(0, i + 8) + s.subrange(i + 9 + arg.len(), s.len() as int),
        None => s,
    }
}

/// After the `--with` flag at `i`, a comma at `j` is followed by `arg` and
/// then by a space or a comma; between the flag and `j` stands at least one
/// character and no line feed.
pub open spec fn inner_at(s: Seq<char>, arg: Seq<char>, i: int, j: int) -> bool {
    &&& with_flag_at(s, i)
    &&& i + 8 < j
    &&& j + 1 + arg.len() < s.len()
    &&& no_newline(s, i + 8, j)
    &&& s[j] == ','
    &&& occurs_at(s, arg, j + 1)
    &&& (s[j + 1 + arg.len()] == ' ' || s[j + 1 + arg.len()] == ',')
}

/// The greatest `j` below `n` with `inner_at(s, arg, i, j)`.
pub open spec fn last_inner(s: Seq<char>, arg: Seq<char>, i: int, n: int) -> Option<int>
    decreases n,
{
    if n <= 0 {
        None
    } else if inner_at(s, arg, i, n - 1) {
        Some(n - 1)
    } else {
        last_inner(s, arg, i, n - 1)
    }
}

/// The predicate "some `j` has `inner_at(s, arg, i, j)`" of a line and an
/// argument.
pub open spec fn inner_pred(s: Seq<char>, arg: Seq<char>) -> spec_fn(int) -> bool {
    |i: int| last_inner(s, arg, i, s.len() as int) is Some
}

/// The line without `arg` and the comma before it where `arg` is followed
/// by a space or a comma: at the first `--with` flag that has such a place,
/// the last such place.
pub open spec fn drop_inner(s: Seq<char>, arg: Seq<char>) -> Seq<char> {
    match first_index(inner_pred(s, arg), 0, s.len() as int) {
        Some(i) => {
            let j = last_inner(s, arg, i, s.len() as int).unwrap();
            s.subrange(0, j) + s.subrange(j + 1 + arg.len(), s.len() as int)
        },
        None => s,
    }
}

/// The line ends with a comma and `arg`, and the `--with` flag at `i`
/// stands before that comma with at least one character and no line feed
/// between them.
pub open spec fn trailing_at(s: Seq<char>, arg: Seq<char>, i: int) -> bool {
    let j = s.len() - arg.len() - 1;
    &&& with_flag_at(s, i)
    &&& i + 8 < j
    &&& no_newline(s, i + 8, j)
    &&& s[j] == ','
    &&& occurs_at(s, arg, j + 1)
}

/// The predicate `trailing_at` of a line and an argument.
pub open spec fn trailing_pred(s: Seq<char>, arg: Seq<char>) -> spec_fn(int) -> bool {
    |i: int| trailing_at(s, arg, i)
}

/// The line without `arg` and the comma before it where they end the line
/// as the last name of a `--with` flag.
pub open spec fn drop_trailing(s: Seq<char>, arg: Seq<char>) -> Seq<char> {
    match first_index(trailing_pred(s, arg), 0, s.len() as int) {
        Some(i) => s.subrange(0, s.len() - arg.len() - 1),
        None => s,
    }
}

/// The line with `arg` dropped from its `--with` list.
///
/// A line that does not hold `arg` stays as it is. Otherwise four removals
/// are tried in turn, each on what the one before left: `arg` as the only
/// name of a flag, as the first name, as a name followed by a space or a
/// comma, and as the last name at the end of the line.
pub open spec fn drop_with(line: Seq<char>, arg: Seq<char>) -> Seq<char> {
    if !contains(line, arg) {
        line
    } else {
        drop_trailing(drop_inner(drop_leading(drop_sole(line, arg), arg), arg), arg)
    }
}

/// From `i` to `k` the line holds blanks only.
pub open spec fn all_blank(s: Seq<char>, i: int, k: int) -> bool {
    forall|t: int| i <= t < k ==> is_blank(s[t])
}

/// The line ends with `arg`, and from `i` up to `arg` stand blanks, at
/// least one.
pub open spec fn ends_after_blanks_at(s: Seq<char>, arg: Seq<char>, i: int) -> bool {
    let k = s.len() - arg.len();
    0 <= i < k && all_blank(s, i, k) && occurs_at(s, arg, k)
}

/// The predicate `ends_after_blanks_at` of a line and an argument.
pub open spec fn ends_after_blanks_pred(s: Seq<char>, arg: Seq<char>) -> spec_fn(int) -> bool {
    |i: int| ends_after_blanks_at(s, arg, i)
}

/// The line without `arg` and the blanks before it where `arg` ends the
/// line.
pub open spec fn drop_final_argument(s: Seq<char>, arg: Seq<char>) -> Seq<char> {
    match first_index(ends_after_blanks_pred(s, arg), 0, s.len() as int) {
        Some(i) => s.subrange(0, i),
        None => s,
    }
}

/// At `i` stands a blank, then `arg`, then a blank.
pub open spec fn between_blanks_at(s: Seq<char>, arg: Seq<char>, i: int) -> bool {
    &&& 0 <= i
    &&& i + 1 + arg.len() < s.len()
    &&& is_blank(s[i])
    &&& occurs_at(s, arg, i + 1)
    &&& is_blank(s[i + 1 + arg.len()])
}

/// The predicate `between_blanks_at` of a line and an argument.
pub open spec fn between_blanks_pred(s: Seq<char>, arg: Seq<char>) -> spec_fn(int) -> bool {
    |i: int| between_blanks_at(s, arg, i)
}

/// The line without the first `arg` that stands between two blanks, and
/// without the blank after it.
pub open spec fn drop_inner_argument(s: Seq<char>, arg: Seq<char>) -> Seq<char> {
    match first_index(between_blanks_pred(s, arg), 0, s.len() as int) {
        Some(i) => s.subrange(0, i + 1) + s.subrange(i + 2 + arg.len(), s.len() as int),
        None => s,
    }
}

/// The line with the flag `arg` dropped.
///
/// A line that does not hold `arg` stays as it is. Otherwise `arg` is
/// removed where it ends the line after blanks, and then, from what is
/// left, where it stands between two blanks. `arg` inside a longer word is
/// not touched.
pub open spec fn drop_argument(line: Seq<char>, arg: Seq<char>) -> Seq<char> {
    if !contains(line, arg) {
        line
    } else {
        drop_inner_argument(drop_final_argument(line, arg), arg)
    }
}

/// The line ends with a blank at `i` and `arg` after it.
pub open spec fn ends_after_blank_at(s: Seq<char>, arg: Seq<char>, i: int) -> bool {
    0 <= i && i + 1 + arg.len() == s.len() && is_blank(s[i]) && occurs_at(s, arg, i + 1)
}

/// The line with `new` in place of `old` where `old` ends the line after a
/// blank.
pub open spec fn replace_final_argument(s: Seq<char>, old: Seq<char>, new: Seq<char>) -> Seq<char> {
    let i = s.len() - old.len() - 1;
    if ends_after_blank_at(s, old, i) {
        s.subrange(0, i + 1) + new
    } else {
        s
    }
}

/// The line with `new` in place of the first `old` that stands between two
/// blanks.
pub open spec fn replace_inner_argument(s: Seq<char>, old: Seq<char>, new: Seq<char>) -> Seq<char> {
    match first_index(between_blanks_pred(s, old), 0, s.len() as int) {
        Some(i) => s.subrange(0, i + 1) + new + s.subrange(i + 1 + old.len(), s.len() as int),
        None => s,
    }
}

/// The line with the flag `old` replaced by `new`.
///
/// A line that does not hold `old` stays as it is. Otherwise `new` takes
/// the place of `old` where it ends the line after a blank, and then, in
/// what is left, where it stands between two blanks. `old` inside a longer
/// word is not touched, and `new` is put in character for character.
pub open spec fn replace_argument(line: Seq<char>, old: Seq<char>, new: Seq<char>) -> Seq<char> {
    if !contains(line, old) {
        line
    } else {
        replace_inner_argument(replace_final_argument(line, old, new), old, new)
    }
}

fn is_blank_char(c: char) -> (r: bool)
    ensures
        r == is_blank(c),
{
    c == ' ' || c == '\t'
}

fn copy_of(s: &Vec<char>) -> (r: Vec<char>)
    ensures
        r@ == s@,
{
    let r = slice_of(s, 0, s.len());
    proof {
        assert(s@.subrange(0, s.len() as int) =~= s@);
    }
    r
}

fn with_flag_at_exec(s: &Vec<char>, i: usize) -> (r: bool)
    ensures
        r == with_flag_at(s@, i as int),
{
    if i > s.len() || s.len() - i < 8 {
        return false;
    }
    let word = s[i + 1] == '-' && s[i + 2] == '-' && s[i + 3] == 'w' && s[i + 4] == 'i' && s[i
        + 5] == 't' && s[i + 6] == 'h';
    proof {
        let sub = s@.subrange(i + 1, i + 7);
        assert(sub[0] == s@[i + 1] && sub[1] == s@[i + 2] && sub[2] == s@[i + 3] && sub[3]
            == s@[i + 4] && sub[4] == s@[i + 5] && sub[5] == s@[i + 6]);
        if word {
            assert(sub =~= with_word());
        }
    }
    is_blank_char(s[i]) && word && (s[i + 7] == ' ' || s[i + 7] == '=')
}

fn with_value_at_exec(s: &Vec<char>, i: usize) -> (r: bool)
    ensures
        r == with_value_at(s@, i as int),
{
    if !with_flag_at_exec(s, i) {
        return false;
    }
    s.len() - i > 8 && !is_blank_char(s[i + 8])
}

fn no_newline_exec(s: &Vec<char>, a: usize, b: usize) -> (r: bool)
    requires
        a <= b <= s.len(),
    ensures
        r == no_newline(s@, a as int, b as int),
{
    let mut k: usize = a;
    while k < b
        invariant
            a <= k <= b <= s.len(),
            no_newline(s@, a as int, k as int),
        decreases b - k,
    {
        if s[k] == '\n' {
            return false;
        }
        k += 1;
    }
    true
}

fn add_with_chars(s: &Vec<char>, x: &Vec<char>) -> (r: Vec<char>)
    ensures
        r@ == add_with(s@, x@),
{
    if contains_exec(s, x) {
        return copy_of(s);
    }
    let mut i: usize = 0;
    while i < s.len()
        invariant
            i <= s.len(),
            !contains(s@, x@),
            forall|j: int| 0 <= j < i ==> !#[trigger] with_value_pred(s@)(j),
        decreases s.len() - i,
    {
        if with_value_at_exec(s, i) {
            let mut out = slice_of(s, 0, i + 8);
            push_all(&mut out, x);
            out.push(',');
            push_range(&mut out, s, i + 8, s.len());
            proof {
                lemma_first_index_is(with_value_pred(s@), 0, s.len() as int, i as int);
            }
            return out;
        }
        i += 1;
    }
    proof {
        lemma_first_index_none(with_value_pred(s@), 0, s.len() as int);
    }
    let flag: Vec<char> = vec![' ', '-', '-', 'w', 'i', 't', 'h', '='];
    let mut out = copy_of(s);
    push_all(&mut out, &flag);
    push_all(&mut out, x);
    proof {
        assert(flag@ =~= seq![' '] + with_word() + seq!['=']);
        assert(out@ =~= s@ + seq![' '] + with_word() + seq!['='] + x@);
    }
    out
}

/// Adds `with_argument` to the `--with` list of a `dh` invocation.
pub fn dh_invoke_add_with(line: &str, with_argument: &str) -> (r: String)
    ensures
        r@ == add_with(line@, with_argument@),
{
    let s = chars_of(line);
    let x = chars_of(with_argument);
    let out = add_with_chars(&s, &x);
    string_of(&out)
}

/// The add-on names of every `--with` flag of a `dh` invocation, in the
/// order in which the line holds them.
pub fn dh_invoke_get_with(line: &str) -> (r: Vec<String>)
    ensures
        views(r@) == get_with(line@),
{
    let s = chars_of(line);
    let mut out: Vec<String> = Vec::new();
    let mut k: usize = 0;
    proof {
        assert(views(out@) + with_values_from(s@, 0) =~= get_with(s@));
    }
    while k < s.len()
        invariant
            k <= s.len(),
            views(out@) + with_values_from(s@, k as int) == get_with(s@),
        decreases s.len() - k,
    {
        if with_value_at_exec(&s, k) {
            let mut e: usize = k + 8;
            while e < s.len() && !is_blank_char(s[e])
                invariant
                    k + 8 <= e <= s.len(),
                    value_len(s@, k + 8) == (e - (k + 8)) + value_len(s@, e as int),
                    forall|t: int| k + 8 <= t < e ==> !is_blank(s@[t]),
                decreases s.len() - e,
            {
                e += 1;
            }
            assert(e == k + 8 + value_len(s@, k + 8));
            let ghost rest = with_values_from(s@, e as int);
            let mut start: usize = k + 8;
            let mut p: usize = k + 8;
            while p < e
                invariant
                    k + 8 <= start <= p <= e <= s.len(),
                    views(out@) + split_scan(s@, ',', start as int, p as int, e as int) + rest
                        == get_with(s@),
                decreases e - p,
            {
                if s[p] == ',' {
                    let piece = slice_of(&s, start, p);
                    let ghost before = views(out@);
                    out.push(string_of(&piece));
                    proof {
                        assert(views(out@) =~= before.push(piece@));
                        assert(before + (seq![piece@] + split_scan(
                            s@,
                            ',',
                            p + 1,
                            p + 1,
                            e as int,
                        )) + rest =~= before.push(piece@) + split_scan(
                            s@,
                            ',',
                            p + 1,
                            p + 1,
                            e as int,
                        ) + rest);
                    }
                    start = p + 1;
                }
                p += 1;
            }
            let piece = slice_of(&s, start, e);
            let ghost before = views(out@);
            out.push(string_of(&piece));
            proof {
                assert(views(out@) =~= before.push(piece@));
                assert(before + seq![piece@] + rest =~= before.push(piece@) + rest);
            }
            k = e;
        } else {
            k += 1;
        }
    }
    proof {
        assert(views(out@) + with_values_from(s@, k as int) =~= views(out@));
    }
    out
}

fn sole_at_exec(s: &Vec<char>, x: &Vec<char>, i: usize) -> (r: bool)
    ensures
        r == sole_at(s@, x@, i as int),
{
    if !with_flag_at_exec(s, i) {
        return false;
    }
    assert(i + 8 <= s.len());
    if !occurs_at_exec(s, x, i + 8) {
        return false;
    }
    let e: usize = i + 8 + x.len();
    if e == s.len() {
        return true;
    }
    s.len() - e > 1 && s[e] == ' ' && no_newline_exec(s, e + 1, s.len())
}

fn drop_sole_exec(s: &Vec<char>, x: &Vec<char>) -> (r: Vec<char>)
    ensures
        r@ == drop_sole(s@, x@),
{
    let mut i: usize = 0;
    while i < s.len()
        invariant
            i <= s.len(),
            forall|j: int| 0 <= j < i ==> !#[trigger] sole_pred(s@, x@)(j),
        decreases s.len() - i,
    {
        if sole_at_exec(s, x, i) {
            let mut out = slice_of(s, 0, i);
            push_range(&mut out, s, i + 8 + x.len(), s.len());
            proof {
                lemma_first_index_is(sole_pred(s@, x@), 0, s.len() as int, i as int);
            }
            return out;
        }
        i += 1;
    }
    proof {
        lemma_first_index_none(sole_pred(s@, x@), 0, s.len() as int);
    }
    copy_of(s)
}

fn leading_at_exec(s: &Vec<char>, x: &Vec<char>, i: usize) -> (r: bool)
    ensures
        r == leading_at(s@, x@, i as int),
{
    proof {
        lemma_occurs_concat(s@, x@, seq![','], i + 8);
        lemma_occurs_one(s@, ',', i + 8 + x.len());
    }
    if !with_flag_at_exec(s, i) {
        return false;
    }
    assert(i + 8 <= s.len());
    if !occurs_at_exec(s, x, i + 8) {
        return false;
    }
    let e: usize = i + 8 + x.len();
    e < s.len() && s[e] == ','
}

fn drop_leading_exec(s: &Vec<char>, x: &Vec<char>) -> (r: Vec<char>)
    ensures
        r@ == drop_leading(s@, x@),
{
    let mut i: usize = 0;
    while i < s.len()
        invariant
            i <= s.len(),
            forall|j: int| 0 <= j < i ==> !#[trigger] leading_pred(s@, x@)(j),
        decreases s.len() - i,
    {
        if leading_at_exec(s, x, i) {
            proof {
                lemma_occurs_concat(s@, x@, seq![','], i + 8);
            }
            let mut out = slice_of(s, 0, i + 8);
            push_range(&mut out, s, i + 9 + x.len(), s.len());
            proof {
                lemma_first_index_is(leading_pred(s@, x@), 0, s.len() as int, i as int);
            }
            return out;
        }
        i += 1;
    }
    proof {
        lemma_first_index_none(leading_pred(s@, x@), 0, s.len() as int);
    }
    copy_of(s)
}

fn inner_at_exec(s: &Vec<char>, x: &Vec<char>, i: usize, j: usize) -> (r: bool)
    requires
        with_flag_at(s@, i as int),
        j < s.len(),
    ensures
        r == inner_at(s@, x@, i as int, j as int),
{
    if j <= i + 8 || s[j] != ',' || !occurs_at_exec(s, x, j + 1) {
        return false;
    }
    let e: usize = j + 1 + x.len();
    e < s.len() && (s[e] == ' ' || s[e] == ',') && no_newline_exec(s, i + 8, j)
}

fn last_inner_exec(s: &Vec<char>, x: &Vec<char>, i: usize) -> (r: Option<usize>)
    ensures
        match r {
            Some(j) => last_inner(s@, x@, i as int, s.len() as int) == Some(j as int),
            None => last_inner(s@, x@, i as int, s.len() as int) is None,
        },
{
    let flagged = with_flag_at_exec(s, i);
    let mut n: usize = s.len();
    while n > 0
        invariant
            n <= s.len(),
            flagged == with_flag_at(s@, i as int),
            last_inner(s@, x@, i as int, s.len() as int) == last_inner(s@, x@, i as int, n as int),
        decreases n,
    {
        if flagged && inner_at_exec(s, x, i, n - 1) {
            return Some(n - 1);
        }
        n -= 1;
    }
    None
}

fn drop_inner_exec(s: &Vec<char>, x: &Vec<char>) -> (r: Vec<char>)
    ensures
        r@ == drop_inner(s@, x@),
{
    let mut i: usize = 0;
    while i < s.len()
        invariant
            i <= s.len(),
            forall|j: int| 0 <= j < i ==> !#[trigger] inner_pred(s@, x@)(j),
        decreases s.len() - i,
    {
        match last_inner_exec(s, x, i) {
            Some(j) => {
                proof {
                    lemma_last_inner(s@, x@, i as int, s.len() as int);
                    lemma_first_index_is(inner_pred(s@, x@), 0, s.len() as int, i as int);
                }
                let mut out = slice_of(s, 0, j);
                push_range(&mut out, s, j + 1 + x.len(), s.len());
                return out;
            },
            None => {},
        }
        i += 1;
    }
    proof {
        lemma_first_index_none(inner_pred(s@, x@), 0, s.len() as int);
    }
    copy_of(s)
}

/// What `last_inner` returns is a place below `n` where `inner_at` holds,
/// and the last such one.
pub proof fn lemma_last_inner(s: Seq<char>, arg: Seq<char>, i: int, n: int)
    ensures
        match last_inner(s, arg, i, n) {
            Some(j) => 0 <= j < n && inner_at(s, arg, i, j) && forall|k: int|
                j < k < n ==> !inner_at(s, arg, i, k),
            None => forall|k: int| 0 <= k < n ==> !inner_at(s, arg, i, k),
        },
    decreases n,
{
    if n > 0 && !inner_at(s, arg, i, n - 1) {
        lemma_last_inner(s, arg, i, n - 1);
    }
}

fn trailing_at_exec(s: &Vec<char>, x: &Vec<char>, i: usize) -> (r: bool)
    ensures
        r == trailing_at(s@, x@, i as int),
{
    if !with_flag_at_exec(s, i) || x.len() >= s.len() {
        return false;
    }
    let j: usize = s.len() - x.len() - 1;
    j > i + 8 && s[j] == ',' && occurs_at_exec(s, x, j + 1) && no_newline_exec(s, i + 8, j)
}

fn drop_trailing_exec(s: &Vec<char>, x: &Vec<char>) -> (r: Vec<char>)
    ensures
        r@ == drop_trailing(s@, x@),
{
    let mut i: usize = 0;
    while i < s.len()
        invariant
            i <= s.len(),
            forall|j: int| 0 <= j < i ==> !#[trigger] trailing_pred(s@, x@)(j),
        decreases s.len() - i,
    {
        if trailing_at_exec(s, x, i) {
            proof {
                lemma_first_index_is(trailing_pred(s@, x@), 0, s.len() as int, i as int);
            }
            return slice_of(s, 0, s.len() - x.len() - 1);
        }
        i += 1;
    }
    proof {
        lemma_first_index_none(trailing_pred(s@, x@), 0, s.len() as int);
    }
    copy_of(s)
}

/// Drops `with_argument` from the `--with` list of a `dh` invocation.
pub fn dh_invoke_drop_with(line: &str, with_argument: &str) -> (r: String)
    ensures
        r@ == drop_with(line@, with_argument@),
{
    let s = chars_of(line);
    let x = chars_of(with_argument);
    if !contains_exec(&s, &x) {
        return string_of(&s);
    }
    let a = drop_sole_exec(&s, &x);
    let b = drop_leading_exec(&a, &x);
    let c = drop_inner_exec(&b, &x);
    let d = drop_trailing_exec(&c, &x);
    string_of(&d)
}

fn all_blank_exec(s: &Vec<char>, i: usize, k: usize) -> (r: bool)
    requires
        i <= k <= s.len(),
    ensures
        r == all_blank(s@, i as int, k as int),
{
    let mut t: usize = i;
    while t < k
        invariant
            i <= t <= k <= s.len(),
            all_blank(s@, i as int, t as int),
        decreases k - t,
    {
        if !is_blank_char(s[t]) {
            return false;
        }
        t += 1;
    }
    true
}

fn drop_final_argument_exec(s: &Vec<char>, x: &Vec<char>) -> (r: Vec<char>)
    ensures
        r@ == drop_final_argument(s@, x@),
{
    if x.len() > s.len() || !occurs_at_exec(s, x, s.len() - x.len()) {
        proof {
            lemma_first_index_none(ends_after_blanks_pred(s@, x@), 0, s.len() as int);
        }
        return copy_of(s);
    }
    let k: usize = s.len() - x.len();
    let mut i: usize = 0;
    while i < k
        invariant
            i <= k,
            k == s.len() - x.len(),
            occurs_at(s@, x@, k as int),
            forall|j: int| 0 <= j < i ==> !#[trigger] ends_after_blanks_pred(s@, x@)(j),
        decreases k - i,
    {
        if all_blank_exec(s, i, k) {
            proof {
                lemma_first_index_is(ends_after_blanks_pred(s@, x@), 0, s.len() as int, i as int);
            }
            return slice_of(s, 0, i);
        }
        i += 1;
    }
    proof {
        lemma_first_index_none(ends_after_blanks_pred(s@, x@), 0, s.len() as int);
    }
    copy_of(s)
}

fn between_blanks_at_exec(s: &Vec<char>, x: &Vec<char>, i: usize) -> (r: bool)
    requires
        i < s.len(),
    ensures
        r == between_blanks_at(s@, x@, i as int),
{
    if !is_blank_char(s[i]) || !occurs_at_exec(s, x, i + 1) {
        return false;
    }
    let e: usize = i + 1 + x.len();
    e < s.len() && is_blank_char(s[e])
}

fn first_between_blanks(s: &Vec<char>, x: &Vec<char>) -> (r: Option<usize>)
    ensures
        match r {
            Some(i) => first_index(between_blanks_pred(s@, x@), 0, s.len() as int) == Some(
                i as int,
            ) && between_blanks_at(s@, x@, i as int),
            None => first_index(between_blanks_pred(s@, x@), 0, s.len() as int) is None,
        },
{
    let mut i: usize = 0;
    while i < s.len()
        invariant
            i <= s.len(),
            forall|j: int| 0 <= j < i ==> !#[trigger] between_blanks_pred(s@, x@)(j),
        decreases s.len() - i,
    {
        if between_blanks_at_exec(s, x, i) {
            proof {
                lemma_first_index_is(between_blanks_pred(s@, x@), 0, s.len() as int, i as int);
            }
            return Some(i);
        }
        i += 1;
    }
    proof {
        lemma_first_index_none(between_blanks_pred(s@, x@), 0, s.len() as int);
    }
    None
}

/// Drops the flag `argument` from a `dh` invocation.
pub fn dh_invoke_drop_argument(line: &str, argument: &str) -> (r: String)
    ensures
        r@ == drop_argument(line@, argument@),
{
    let s = chars_of(line);
    let x = chars_of(argument);
    if !contains_exec(&s, &x) {
        return string_of(&s);
    }
    let a = drop_final_argument_exec(&s, &x);
    let out = match first_between_blanks(&a, &x) {
        Some(i) => {
            let mut out = slice_of(&a, 0, i + 1);
            push_range(&mut out, &a, i + 2 + x.len(), a.len());
            out
        },
        None => a,
    };
    string_of(&out)
}

/// Replaces the flag `old` by `new` in a `dh` invocation.
pub fn dh_invoke_replace_argument(line: &str, old: &str, new: &str) -> (r: String)
    ensures
        r@ == replace_argument(line@, old@, new@),
{
    let s = chars_of(line);
    let o = chars_of(old);
    let n = chars_of(new);
    if !contains_exec(&s, &o) {
        return string_of(&s);
    }
    let a = if o.len() < s.len() && is_blank_char(s[s.len() - o.len() - 1]) && occurs_at_exec(
        &s,
        &o,
        s.len() - o.len(),
    ) {
        let mut a = slice_of(&s, 0, s.len() - o.len());
        push_all(&mut a, &n);
        a
    } else {
        s
    };
    let out = match first_between_blanks(&a, &o) {
        Some(i) => {
            let mut out = slice_of(&a, 0, i + 1);
            push_all(&mut out, &n);
            push_range(&mut out, &a, i + 1 + o.len(), a.len());
            out
        },
        None => a,
    };
    string_of(&out)
}

/// The bytes of `include /usr/share/cdbs/`.
pub open spec fn cdbs_include() -> Seq<u8> {
    seq![105, 110, 99, 108, 117, 100, 101, 32, 47, 117, 115, 114, 47, 115, 104, 97, 114, 101, 47, 99, 100, 98, 115, 47]
}

/// A line begins at index `i`: at the start of the content or after a line
/// feed.
pub open spec fn line_starts_at(content: Seq<u8>, i: int) -> bool {
    0 <= i <= content.len() && (i == 0 || content[i - 1] == 10)
}

/// `p` stands in `content` at index `i`.
pub open spec fn bytes_at(content: Seq<u8>, p: Seq<u8>, i: int) -> bool {
    0 <= i && i + p.len() <= content.len() && content.subrange(i, i + p.len()) == p
}

/// The line that begins at index `i` includes a file of CDBS: it begins,
/// after at most one `-`, with `include /usr/share/cdbs/`.
pub open spec fn includes_cdbs_at(content: Seq<u8>, i: int) -> bool {
    line_starts_at(content, i) && (bytes_at(content, cdbs_include(), i) || (i < content.len()
        && content[i] == 45 && bytes_at(content, cdbs_include(), i + 1)))
}

/// Some line of the content includes a file of CDBS.
pub open spec fn uses_cdbs(content: Seq<u8>) -> bool {
    exists|i: int| includes_cdbs_at(content, i)
}

fn bytes_at_exec(content: &Vec<u8>, p: &Vec<u8>, i: usize) -> (r: bool)
    ensures
        r == bytes_at(content@, p@, i as int),
{
    if i > content.len() || p.len() > content.len() - i {
        return false;
    }
    let mut k: usize = 0;
    while k < p.len()
        invariant
            k <= p.len(),
            i + p.len() <= content.len(),
            forall|j: int| 0 <= j < k ==> content@[i + j] == p@[j],
        decreases p.len() - k,
    {
        if content[i + k] != p[k] {
            proof {
                assert(content@.subrange(i as int, i + p.len())[k as int] == content@[i + k]);
            }
            return false;
        }
        k += 1;
    }
    proof {
        assert(content@.subrange(i as int, i + p.len()) =~= p@);
    }
    true
}

/// Whether a `debian/rules` file with this content uses CDBS: whether one
/// of its lines includes a file from `/usr/share/cdbs/`.
pub fn check_cdbs(content: &Vec<u8>) -> (r: bool)
    ensures
        r == uses_cdbs(content@),
{
    let pattern: Vec<u8> = vec![105, 110, 99, 108, 117, 100, 101, 32, 47, 117, 115, 114, 47, 115, 104, 97, 114, 101, 47, 99, 100, 98, 115, 47];
    proof {
        assert(pattern@ =~= cdbs_include());
    }
    let mut i: usize = 0;
    while i <= content.len()
        invariant
            i <= content.len() + 1,
            pattern@ == cdbs_include(),
            forall|j: int| 0 <= j < i ==> !includes_cdbs_at(content@, j),
        decreases content.len() + 1 - i,
    {
        if i == 0 || content[i - 1] == 10 {
            if bytes_at_exec(content, &pattern, i) {
                assert(includes_cdbs_at(content@, i as int));
                return true;
            }
            if i < content.len() && content[i] == 45 && bytes_at_exec(content, &pattern, i + 1) {
                assert(includes_cdbs_at(content@, i as int));
                return true;
            }
        }
        if i == content.len() {
            proof {
                assert forall|j: int| !includes_cdbs_at(content@, j) by {
                    if 0 <= j <= content.len() {
                        assert(j < i + 1);
                    }
                }
            }
            return false;
        }
        i += 1;
    }
    false
}

/// What a rule of a makefile says.
pub struct RuleView {
    pub targets: Seq<Seq<char>>,
    pub prerequisites: Seq<Seq<char>>,
    pub recipes: Seq<Seq<char>>,
}

/// A rule of a makefile: its targets, its prerequisites and the lines of
/// its recipe, comments left out.
pub struct Rule {
    pub targets: Vec<String>,
    pub prerequisites: Vec<String>,
    pub recipes: Vec<String>,
}

impl View for Rule {
    type V = RuleView;

    open spec fn view(&self) -> RuleView {
        RuleView {
            targets: views(self.targets@),
            prerequisites: views(self.prerequisites@),
            recipes: views(self.recipes@),
        }
    }
}

/// The views of the rules of `v`, in order.
pub open spec fn rule_views(v: Seq<Rule>) -> Seq<RuleView> {
    Seq::new(v.len(), |i: int| v[i]@)
}

/// A makefile: its rules in the order of the file.
pub struct Makefile {
    pub rules: Vec<Rule>,
}

impl View for Makefile {
    type V = Seq<RuleView>;

    open spec fn view(&self) -> Seq<RuleView> {
        rule_views(self.rules@)
    }
}

/// The texts from index `i` on that begin with `prefix`.
pub open spec fn prefixed_from(items: Seq<Seq<char>>, prefix: Seq<char>, i: int) -> Seq<Seq<char>>
    decreases items.len() - i,
{
    if i < 0 || i >= items.len() {
        Seq::empty()
    } else if starts_with(items[i], prefix) {
        seq![items[i]] + prefixed_from(items, prefix, i + 1)
    } else {
        prefixed_from(items, prefix, i + 1)
    }
}

/// The lines from index `i` on that hold more than whitespace.
pub open spec fn non_blank_from(lines: Seq<Seq<char>>, i: int) -> Seq<Seq<char>>
    decreases lines.len() - i,
{
    if i < 0 || i >= lines.len() {
        Seq::empty()
    } else if trim(lines[i]).len() > 0 {
        seq![lines[i]] + non_blank_from(lines, i + 1)
    } else {
        non_blank_from(lines, i + 1)
    }
}

/// The target of the rule that overrides a command, where the rule is
/// pointless: exactly one of its targets begins with `override_`, it has no
/// prerequisites, and the one line of its recipe that holds more than
/// whitespace is, without the whitespace around it, the command that the
/// target overrides.
pub open spec fn pointless_target(rule: RuleView) -> Option<Seq<char>> {
    let overrides = prefixed_from(rule.targets, "override_"@, 0);
    let lines = non_blank_from(rule.recipes, 0);
    if overrides.len() == 1 && rule.prerequisites.len() == 0 && lines.len() == 1 && trim(lines[0])
        == overrides[0].subrange("override_"@.len() as int, overrides[0].len() as int) {
        Some(overrides[0])
    } else {
        None
    }
}

/// The rule declares phony targets: `.PHONY` is among its targets.
pub open spec fn declares_phony(rule: RuleView) -> bool {
    rule.targets.contains(".PHONY"@)
}

/// The texts from index `i` on that differ from `item`.
pub open spec fn others_from(items: Seq<Seq<char>>, item: Seq<char>, i: int) -> Seq<Seq<char>>
    decreases items.len() - i,
{
    if i < 0 || i >= items.len() {
        Seq::empty()
    } else if items[i] == item {
        others_from(items, item, i + 1)
    } else {
        seq![items[i]] + others_from(items, item, i + 1)
    }
}

/// The rule after `target` was taken out of the phony targets: a rule that
/// declares phony targets and lists `target` loses it, and goes altogether
/// where it then lists nothing; any other rule stays as it is.
pub open spec fn without_phony_target(rule: RuleView, target: Seq<char>) -> Option<RuleView> {
    if declares_phony(rule) && rule.prerequisites.contains(target) {
        let rest = others_from(rule.prerequisites, target, 0);
        if rest.len() == 0 {
            None
        } else {
            Some(RuleView { prerequisites: rest, ..rule })
        }
    } else {
        Some(rule)
    }
}

/// The rules from index `i` on, with `target` taken out of the phony
/// targets.
pub open spec fn without_phony_from(
    rules: Seq<RuleView>,
    target: Seq<char>,
    i: int,
) -> Seq<RuleView>
    decreases rules.len() - i,
{
    if i < 0 || i >= rules.len() {
        Seq::empty()
    } else {
        match without_phony_target(rules[i], target) {
            Some(r) => seq![r] + without_phony_from(rules, target, i + 1),
            None => without_phony_from(rules, target, i + 1),
        }
    }
}

/// The predicate "the rule at this index has the targets `targets`" of a
/// makefile.
pub open spec fn targets_pred(rules: Seq<RuleView>, targets: Seq<Seq<char>>) -> spec_fn(
    int,
) -> bool {
    |i: int| rules[i].targets == targets
}

/// The makefile after a pointless override was discarded: without the
/// first rule that has the targets of `rule`, and with the overriding
/// target taken out of the phony targets. A makefile stays as it is where
/// `rule` is not pointless or no rule has its targets.
pub open spec fn override_discarded(rules: Seq<RuleView>, rule: RuleView) -> Seq<RuleView> {
    match pointless_target(rule) {
        Some(target) => match first_index(targets_pred(rules, rule.targets), 0, rules.len() as int) {
            Some(k) => without_phony_from(rules.remove(k), target, 0),
            None => rules,
        },
        None => rules,
    }
}

/// Whether discarding `rule` as a pointless override removes a rule.
pub open spec fn override_discardable(rules: Seq<RuleView>, rule: RuleView) -> bool {
    pointless_target(rule) is Some && first_index(
        targets_pred(rules, rule.targets),
        0,
        rules.len() as int,
    ) is Some
}

fn same_strings(a: &Vec<String>, b: &Vec<String>) -> (r: bool)
    ensures
        r == (views(a@) == views(b@)),
{
    if a.len() != b.len() {
        assert(views(a@).len() != views(b@).len());
        return false;
    }
    let mut i: usize = 0;
    while i < a.len()
        invariant
            i <= a.len(),
            a.len() == b.len(),
            forall|k: int| 0 <= k < i ==> views(a@)[k] == views(b@)[k],
        decreases a.len() - i,
    {
        if !str_eq(a[i].as_str(), b[i].as_str()) {
            assert(views(a@)[i as int] != views(b@)[i as int]);
            return false;
        }
        i += 1;
    }
    proof {
        assert(views(a@) =~= views(b@));
    }
    true
}

fn copy_strings(v: &Vec<String>) -> (r: Vec<String>)
    ensures
        views(r@) == views(v@),
{
    let mut out: Vec<String> = Vec::new();
    let mut i: usize = 0;
    while i < v.len()
        invariant
            i <= v.len(),
            views(out@) == views(v@).take(i as int),
        decreases v.len() - i,
    {
        let ghost before = views(out@);
        out.push(v[i].clone());
        proof {
            assert(views(out@) =~= before.push(v@[i as int]@));
            assert(views(out@) =~= views(v@).take(i + 1));
        }
        i += 1;
    }
    proof {
        assert(views(v@).take(i as int) =~= views(v@));
    }
    out
}

fn copy_rule(rule: &Rule) -> (r: Rule)
    ensures
        r@ == rule@,
{
    Rule {
        targets: copy_strings(&rule.targets),
        prerequisites: copy_strings(&rule.prerequisites),
        recipes: copy_strings(&rule.recipes),
    }
}

/// The target that a pointless rule overrides a command with.
pub fn pointless_override_target(rule: &Rule) -> (r: Option<String>)
    ensures
        crate::debcargo::text_view(r) == pointless_target(rule@),
{
    let prefix = chars_of("override_");
    let ghost targets = views(rule.targets@);
    let mut found: Option<usize> = None;
    let mut count: usize = 0;
    let mut i: usize = 0;
    let ghost mut seen: Seq<Seq<char>> = Seq::empty();
    proof {
        assert(seen + prefixed_from(targets, prefix@, 0) =~= prefixed_from(targets, prefix@, 0));
    }
    while i < rule.targets.len()
        invariant
            i <= rule.targets.len(),
            targets == views(rule.targets@),
            prefix@ == "override_"@,
            seen + prefixed_from(targets, prefix@, i as int) == prefixed_from(targets, prefix@, 0),
            count == seen.len(),
            count <= i,
            forall|t: int| 0 <= t < seen.len() ==> starts_with(#[trigger] seen[t], prefix@),
            count >= 1 ==> (found matches Some(k) && k < rule.targets.len() && targets[k as int]
                == seen[0]),
        decreases rule.targets.len() - i,
    {
        let t = chars_of(rule.targets[i].as_str());
        proof {
            assert(targets[i as int] == rule.targets@[i as int]@);
        }
        if occurs_at_exec(&t, &prefix, 0) {
            if count == 0 {
                found = Some(i);
            }
            count += 1;
            proof {
                assert(seen.push(targets[i as int]) + prefixed_from(targets, prefix@, i + 1)
                    =~= seen + prefixed_from(targets, prefix@, i as int));
                seen = seen.push(targets[i as int]);
            }
        }
        i += 1;
    }
    proof {
        assert(seen + prefixed_from(targets, prefix@, i as int) =~= seen);
    }
    if count != 1 || rule.prerequisites.len() != 0 {
        return None;
    }
    let k = found.unwrap();
    let ghost lines = views(rule.recipes@);
    let mut line: Option<usize> = None;
    let mut n: usize = 0;
    let mut j: usize = 0;
    let ghost mut kept: Seq<Seq<char>> = Seq::empty();
    proof {
        assert(kept + non_blank_from(lines, 0) =~= non_blank_from(lines, 0));
    }
    while j < rule.recipes.len()
        invariant
            j <= rule.recipes.len(),
            lines == views(rule.recipes@),
            kept + non_blank_from(lines, j as int) == non_blank_from(lines, 0),
            n == kept.len(),
            n <= j,
            n >= 1 ==> (line matches Some(l) && l < rule.recipes.len() && lines[l as int]
                == kept[0]),
        decreases rule.recipes.len() - j,
    {
        let text = chars_of(rule.recipes[j].as_str());
        proof {
            assert(lines[j as int] == rule.recipes@[j as int]@);
        }
        let trimmed = trim_exec(&text);
        if trimmed.len() > 0 {
            if n == 0 {
                line = Some(j);
            }
            n += 1;
            proof {
                assert(kept.push(lines[j as int]) + non_blank_from(lines, j + 1) =~= kept
                    + non_blank_from(lines, j as int));
                kept = kept.push(lines[j as int]);
            }
        }
        j += 1;
    }
    proof {
        assert(kept + non_blank_from(lines, j as int) =~= kept);
    }
    if n != 1 {
        return None;
    }
    let l = line.unwrap();
    let text = chars_of(rule.recipes[l].as_str());
    let trimmed = trim_exec(&text);
    let target = chars_of(rule.targets[k].as_str());
    proof {
        assert(lines[l as int] == rule.recipes@[l as int]@);
        assert(targets[k as int] == rule.targets@[k as int]@);
        assert(occurs_at(target@, prefix@, 0));
    }
    let command = slice_of(&target, prefix.len(), target.len());
    if crate::text::same_chars(&trimmed, &command) {
        Some(rule.targets[k].clone())
    } else {
        None
    }
}

fn contains_string(v: &Vec<String>, item: &str) -> (r: bool)
    ensures
        r == views(v@).contains(item@),
{
    let mut i: usize = 0;
    while i < v.len()
        invariant
            i <= v.len(),
            forall|k: int| 0 <= k < i ==> views(v@)[k] != item@,
        decreases v.len() - i,
    {
        if str_eq(v[i].as_str(), item) {
            assert(views(v@)[i as int] == item@);
            return true;
        }
        i += 1;
    }
    false
}

fn others_exec(v: &Vec<String>, item: &str) -> (r: Vec<String>)
    ensures
        views(r@) == others_from(views(v@), item@, 0),
{
    let ghost iv = views(v@);
    let mut out: Vec<String> = Vec::new();
    let mut i: usize = 0;
    proof {
        assert(views(out@) + others_from(iv, item@, 0) =~= others_from(iv, item@, 0));
    }
    while i < v.len()
        invariant
            i <= v.len(),
            iv == views(v@),
            views(out@) + others_from(iv, item@, i as int) == others_from(iv, item@, 0),
        decreases v.len() - i,
    {
        proof {
            assert(iv[i as int] == v@[i as int]@);
        }
        if !str_eq(v[i].as_str(), item) {
            let ghost before = views(out@);
            out.push(v[i].clone());
            proof {
                assert(views(out@) =~= before.push(iv[i as int]));
                assert(before + (seq![iv[i as int]] + others_from(iv, item@, i + 1))
                    =~= before.push(iv[i as int]) + others_from(iv, item@, i + 1));
            }
        }
        i += 1;
    }
    proof {
        assert(views(out@) + others_from(iv, item@, i as int) =~= views(out@));
    }
    out
}

fn without_phony_exec(rules: &Vec<Rule>, target: &str) -> (r: Vec<Rule>)
    ensures
        rule_views(r@) == without_phony_from(rule_views(rules@), target@, 0),
{
    let ghost rv = rule_views(rules@);
    let mut out: Vec<Rule> = Vec::new();
    let mut i: usize = 0;
    proof {
        assert(rule_views(out@) + without_phony_from(rv, target@, 0) =~= without_phony_from(
            rv,
            target@,
            0,
        ));
    }
    while i < rules.len()
        invariant
            i <= rules.len(),
            rv == rule_views(rules@),
            rule_views(out@) + without_phony_from(rv, target@, i as int) == without_phony_from(
                rv,
                target@,
                0,
            ),
        decreases rules.len() - i,
    {
        let rule = &rules[i];
        proof {
            assert(rv[i as int] == rule@);
        }
        let ghost before = rule_views(out@);
        if contains_string(&rule.targets, ".PHONY") && contains_string(&rule.prerequisites, target) {
            let rest = others_exec(&rule.prerequisites, target);
            if rest.len() > 0 {
                let cleaned = Rule {
                    targets: copy_strings(&rule.targets),
                    prerequisites: rest,
                    recipes: copy_strings(&rule.recipes),
                };
                out.push(cleaned);
                proof {
                    assert(rule_views(out@) =~= before.push(cleaned@));
                    assert(before + (seq![cleaned@] + without_phony_from(rv, target@, i + 1))
                        =~= before.push(cleaned@) + without_phony_from(rv, target@, i + 1));
                }
            }
        } else {
            let copy = copy_rule(rule);
            out.push(copy);
            proof {
                assert(rule_views(out@) =~= before.push(copy@));
                assert(before + (seq![copy@] + without_phony_from(rv, target@, i + 1))
                    =~= before.push(copy@) + without_phony_from(rv, target@, i + 1));
            }
        }
        i += 1;
    }
    proof {
        assert(rule_views(out@) + without_phony_from(rv, target@, i as int) =~= rule_views(out@));
    }
    out
}

/// The index of the rule that leaves the makefile when `rule` is
/// discarded as a pointless override: that of the first rule with the
/// targets of `rule`, where `rule` is a pointless override and the makefile
/// has such a rule.
pub open spec fn discarded_index(rules: Seq<RuleView>, rule: RuleView) -> Option<int> {
    match pointless_target(rule) {
        Some(_) => first_index(targets_pred(rules, rule.targets), 0, rules.len() as int),
        None => None,
    }
}

/// Where in the makefile the rule stands that `discard_pointless_override`
/// removes for `rule`; `None` where it removes none.
pub fn pointless_override_index(makefile: &Makefile, rule: &Rule) -> (r: Option<usize>)
    ensures
        match r {
            Some(k) => discarded_index(makefile@, rule@) == Some(k as int) && k < makefile@.len(),
            None => discarded_index(makefile@, rule@) is None,
        },
{
    if pointless_override_target(rule).is_none() {
        return None;
    }
    let ghost rv = makefile@;
    let mut k: usize = 0;
    while k < makefile.rules.len()
        invariant
            k <= makefile.rules.len(),
            rv == makefile@,
            pointless_target(rule@) is Some,
            forall|j: int| 0 <= j < k ==> !#[trigger] targets_pred(rv, rule@.targets)(j),
        decreases makefile.rules.len() - k,
    {
        proof {
            assert(rv[k as int] == makefile.rules@[k as int]@);
        }
        if same_strings(&makefile.rules[k].targets, &rule.targets) {
            proof {
                lemma_first_index_is(targets_pred(rv, rule@.targets), 0, rv.len() as int, k as int);
            }
            return Some(k);
        }
        k += 1;
    }
    proof {
        lemma_first_index_none(targets_pred(rv, rule@.targets), 0, rv.len() as int);
    }
    None
}

/// Discards `rule` from the makefile where it is a pointless override: a
/// rule that only calls the command that it overrides. Returns whether a
/// rule was removed.
pub fn discard_pointless_override(makefile: &mut Makefile, rule: &Rule) -> (removed: bool)
    ensures
        final(makefile)@ == override_discarded(old(makefile)@, rule@),
        removed == override_discardable(old(makefile)@, rule@),
{
    let target = match pointless_override_target(rule) {
        Some(t) => t,
        None => {
            return false;
        },
    };
    match pointless_override_index(makefile, rule) {
        Some(k) => {
            let ghost rv = makefile@;
            makefile.rules.remove(k);
            proof {
                assert(rule_views(makefile.rules@) =~= rv.remove(k as int));
            }
            let cleaned = without_phony_exec(&makefile.rules, target.as_str());
            makefile.rules = cleaned;
            true
        },
        None => false,
    }
}

/// The makefile after every rule of `snapshot` from index `i` on was
/// discarded where it is a pointless override, one after the other.
pub open spec fn overrides_discarded(
    rules: Seq<RuleView>,
    snapshot: Seq<RuleView>,
    i: int,
) -> Seq<RuleView>
    decreases snapshot.len() - i,
{
    if i < 0 || i >= snapshot.len() {
        rules
    } else {
        overrides_discarded(override_discarded(rules, snapshot[i]), snapshot, i + 1)
    }
}

/// How many rules of `snapshot` from index `i` on are removed when each is
/// discarded where it is a pointless override, one after the other.
pub open spec fn overrides_counted(rules: Seq<RuleView>, snapshot: Seq<RuleView>, i: int) -> nat
    decreases snapshot.len() - i,
{
    if i < 0 || i >= snapshot.len() {
        0
    } else {
        (if override_discardable(rules, snapshot[i]) {
            1nat
        } else {
            0nat
        }) + overrides_counted(override_discarded(rules, snapshot[i]), snapshot, i + 1)
    }
}

/// Discards every pointless override of the makefile: each rule that the
/// makefile holds at the start is looked at in turn. Returns how many rules
/// were removed.
pub fn discard_pointless_overrides(makefile: &mut Makefile) -> (removed: usize)
    ensures
        final(makefile)@ == overrides_discarded(old(makefile)@, old(makefile)@, 0),
        removed == overrides_counted(old(makefile)@, old(makefile)@, 0),
{
    let mut snapshot: Vec<Rule> = Vec::new();
    let mut c: usize = 0;
    while c < makefile.rules.len()
        invariant
            c <= makefile.rules.len(),
            *makefile == *old(makefile),
            rule_views(snapshot@) == makefile@.take(c as int),
        decreases makefile.rules.len() - c,
    {
        let copy = copy_rule(&makefile.rules[c]);
        let ghost before = rule_views(snapshot@);
        snapshot.push(copy);
        proof {
            assert(rule_views(snapshot@) =~= before.push(copy@));
            assert(rule_views(snapshot@) =~= makefile@.take(c + 1));
        }
        c += 1;
    }
    proof {
        assert(makefile@.take(c as int) =~= makefile@);
    }
    let ghost snap = rule_views(snapshot@);
    let mut removed: usize = 0;
    let mut i: usize = 0;
    while i < snapshot.len()
        invariant
            i <= snapshot.len(),
            snap == rule_views(snapshot@),
            snap == old(makefile)@,
            removed <= i,
            overrides_discarded(makefile@, snap, i as int) == overrides_discarded(
                old(makefile)@,
                snap,
                0,
            ),
            removed + overrides_counted(makefile@, snap, i as int) == overrides_counted(
                old(makefile)@,
                snap,
                0,
            ),
        decreases snapshot.len() - i,
    {
        proof {
            assert(snap[i as int] == snapshot@[i as int]@);
        }
        if discard_pointless_override(makefile, &snapshot[i]) {
            removed += 1;
        }
        i += 1;
    }
    removed
}

} // verus!
