//! What holds of adding to and dropping from the `--with` list of a `dh`
//! invocation.

use crate::rules::{
    add_with, drop_argument, drop_inner, drop_leading, drop_sole, drop_trailing, drop_with,
    inner_at, inner_pred, is_blank, last_inner, leading_at, leading_pred, lemma_last_inner,
    no_newline, replace_argument, sole_at, sole_pred, trailing_at, trailing_pred, with_flag_at,
    with_value_at, with_value_pred, with_word,
};
use crate::text::{
    contains, first_index, lemma_first_index, lemma_first_index_is, lemma_first_index_none,
    lemma_occurs_concat, lemma_occurs_one, occurs_at,
};
use vstd::prelude::*;

verus! {

/// No character of `s` is `c`.
pub open spec fn lacks(s: Seq<char>, c: char) -> bool {
    forall|k: int| 0 <= k < s.len() ==> s[k] != c
}

/// Where `x` stands at `q`, each of its characters is the character of `s`
/// at the same place.
proof fn lemma_occurs_char(s: Seq<char>, x: Seq<char>, q: int, t: int)
    requires
        occurs_at(s, x, q),
        q <= t < q + x.len(),
    ensures
        x[t - q] == s[t],
{
    assert(s.subrange(q, q + x.len())[t - q] == s[t]);
}

/// A text that agrees with `line` on the place where `x` stands in it
/// would make `x` stand in `line`.
proof fn lemma_occurs_moved(s: Seq<char>, line: Seq<char>, x: Seq<char>, q: int, shift: int)
    requires
        occurs_at(s, x, q),
        0 <= q - shift,
        q - shift + x.len() <= line.len(),
        forall|k: int| q <= k < q + x.len() ==> s[k] == line[k - shift],
    ensures
        occurs_at(line, x, q - shift),
{
    let a = line.subrange(q - shift, q - shift + x.len());
    let b = s.subrange(q, q + x.len());
    assert forall|k: int| 0 <= k < x.len() implies #[trigger] a[k] == b[k] by {
        assert(s[q + k] == line[q + k - shift]);
    }
    assert(a =~= b);
}

/// In a line that does not hold `arg`, none of the four removals finds
/// anything to remove.
pub proof fn lemma_nothing_to_drop(line: Seq<char>, arg: Seq<char>)
    requires
        !contains(line, arg),
    ensures
        drop_sole(line, arg) == line,
        drop_leading(line, arg) == line,
        drop_inner(line, arg) == line,
        drop_trailing(line, arg) == line,
{
    let n = line.len() as int;
    assert forall|i: int| 0 <= i < n implies !#[trigger] sole_pred(line, arg)(i) by {
        assert(!occurs_at(line, arg, i + 8));
    }
    lemma_first_index_none(sole_pred(line, arg), 0, n);
    assert forall|i: int| 0 <= i < n implies !#[trigger] leading_pred(line, arg)(i) by {
        lemma_occurs_concat(line, arg, seq![','], i + 8);
        assert(!occurs_at(line, arg, i + 8));
    }
    lemma_first_index_none(leading_pred(line, arg), 0, n);
    assert forall|i: int| 0 <= i < n implies !#[trigger] inner_pred(line, arg)(i) by {
        lemma_last_inner(line, arg, i, n);
        match last_inner(line, arg, i, n) {
            Some(j) => {
                assert(!occurs_at(line, arg, j + 1));
            },
            None => {},
        }
    }
    lemma_first_index_none(inner_pred(line, arg), 0, n);
    assert forall|i: int| 0 <= i < n implies !#[trigger] trailing_pred(line, arg)(i) by {
        assert(!occurs_at(line, arg, line.len() - arg.len() - 1 + 1));
    }
    lemma_first_index_none(trailing_pred(line, arg), 0, n);
}

/// Adding the same name twice is the same as adding it once.
pub proof fn lemma_add_with_twice(line: Seq<char>, arg: Seq<char>)
    ensures
        add_with(add_with(line, arg), arg) == add_with(line, arg),
{
    let once = add_with(line, arg);
    if !contains(line, arg) {
        match first_index(with_value_pred(line), 0, line.len() as int) {
            Some(i) => {
                lemma_first_index(with_value_pred(line), 0, line.len() as int);
                assert(once.subrange(i + 8, i + 8 + arg.len()) =~= arg);
                assert(occurs_at(once, arg, i + 8));
            },
            None => {
                let at = line.len() as int + 8;
                assert(once.subrange(at, at + arg.len()) =~= arg);
                assert(occurs_at(once, arg, at));
            },
        }
    }
}

/// The line `line` with ` --with=` and `arg` at its end.
pub open spec fn appended(line: Seq<char>, arg: Seq<char>) -> Seq<char> {
    line + seq![' '] + with_word() + seq!['='] + arg
}

/// What stands where in a line that got ` --with=` and the name at its
/// end.
proof fn lemma_appended_chars(line: Seq<char>, arg: Seq<char>)
    ensures
        ({
            let s = appended(line, arg);
            let n = line.len() as int;
            &&& s.len() == n + 8 + arg.len()
            &&& forall|k: int| 0 <= k < n ==> s[k] == line[k]
            &&& s[n] == ' '
            &&& s[n + 1] == '-' && s[n + 2] == '-' && s[n + 3] == 'w' && s[n + 4] == 'i'
            &&& s[n + 5] == 't' && s[n + 6] == 'h' && s[n + 7] == '='
            &&& forall|k: int| 0 <= k < arg.len() ==> s[n + 8 + k] == arg[k]
            &&& with_flag_at(s, n)
            &&& occurs_at(s, arg, n + 8)
        }),
{
    let s = appended(line, arg);
    let n = line.len() as int;
    assert(s.subrange(n + 1, n + 7) =~= with_word());
    assert(s.subrange(n + 8, n + 8 + arg.len()) =~= arg);
}

/// Before the flag that was put at the end of the line, no flag holds the
/// name alone.
proof fn lemma_no_earlier_sole(line: Seq<char>, arg: Seq<char>, j: int)
    requires
        !contains(line, arg),
        lacks(arg, ' '),
        arg.len() > 0,
        0 <= j < line.len(),
    ensures
        !sole_at(appended(line, arg), arg, j),
{
    let s = appended(line, arg);
    let n = line.len() as int;
    let m = arg.len() as int;
    lemma_appended_chars(line, arg);
    if with_flag_at(s, j) && occurs_at(s, arg, j + 8) {
        let q = j + 8;
        if q + m <= n {
            lemma_occurs_moved(s, line, arg, q, 0);
            assert(false);
        } else if q <= n {
            lemma_occurs_char(s, arg, q, n);
            assert(false);
        } else {
            let d = n - j;
            let w = s.subrange(j + 1, j + 7);
            assert(w == with_word());
            if d <= 6 {
                assert(w[d - 1] == s[n]);
                assert(false);
            } else {
                let r = q + m;
                assert(r < s.len());
                if r < n + 8 {
                    assert(s[r] != ' ');
                } else {
                    assert(s[r] == arg[r - n - 8]);
                    assert(s[r] != ' ');
                }
            }
        }
    }
}

/// A line that got ` --with=` and the name at its end loses exactly that
/// when the name is dropped.
proof fn lemma_drop_appended(line: Seq<char>, arg: Seq<char>)
    requires
        !contains(line, arg),
        lacks(arg, ' '),
    ensures
        drop_with(appended(line, arg), arg) == line,
{
    let s = appended(line, arg);
    let n = line.len() as int;
    assert(arg.len() > 0) by {
        if arg.len() == 0 {
            assert(line.subrange(0, 0) =~= arg);
            assert(occurs_at(line, arg, 0));
        }
    }
    lemma_appended_chars(line, arg);
    assert(contains(s, arg));
    assert(sole_at(s, arg, n));
    assert forall|j: int| 0 <= j < n implies !#[trigger] sole_pred(s, arg)(j) by {
        lemma_no_earlier_sole(line, arg, j);
    }
    lemma_first_index_is(sole_pred(s, arg), 0, s.len() as int, n);
    assert(drop_sole(s, arg) =~= line);
    lemma_nothing_to_drop(line, arg);
}

/// In a name that repeats itself after seven characters up to a comma,
/// a comma stands at every seventh place before that comma.
proof fn lemma_comma_comes_down(arg: Seq<char>, k: int)
    requires
        arg.len() >= 7,
        forall|t: int| 0 <= t < arg.len() - 7 ==> #[trigger] arg[t] == arg[t + 7],
        arg[arg.len() - 7] == ',',
        0 <= k <= arg.len() - 7,
        (arg.len() - 7 - k) % 7 == 0,
    ensures
        arg[k] == ',',
    decreases arg.len() - k,
{
    if k < arg.len() - 7 {
        lemma_comma_comes_down(arg, k + 7);
    }
}

/// The line `line` with `arg` and a comma put in after the eight
/// characters of the `--with` flag at `i`.
pub open spec fn prepended(line: Seq<char>, arg: Seq<char>, i: int) -> Seq<char> {
    line.subrange(0, i + 8) + arg + seq![','] + line.subrange(i + 8, line.len() as int)
}

/// The characters of a line with a name put in at a flag: those of the
/// line, with those of the name and a comma between them.
proof fn lemma_prepended_chars(line: Seq<char>, arg: Seq<char>, i: int)
    requires
        !contains(line, arg),
        with_value_at(line, i),
    ensures
        arg.len() > 0,
        prepended(line, arg, i).len() == line.len() + arg.len() + 1,
        forall|k: int| 0 <= k < i + 8 ==> #[trigger] prepended(line, arg, i)[k] == line[k],
        forall|k: int|
            0 <= k < arg.len() ==> #[trigger] prepended(line, arg, i)[i + 8 + k] == arg[k],
        prepended(line, arg, i)[i + 8 + arg.len()] == ',',
        forall|k: int|
            i + 8 + arg.len() + 1 <= k < prepended(line, arg, i).len() ==> #[trigger] prepended(
                line,
                arg,
                i,
            )[k] == line[k - arg.len() - 1],
        occurs_at(prepended(line, arg, i), arg, i + 8),
        with_flag_at(prepended(line, arg, i), i),
{
    let s = prepended(line, arg, i);
    if arg.len() == 0 {
        assert(line.subrange(0, 0) =~= arg);
        assert(occurs_at(line, arg, 0));
    }
    assert(s.subrange(i + 8, i + 8 + arg.len()) =~= arg);
    assert(s.subrange(i + 1, i + 7) =~= line.subrange(i + 1, i + 7));
}

/// A name that begins with `--with=` does not repeat itself after seven
/// characters up to a comma.
proof fn lemma_flag_does_not_repeat(arg: Seq<char>)
    requires
        arg.len() >= 7,
        arg[0] == '-',
        arg[1] == '-',
        arg[2] == 'w',
        arg[3] == 'i',
        arg[4] == 't',
        arg[5] == 'h',
        arg[6] == '=',
        forall|t: int| 0 <= t < arg.len() - 7 ==> #[trigger] arg[t] == arg[t + 7],
    ensures
        arg[arg.len() - 7] != ',',
{
    if arg[arg.len() - 7] == ',' {
        let r = (arg.len() - 7) % 7;
        lemma_comma_comes_down(arg, r);
        assert(0 <= r < 7);
        assert(arg[r] == ',');
    }
}

/// Where a text holds a name without blanks and a comma after it, and no
/// blank in the six characters before the joiner in front of the name, the
/// name does not stand after a flag that begins behind those and ends in
/// the name or at the comma.
proof fn lemma_no_flag_inside(s: Seq<char>, arg: Seq<char>, n: int, j: int)
    requires
        n >= 8,
        n + arg.len() < s.len(),
        forall|k: int| 0 <= k < arg.len() ==> s[n + k] == #[trigger] arg[k],
        s[n + arg.len()] == ',',
        forall|k: int| n - 7 <= k < n - 1 ==> !is_blank(#[trigger] s[k]),
        lacks(arg, ' '),
        lacks(arg, '\t'),
        n < j + 8 <= n + arg.len(),
        with_flag_at(s, j),
    ensures
        !occurs_at(s, arg, j + 8),
{
    let m = arg.len() as int;
    let q = j + 8;
    if occurs_at(s, arg, q) {
        assert(is_blank(s[j]));
        if j >= n {
            assert(s[n + (j - n)] == arg[j - n]);
            assert(false);
        }
        assert(j == n - 1);
        assert(m >= 7);
        assert forall|t: int| 0 <= t < m - 7 implies #[trigger] arg[t] == arg[t + 7] by {
            lemma_occurs_char(s, arg, q, q + t);
            assert(s[n + (t + 7)] == arg[t + 7]);
        }
        assert(arg[m - 7] == ',') by {
            lemma_occurs_char(s, arg, q, q + m - 7);
        }
        let w = s.subrange(j + 1, j + 7);
        assert(w == with_word());
        assert(arg[0] == '-') by {
            assert(w[0] == s[n + 0]);
        }
        assert(arg[1] == '-') by {
            assert(w[1] == s[n + 1]);
        }
        assert(arg[2] == 'w') by {
            assert(w[2] == s[n + 2]);
        }
        assert(arg[3] == 'i') by {
            assert(w[3] == s[n + 3]);
        }
        assert(arg[4] == 't') by {
            assert(w[4] == s[n + 4]);
        }
        assert(arg[5] == 'h') by {
            assert(w[5] == s[n + 5]);
        }
        assert(arg[6] == '=') by {
            assert(s[j + 7] == s[n + 6]);
        }
        lemma_flag_does_not_repeat(arg);
    }
}

/// In a line with a name without blanks put in at a flag, the name does
/// not stand after a flag that begins behind that flag and ends in the
/// name or at the comma after it.
proof fn lemma_no_sole_inside(line: Seq<char>, arg: Seq<char>, i: int, j: int)
    requires
        !contains(line, arg),
        lacks(arg, ' '),
        lacks(arg, '\t'),
        with_value_at(line, i),
        i + 8 < j + 8 <= i + 8 + arg.len(),
        with_flag_at(prepended(line, arg, i), j),
    ensures
        !occurs_at(prepended(line, arg, i), arg, j + 8),
{
    let s = prepended(line, arg, i);
    let n = i + 8;
    lemma_prepended_chars(line, arg, i);
    assert forall|k: int| n - 7 <= k < n - 1 implies !is_blank(#[trigger] s[k]) by {
        assert(line.subrange(i + 1, i + 7)[k - i - 1] == line[k]);
        assert(s[k] == line[k]);
    }
    assert forall|k: int| 0 <= k < arg.len() implies s[n + k] == #[trigger] arg[k] by {}
    lemma_no_flag_inside(s, arg, n, j);
}

/// In a line with a name put in at its first flag with a value, no flag
/// holds the name alone.
proof fn lemma_no_sole_prepended(line: Seq<char>, arg: Seq<char>, i: int, j: int)
    requires
        !contains(line, arg),
        lacks(arg, ' '),
        lacks(arg, ',') || lacks(arg, '\t'),
        with_value_at(line, i),
    ensures
        !sole_at(prepended(line, arg, i), arg, j),
{
    let s = prepended(line, arg, i);
    let n1 = i + 8;
    let m = arg.len() as int;
    lemma_prepended_chars(line, arg, i);
    if sole_at(s, arg, j) {
        let q = j + 8;
        if q + m <= n1 {
            lemma_occurs_moved(s, line, arg, q, 0);
            assert(false);
        } else if q >= n1 + m + 1 {
            lemma_occurs_moved(s, line, arg, q, m + 1);
            assert(false);
        } else if q > n1 {
            lemma_occurs_char(s, arg, q, n1 + m);
            assert(arg[n1 + m - q] == ',');
            lemma_no_sole_inside(line, arg, i, j);
            assert(false);
        } else if q == n1 {
            assert(false);
        } else {
            let r = q + m;
            assert(n1 < r < n1 + m);
            assert(s[r] == arg[r - n1]);
            assert(false);
        }
    }
}

/// In a line with a name put in at its first flag with a value, no flag
/// before that one holds the name first.
proof fn lemma_no_earlier_leading(line: Seq<char>, arg: Seq<char>, i: int, j: int)
    requires
        !contains(line, arg),
        lacks(arg, ',') || lacks(arg, '\t'),
        lacks(arg, ' '),
        with_value_at(line, i),
        forall|k: int| 0 <= k < i ==> !#[trigger] with_value_pred(line)(k),
        0 <= j < i,
    ensures
        !leading_at(prepended(line, arg, i), arg, j),
{
    let s = prepended(line, arg, i);
    let n1 = i + 8;
    let m = arg.len() as int;
    lemma_prepended_chars(line, arg, i);
    if leading_at(s, arg, j) {
        let q = j + 8;
        lemma_occurs_concat(s, arg, seq![','], q);
        if q + m <= n1 {
            lemma_occurs_moved(s, line, arg, q, 0);
            assert(false);
        } else {
            lemma_occurs_char(s, seq![','], q + m, q + m);
            assert(s[q + m] == ',');
            assert(s[q + m] == arg[q + m - n1]);
            // The name holds a comma, so it holds no blank, and after a
            // flag before the first one with a value stands a blank.
            assert(line.subrange(j + 1, j + 7) =~= s.subrange(j + 1, j + 7));
            assert(with_flag_at(line, j));
            assert(!with_value_pred(line)(j));
            assert(is_blank(line[q]));
            lemma_occurs_char(s, arg, q, q);
            assert(false);
        }
    }
}

/// A line whose first `--with` flag with a value got the name and a comma
/// in front of that value loses exactly that when the name is dropped.
proof fn lemma_drop_prepended(line: Seq<char>, arg: Seq<char>, i: int)
    requires
        !contains(line, arg),
        lacks(arg, ' '),
        lacks(arg, ',') || lacks(arg, '\t'),
        with_value_at(line, i),
        forall|j: int| 0 <= j < i ==> !#[trigger] with_value_pred(line)(j),
    ensures
        drop_with(prepended(line, arg, i), arg) == line,
{
    let s = prepended(line, arg, i);
    let n1 = i + 8;
    let m = arg.len() as int;
    lemma_prepended_chars(line, arg, i);
    assert(contains(s, arg));
    assert forall|j: int| 0 <= j < s.len() implies !#[trigger] sole_pred(s, arg)(j) by {
        lemma_no_sole_prepended(line, arg, i, j);
    }
    lemma_first_index_none(sole_pred(s, arg), 0, s.len() as int);
    assert(drop_sole(s, arg) == s);
    lemma_occurs_concat(s, arg, seq![','], n1);
    assert(occurs_at(s, seq![','], n1 + m)) by {
        assert(s.subrange(n1 + m, n1 + m + 1) =~= seq![',']);
    }
    assert(leading_at(s, arg, i));
    assert forall|j: int| 0 <= j < i implies !#[trigger] leading_pred(s, arg)(j) by {
        lemma_no_earlier_leading(line, arg, i, j);
    }
    lemma_first_index_is(leading_pred(s, arg), 0, s.len() as int, i);
    assert(drop_leading(s, arg) =~= line);
    lemma_nothing_to_drop(line, arg);
}

/// Dropping a name that was just added gives the line back, whether the
/// line had no `--with` flag or one joined to its value by `=` or by a
/// space.
///
/// This holds for a line that does not hold the name already, and a name
/// without a space in it that does not hold both a comma and a tab.
pub proof fn lemma_drop_with_after_add_with(line: Seq<char>, arg: Seq<char>)
    requires
        !contains(line, arg),
        lacks(arg, ' '),
        lacks(arg, ',') || lacks(arg, '\t'),
    ensures
        drop_with(add_with(line, arg), arg) == line,
{
    match first_index(with_value_pred(line), 0, line.len() as int) {
        Some(i) => {
            lemma_first_index(with_value_pred(line), 0, line.len() as int);
            lemma_drop_prepended(line, arg, i);
        },
        None => {
            lemma_drop_appended(line, arg);
        },
    }
}

/// The name stands in the line at `at` and nowhere else.
pub open spec fn stands_only_at(line: Seq<char>, arg: Seq<char>, at: int) -> bool {
    &&& arg.len() > 0
    &&& occurs_at(line, arg, at)
    &&& forall|q: int| #[trigger] occurs_at(line, arg, q) ==> q == at
}

/// The line without what it holds from `a` up to, not including, `b`.
pub open spec fn without(line: Seq<char>, a: int, b: int) -> Seq<char> {
    line.subrange(0, a) + line.subrange(b, line.len() as int)
}

/// A name that stands nowhere but after a comma is neither the only name
/// of a flag nor its first one: a comma joins no flag to its value.
proof fn lemma_behind_a_comma(line: Seq<char>, arg: Seq<char>, c: int)
    requires
        stands_only_at(line, arg, c + 1),
        0 <= c,
        line[c] == ',',
    ensures
        drop_sole(line, arg) == line,
        drop_leading(line, arg) == line,
{
    let n = line.len() as int;
    assert forall|j: int| 0 <= j < n implies !#[trigger] sole_pred(line, arg)(j) by {
        if sole_at(line, arg, j) {
            assert(occurs_at(line, arg, j + 8));
        }
    }
    lemma_first_index_none(sole_pred(line, arg), 0, n);
    assert forall|j: int| 0 <= j < n implies !#[trigger] leading_pred(line, arg)(j) by {
        if leading_at(line, arg, j) {
            lemma_occurs_concat(line, arg, seq![','], j + 8);
            assert(occurs_at(line, arg, j + 8));
        }
    }
    lemma_first_index_none(leading_pred(line, arg), 0, n);
}

/// Dropping the only name of a flag takes the flag out of the line.
///
/// This holds where the name stands in the line once, after the flag at
/// `i`, and the line ends behind it or goes on with a space and, up to its
/// end, without a line feed; and where the line without the flag does not
/// hold the name anew.
pub proof fn lemma_drop_only_name(line: Seq<char>, arg: Seq<char>, i: int)
    requires
        with_flag_at(line, i),
        stands_only_at(line, arg, i + 8),
        i + 8 + arg.len() == line.len() || (i + 8 + arg.len() + 1 < line.len() && line[i + 8
            + arg.len()] == ' ' && no_newline(line, i + 8 + arg.len() + 1, line.len() as int)),
        !contains(without(line, i, i + 8 + arg.len()), arg),
    ensures
        drop_with(line, arg) == without(line, i, i + 8 + arg.len()),
{
    let n = line.len() as int;
    assert(sole_at(line, arg, i));
    assert forall|j: int| 0 <= j < i implies !#[trigger] sole_pred(line, arg)(j) by {
        if sole_at(line, arg, j) {
            assert(occurs_at(line, arg, j + 8));
        }
    }
    lemma_first_index_is(sole_pred(line, arg), 0, n, i);
    lemma_nothing_to_drop(without(line, i, i + 8 + arg.len()), arg);
}

/// Dropping the first name of a flag takes the name and the comma behind
/// it out of the line.
///
/// This holds where the name stands in the line once, after the flag at
/// `i` and before a comma, and where the line without the name and that
/// comma does not hold the name anew.
pub proof fn lemma_drop_first_name(line: Seq<char>, arg: Seq<char>, i: int)
    requires
        with_flag_at(line, i),
        stands_only_at(line, arg, i + 8),
        i + 8 + arg.len() < line.len(),
        line[i + 8 + arg.len()] == ',',
        !contains(without(line, i + 8, i + 9 + arg.len()), arg),
    ensures
        drop_with(line, arg) == without(line, i + 8, i + 9 + arg.len()),
{
    let n = line.len() as int;
    let m = arg.len() as int;
    assert forall|j: int| 0 <= j < n implies !#[trigger] sole_pred(line, arg)(j) by {
        if sole_at(line, arg, j) {
            assert(occurs_at(line, arg, j + 8));
        }
    }
    lemma_first_index_none(sole_pred(line, arg), 0, n);
    lemma_occurs_one(line, ',', i + 8 + m);
    lemma_occurs_concat(line, arg, seq![','], i + 8);
    assert(leading_at(line, arg, i));
    assert forall|j: int| 0 <= j < i implies !#[trigger] leading_pred(line, arg)(j) by {
        if leading_at(line, arg, j) {
            lemma_occurs_concat(line, arg, seq![','], j + 8);
            assert(occurs_at(line, arg, j + 8));
        }
    }
    lemma_first_index_is(leading_pred(line, arg), 0, n, i);
    lemma_nothing_to_drop(without(line, i + 8, i + 9 + m), arg);
}

/// Dropping a name from the middle of the list of a flag takes the name
/// and the comma before it out of the line.
///
/// This holds where the name stands in the line once, behind the comma at
/// `c` and before a space or a comma; where the flag at `i` stands before
/// that comma, with at least one character and no line feed between them;
/// and where the line without the comma and the name does not hold the
/// name anew.
pub proof fn lemma_drop_middle_name(line: Seq<char>, arg: Seq<char>, i: int, c: int)
    requires
        with_flag_at(line, i),
        i + 8 < c,
        no_newline(line, i + 8, c),
        line[c] == ',',
        stands_only_at(line, arg, c + 1),
        c + 1 + arg.len() < line.len(),
        line[c + 1 + arg.len()] == ' ' || line[c + 1 + arg.len()] == ',',
        !contains(without(line, c, c + 1 + arg.len()), arg),
    ensures
        drop_with(line, arg) == without(line, c, c + 1 + arg.len()),
{
    let n = line.len() as int;
    lemma_behind_a_comma(line, arg, c);
    assert(inner_at(line, arg, i, c));
    lemma_last_inner(line, arg, i, n);
    assert(inner_pred(line, arg)(i));
    lemma_first_index(inner_pred(line, arg), 0, n);
    let first = first_index(inner_pred(line, arg), 0, n).unwrap();
    lemma_last_inner(line, arg, first, n);
    let last = last_inner(line, arg, first, n).unwrap();
    assert(occurs_at(line, arg, last + 1));
    assert(last == c);
    lemma_nothing_to_drop(without(line, c, c + 1 + arg.len()), arg);
}

/// Dropping the last name of the list of a flag that ends the line takes
/// the name and the comma before it off the line.
///
/// This holds where the name stands in the line once, behind the comma at
/// `c` and at the end of the line, and where the flag at `i` stands before
/// that comma, with at least one character and no line feed between them.
pub proof fn lemma_drop_last_name(line: Seq<char>, arg: Seq<char>, i: int, c: int)
    requires
        with_flag_at(line, i),
        i + 8 < c,
        no_newline(line, i + 8, c),
        line[c] == ',',
        stands_only_at(line, arg, c + 1),
        c + 1 + arg.len() == line.len(),
    ensures
        drop_with(line, arg) == line.subrange(0, c),
{
    let n = line.len() as int;
    lemma_behind_a_comma(line, arg, c);
    assert forall|j: int| 0 <= j < n implies !#[trigger] inner_pred(line, arg)(j) by {
        lemma_last_inner(line, arg, j, n);
        match last_inner(line, arg, j, n) {
            Some(k) => {
                assert(occurs_at(line, arg, k + 1));
            },
            None => {},
        }
    }
    lemma_first_index_none(inner_pred(line, arg), 0, n);
    assert(trailing_pred(line, arg)(i));
    lemma_first_index(trailing_pred(line, arg), 0, n);
    assert(contains(line, arg));
    assert(drop_trailing(line, arg) == line.subrange(0, c));
}

/// Dropping a name twice is the same as dropping it once, where the
/// first time left no place at which the name stands. It is not where one
/// is left: a name that is listed twice is dropped once each time.
pub proof fn lemma_drop_with_twice(line: Seq<char>, arg: Seq<char>)
    requires
        !contains(drop_with(line, arg), arg),
    ensures
        drop_with(drop_with(line, arg), arg) == drop_with(line, arg),
{
}

/// Dropping a flag twice is the same as dropping it once, where the first
/// time left no place at which the flag stands.
pub proof fn lemma_drop_argument_twice(line: Seq<char>, arg: Seq<char>)
    requires
        !contains(drop_argument(line, arg), arg),
    ensures
        drop_argument(drop_argument(line, arg), arg) == drop_argument(line, arg),
{
}

/// Replacing a flag twice is the same as replacing it once, where the
/// first time left no place at which the old flag stands.
pub proof fn lemma_replace_argument_twice(line: Seq<char>, old: Seq<char>, new: Seq<char>)
    requires
        !contains(replace_argument(line, old, new), old),
    ensures
        replace_argument(replace_argument(line, old, new), old, new) == replace_argument(
            line,
            old,
            new,
        ),
{
}

} // verus!
