//! What one edit made of a relations list.
//!
//! The functions that edit a list put one entry in or give one entry
//! another content. Whoever keeps the list in a file with its layout asks
//! here which of the two happened and where, and makes that one change to
//! the file.

use crate::relations::{Relations, RelationView};
use crate::text::{first_index, lemma_first_index, lemma_first_index_is, lemma_first_index_none};
use vstd::prelude::*;

verus! {

/// How a list differs from what it was before.
#[derive(Clone, Copy, Debug, PartialEq, Eq)]
pub enum Change {
    /// The list is what it was.
    Unchanged,
    /// The list has one entry more, at index `at`; the entries that were
    /// there keep their content and their order.
    Inserted { at: usize },
    /// The entry at index `at` has another content, and no other entry
    /// has.
    Replaced { at: usize },
    /// Anything else.
    Rewritten,
}

/// The predicate "the two lists differ at this index, or the second ends
/// before it".
pub open spec fn entry_differs(
    before: Seq<Seq<RelationView>>,
    after: Seq<Seq<RelationView>>,
) -> spec_fn(int) -> bool {
    |t: int| t >= after.len() || after[t] != before[t]
}

/// The first index at which `after` does not hold the entry that `before`
/// holds there, and the length of `before` where there is none.
pub open spec fn first_changed(
    before: Seq<Seq<RelationView>>,
    after: Seq<Seq<RelationView>>,
) -> int {
    match first_index(entry_differs(before, after), 0, before.len() as int) {
        Some(t) => t,
        None => before.len() as int,
    }
}

/// How `after` differs from `before`.
pub open spec fn change_of(
    before: Seq<Seq<RelationView>>,
    after: Seq<Seq<RelationView>>,
) -> Change {
    let d = first_changed(before, after);
    if after == before {
        Change::Unchanged
    } else if after.len() == before.len() + 1 && after == before.insert(d, after[d]) {
        Change::Inserted { at: d as usize }
    } else if after.len() == before.len() && after == before.update(d, after[d]) {
        Change::Replaced { at: d as usize }
    } else {
        Change::Rewritten
    }
}

fn first_changed_exec(before: &Relations, after: &Relations) -> (d: usize)
    ensures
        d == first_changed(before@, after@),
        d <= before@.len(),
        forall|t: int| 0 <= t < d ==> !#[trigger] entry_differs(before@, after@)(t),
        d < before@.len() ==> entry_differs(before@, after@)(d as int),
{
    let mut d: usize = 0;
    while d < before.entries.len()
        invariant
            d <= before.entries.len(),
            before@.len() == before.entries.len(),
            after@.len() == after.entries.len(),
            forall|t: int| 0 <= t < d ==> !#[trigger] entry_differs(before@, after@)(t),
        decreases before.entries.len() - d,
    {
        if d >= after.entries.len() || !before.entries[d].same_as(&after.entries[d]) {
            proof {
                assert(entry_differs(before@, after@)(d as int));
                lemma_first_index_is(
                    entry_differs(before@, after@),
                    0,
                    before@.len() as int,
                    d as int,
                );
            }
            return d;
        }
        d += 1;
    }
    proof {
        lemma_first_index_none(entry_differs(before@, after@), 0, before@.len() as int);
    }
    d
}

/// Whether `after` from index `j` on holds what `before` holds from index
/// `i` on.
fn same_from(before: &Relations, i: usize, after: &Relations, j: usize) -> (r: bool)
    requires
        i <= before@.len(),
        j <= after@.len(),
    ensures
        r == (before@.subrange(i as int, before@.len() as int) == after@.subrange(
            j as int,
            after@.len() as int,
        )),
{
    let n = before.entries.len();
    let m = after.entries.len();
    let ghost x = before@.subrange(i as int, n as int);
    let ghost y = after@.subrange(j as int, m as int);
    if n - i != m - j {
        proof {
            assert(x.len() != y.len());
        }
        return false;
    }
    let mut k: usize = 0;
    while k < n - i
        invariant
            k <= n - i,
            n - i == m - j,
            n == before@.len(),
            m == after@.len(),
            n == before.entries.len(),
            m == after.entries.len(),
            x == before@.subrange(i as int, n as int),
            y == after@.subrange(j as int, m as int),
            forall|t: int| 0 <= t < k ==> x[t] == y[t],
        decreases n - i - k,
    {
        if !before.entries[i + k].same_as(&after.entries[j + k]) {
            proof {
                assert(x[k as int] == before@[i + k]);
                assert(y[k as int] == after@[j + k]);
            }
            return false;
        }
        proof {
            assert(x[k as int] == before@[i + k]);
            assert(y[k as int] == after@[j + k]);
        }
        k += 1;
    }
    proof {
        assert(x =~= y);
    }
    true
}

/// Tells how a list differs from what it was before: not at all, by one
/// entry that was put in, by one entry that has another content, or in
/// some other way.
pub fn change_between(before: &Relations, after: &Relations) -> (r: Change)
    ensures
        r == change_of(before@, after@),
{
    let n = before.entries.len();
    let m = after.entries.len();
    let d = first_changed_exec(before, after);
    let ghost b = before@;
    let ghost a = after@;
    if m == n {
        if d == n {
            proof {
                assert forall|t: int| 0 <= t < n implies a[t] == b[t] by {
                    assert(!entry_differs(b, a)(t));
                }
                assert(a =~= b);
            }
            return Change::Unchanged;
        }
        let same = same_from(before, d + 1, after, d + 1);
        proof {
            let x = b.subrange(d + 1, n as int);
            let y = a.subrange(d + 1, m as int);
            if same {
                assert forall|t: int| 0 <= t < a.len() implies a[t] == b.update(
                    d as int,
                    a[d as int],
                )[t] by {
                    if t > d {
                        assert(x[t - d - 1] == b[t]);
                        assert(y[t - d - 1] == a[t]);
                    } else if t < d {
                        assert(!entry_differs(b, a)(t));
                    }
                }
                assert(a =~= b.update(d as int, a[d as int]));
            } else if a == b.update(d as int, a[d as int]) {
                assert(x =~= y);
            }
        }
        if same {
            Change::Replaced { at: d }
        } else {
            Change::Rewritten
        }
    } else if n < m && m - n == 1 {
        let same = same_from(before, d, after, d + 1);
        proof {
            let x = b.subrange(d as int, n as int);
            let y = a.subrange(d + 1, m as int);
            if same {
                assert forall|t: int| 0 <= t < a.len() implies a[t] == b.insert(
                    d as int,
                    a[d as int],
                )[t] by {
                    if t > d {
                        assert(x[t - d - 1] == b[t - 1]);
                        assert(y[t - d - 1] == a[t]);
                    } else if t < d {
                        assert(!entry_differs(b, a)(t));
                    }
                }
                assert(a =~= b.insert(d as int, a[d as int]));
            } else if a == b.insert(d as int, a[d as int]) {
                assert forall|t: int| 0 <= t < x.len() implies x[t] == y[t] by {
                    assert(b.insert(d as int, a[d as int])[d + 1 + t] == b[d + t]);
                }
                assert(x =~= y);
            }
        }
        if same {
            Change::Inserted { at: d }
        } else {
            Change::Rewritten
        }
    } else {
        Change::Rewritten
    }
}

/// Where a list with `e` put in at index `p` holds at every index from `p`
/// up to `d` what it held before, it held `e` at each of them.
proof fn lemma_run_of_equals(s: Seq<Seq<RelationView>>, e: Seq<RelationView>, p: int, d: int, t: int)
    requires
        0 <= p <= t < d <= s.len(),
        forall|k: int| p <= k < d ==> !#[trigger] entry_differs(s, s.insert(p, e))(k),
    ensures
        s[t] == e,
    decreases t - p,
{
    let a = s.insert(p, e);
    assert(!entry_differs(s, a)(t));
    if t == p {
        assert(a[p] == e);
    } else {
        lemma_run_of_equals(s, e, p, d, t - 1);
        assert(a[t] == s[t - 1]);
    }
}

/// A list that got one entry at index `p` differs from what it was by
/// that: an entry was put in, at `p` or, where the entries at `p` and after
/// it were the new one already, as far behind `p` as they go.
pub proof fn lemma_change_of_insert(s: Seq<Seq<RelationView>>, e: Seq<RelationView>, p: int)
    requires
        0 <= p <= s.len(),
        s.len() < usize::MAX,
    ensures
        change_of(s, s.insert(p, e)) matches Change::Inserted { at } && s.insert(p, e) == s.insert(
            at as int,
            e,
        ),
{
    let a = s.insert(p, e);
    let d = first_changed(s, a);
    lemma_first_index(entry_differs(s, a), 0, s.len() as int);
    assert(d >= p) by {
        if d < p {
            assert(entry_differs(s, a)(d));
            assert(a[d] == s[d]);
        }
    }
    assert forall|t: int| p <= t < d implies s[t] == e by {
        lemma_run_of_equals(s, e, p, d, t);
    }
    assert(a[d] == e) by {
        if d > p {
            assert(a[d] == s[d - 1]);
        }
    }
    assert(a =~= s.insert(d, e));
}

/// A list in which the entry at index `i` got another content differs from
/// what it was by that.
pub proof fn lemma_change_of_update(s: Seq<Seq<RelationView>>, e: Seq<RelationView>, i: int)
    requires
        0 <= i < s.len(),
        s[i] != e,
        s.len() <= usize::MAX,
    ensures
        change_of(s, s.update(i, e)) == (Change::Replaced { at: i as usize }),
{
    let a = s.update(i, e);
    assert forall|t: int| 0 <= t < i implies !#[trigger] entry_differs(s, a)(t) by {}
    assert(entry_differs(s, a)(i));
    lemma_first_index_is(entry_differs(s, a), 0, s.len() as int, i);
    assert(a =~= s.update(i, a[i]));
    assert(a[i] != s[i]);
}

} // verus!
