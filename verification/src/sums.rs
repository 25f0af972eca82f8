//! Sums over tables, and numbers of the machine that stand for them.

use crate::string_map::{as_map, distinct_keys, has_key, key_index, lemma_entry};
use vstd::prelude::*;

verus! {

/// The sum of all values of a table.
pub open spec fn sum_of(m: Map<Seq<char>, nat>) -> nat
    decreases m.dom().len(),
    when m.dom().finite()
{
    if m.dom().len() == 0 {
        0
    } else {
        let k = m.dom().choose();
        m[k] + sum_of(m.remove(k))
    }
}

/// The sum splits at any key.
pub proof fn lemma_sum_remove(m: Map<Seq<char>, nat>, k: Seq<char>)
    requires
        m.dom().finite(),
        m.contains_key(k),
    ensures
        sum_of(m) == m[k] + sum_of(m.remove(k)),
    decreases m.dom().len(),
{
    let c = m.dom().choose();
    assert(m.dom().len() > 0) by {
        if m.dom().len() == 0 {
            assert(m.dom() =~= Set::<Seq<char>>::empty());
        }
    }
    assert(m.dom().contains(c));
    if c != k {
        lemma_sum_remove(m.remove(c), k);
        assert(m.remove(k).contains_key(c));
        lemma_sum_remove(m.remove(k), c);
        assert(m.remove(c).remove(k) =~= m.remove(k).remove(c));
    }
}

/// Setting a value adds it to the rest.
pub proof fn lemma_sum_insert(m: Map<Seq<char>, nat>, k: Seq<char>, v: nat)
    requires
        m.dom().finite(),
    ensures
        sum_of(m.insert(k, v)) == v + sum_of(m.remove(k)),
        !m.contains_key(k) ==> m.remove(k) == m,
{
    let n = m.insert(k, v);
    lemma_sum_remove(n, k);
    assert(n.remove(k) =~= m.remove(k));
    if !m.contains_key(k) {
        assert(m.remove(k) =~= m);
    }
}

/// The empty table has the sum 0.
pub proof fn lemma_sum_empty(m: Map<Seq<char>, nat>)
    requires
        m == Map::<Seq<char>, nat>::empty(),
    ensures
        sum_of(m) == 0,
{
    assert(m.dom() =~= Set::<Seq<char>>::empty());
}

/// Whether the machine number `a` stands for `b`: they differ by a multiple of the number of
/// machine numbers.
pub open spec fn stands_for(a: usize, b: int) -> bool {
    exists|k: int| #[trigger] turned(a, k) == b
}

/// `a` and `k` times the number of machine numbers.
pub open spec fn turned(a: usize, k: int) -> int {
    a + k * (usize::MAX + 1)
}

/// A number that the machine can hold is the one that stands for it.
pub proof fn lemma_stands_for_itself(a: usize, b: int)
    requires
        stands_for(a, b),
        0 <= b <= usize::MAX,
    ensures
        a == b,
{
    let k = choose|k: int| #[trigger] turned(a, k) == b;
    let m = usize::MAX + 1;
    if k >= 1 {
        assert(k * m >= m) by (nonlinear_arith)
            requires
                k >= 1,
                m > 0,
        ;
    } else if k <= -1 {
        assert(k * m <= -m) by (nonlinear_arith)
            requires
                k <= -1,
                m > 0,
        ;
    } else {
        assert(k * m == 0) by (nonlinear_arith)
            requires
                k == 0,
        ;
    }
}

/// A number stands for itself.
pub proof fn lemma_stands(a: usize)
    ensures
        stands_for(a, a as int),
{
    assert(0 * (usize::MAX + 1) == 0) by (nonlinear_arith);
    assert(turned(a, 0) == a as int);
}

/// `a` more by `plus` and less by `minus`, on the machine's numbers, which go round.
pub open spec fn shift(a: usize, plus: usize, minus: usize) -> usize {
    let up = if a + plus > usize::MAX {
        a + plus - (usize::MAX + 1)
    } else {
        a + plus
    };
    (if up < minus {
        up - minus + (usize::MAX + 1)
    } else {
        up - minus
    }) as usize
}

/// `a` more by `plus` and less by `minus`.
pub(crate) fn shifted(a: usize, plus: usize, minus: usize) -> (r: usize)
    ensures
        forall|b: int| stands_for(a, b) ==> #[trigger] stands_for(r, b + plus - minus),
        r == shift(a, plus, minus),
{
    let up: usize = a.wrapping_add(plus);
    let r: usize = up.wrapping_sub(minus);
    proof {
        let m = usize::MAX + 1;
        let i: int = if a + plus > usize::MAX {
            1
        } else {
            0
        };
        let j: int = if up - minus < 0 {
            1
        } else {
            0
        };
        assert(up == a + plus - i * m) by {
            assert(1 * m == m) by (nonlinear_arith);
            assert(0 * m == 0) by (nonlinear_arith);
        }
        assert(r == up - minus + j * m) by {
            assert(1 * m == m) by (nonlinear_arith);
            assert(0 * m == 0) by (nonlinear_arith);
        }
        assert forall|b: int| stands_for(a, b) implies #[trigger] stands_for(r, b + plus - minus) by {
            let k = choose|k: int| #[trigger] turned(a, k) == b;
            let t = k + i - j;
            assert(t * m == k * m + i * m - j * m) by (nonlinear_arith)
                requires
                    t == k + i - j,
            ;
            assert(turned(r, t) == b + plus - minus);
        }
    }
    r
}

/// The sum of the first `n` values of a list of rows.
pub open spec fn sum_to<V>(rows: Seq<(String, V)>, f: spec_fn(V) -> nat, n: int) -> nat
    decreases n,
{
    if n <= 0 {
        0
    } else {
        sum_to(rows, f, n - 1) + f(rows[n - 1].1)
    }
}

/// The sum over the rows is the sum over the table that they form.
pub proof fn lemma_sum_rows<V>(rows: Seq<(String, V)>, f: spec_fn(V) -> nat)
    requires
        distinct_keys(rows),
    ensures
        as_map(rows).map_values(f).dom().finite(),
        sum_of(as_map(rows).map_values(f)) == sum_to(rows, f, rows.len() as int),
    decreases rows.len(),
{
    let m = as_map(rows).map_values(f);
    crate::string_map::lemma_size(rows);
    assert(m.dom() =~= as_map(rows).dom());
    if rows.len() == 0 {
        assert(m =~= Map::<Seq<char>, nat>::empty()) by {
            assert forall|k: Seq<char>| !m.contains_key(k) by {
                if m.contains_key(k) {
                    assert(has_key(rows, k));
                }
            }
        }
        lemma_sum_empty(m);
    } else {
        let rest = rows.drop_last();
        let key = rows.last().0@;
        assert(distinct_keys(rest)) by {
            assert forall|i: int, j: int| 0 <= i < j < rest.len() implies (#[trigger] rest[i]).0@ != (#[trigger] rest[j]).0@ by {
                assert(rows[i].0@ != rows[j].0@);
            }
        }
        lemma_sum_rows(rest, f);
        lemma_entry(rows, rows.len() - 1);
        assert(m.contains_key(key));
        lemma_sum_remove(m, key);
        assert(m.remove(key) =~= as_map(rest).map_values(f)) by {
            assert forall|k: Seq<char>| m.remove(key).contains_key(k) <==> as_map(rest).map_values(f).contains_key(k) by {
                if has_key(rows, k) && k != key {
                    let i = key_index(rows, k);
                    assert(rest[i].0@ == k);
                }
                if has_key(rest, k) {
                    let i = key_index(rest, k);
                    assert(rows[i].0@ == k);
                    assert(rows[i].0@ != rows[rows.len() - 1].0@);
                }
            }
            assert forall|k: Seq<char>| m.remove(key).contains_key(k) implies m.remove(key)[k] == as_map(rest).map_values(f)[k] by {
                let i = key_index(rows, k);
                assert(rest[i].0@ == k);
                lemma_entry(rows, i);
                lemma_entry(rest, i);
            }
        }
        lemma_sum_prefix(rows, rest, f, rest.len() as int);
    }
}

proof fn lemma_sum_prefix<V>(a: Seq<(String, V)>, b: Seq<(String, V)>, f: spec_fn(V) -> nat, n: int)
    requires
        n <= a.len(),
        n <= b.len(),
        forall|i: int| 0 <= i < n ==> a[i] == b[i],
    ensures
        sum_to(a, f, n) == sum_to(b, f, n),
    decreases n,
{
    if n > 0 {
        lemma_sum_prefix(a, b, f, n - 1);
    }
}

} // verus!
