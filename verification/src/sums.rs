//! Sums and concatenations over the torrents of a table, taken in key order.
use vstd::prelude::*;

use crate::primitives::Id20Key;

verus! {

/// The sum of `f` over the values of `m` at `keys`.
pub open spec fn sum_by<V>(keys: Seq<Id20Key>, m: Map<Id20Key, V>, f: spec_fn(V) -> nat) -> nat
    decreases keys.len(),
{
    if keys.len() == 0 {
        0
    } else {
        sum_by(keys.drop_last(), m, f) + f(m[keys.last()])
    }
}

/// The number of values of `m` at `keys` that satisfy `pred`.
pub open spec fn count_by<V>(keys: Seq<Id20Key>, m: Map<Id20Key, V>, pred: spec_fn(V) -> bool) -> nat
    decreases keys.len(),
{
    if keys.len() == 0 {
        0
    } else {
        count_by(keys.drop_last(), m, pred) + if pred(m[keys.last()]) {
            1nat
        } else {
            0nat
        }
    }
}

/// The concatenation of `f` over the keys and values of `m` at `keys`.
pub open spec fn concat_by<V, T>(keys: Seq<Id20Key>, m: Map<Id20Key, V>, f: spec_fn(Id20Key, V) -> Seq<T>) -> Seq<T>
    decreases keys.len(),
{
    if keys.len() == 0 {
        Seq::empty()
    } else {
        concat_by(keys.drop_last(), m, f) + f(keys.last(), m[keys.last()])
    }
}

/// Extending the keys by one adds the value at the new key.
pub proof fn lemma_sum_by_step<V>(keys: Seq<Id20Key>, m: Map<Id20Key, V>, f: spec_fn(V) -> nat, i: int)
    requires
        0 <= i < keys.len(),
    ensures
        sum_by(keys.take(i + 1), m, f) == sum_by(keys.take(i), m, f) + f(m[keys[i]]),
{
    assert(keys.take(i + 1).drop_last() =~= keys.take(i));
}

/// Extending the keys by one counts the value at the new key.
pub proof fn lemma_count_by_step<V>(keys: Seq<Id20Key>, m: Map<Id20Key, V>, pred: spec_fn(V) -> bool, i: int)
    requires
        0 <= i < keys.len(),
    ensures
        count_by(keys.take(i + 1), m, pred) == count_by(keys.take(i), m, pred) + if pred(m[keys[i]]) {
            1nat
        } else {
            0nat
        },
{
    assert(keys.take(i + 1).drop_last() =~= keys.take(i));
}

/// Extending the keys by one appends the sequence of the value at the new key.
pub proof fn lemma_concat_by_step<V, T>(
    keys: Seq<Id20Key>,
    m: Map<Id20Key, V>,
    f: spec_fn(Id20Key, V) -> Seq<T>,
    i: int,
)
    requires
        0 <= i < keys.len(),
    ensures
        concat_by(keys.take(i + 1), m, f) == concat_by(keys.take(i), m, f) + f(keys[i], m[keys[i]]),
{
    assert(keys.take(i + 1).drop_last() =~= keys.take(i));
}

/// A sum over a prefix of the keys is at most the sum over all of them.
pub proof fn lemma_sum_by_prefix_le<V>(keys: Seq<Id20Key>, m: Map<Id20Key, V>, f: spec_fn(V) -> nat, i: int)
    requires
        0 <= i <= keys.len(),
    ensures
        sum_by(keys.take(i), m, f) <= sum_by(keys, m, f),
    decreases keys.len() - i,
{
    if i < keys.len() {
        lemma_sum_by_step(keys, m, f, i);
        lemma_sum_by_prefix_le(keys, m, f, i + 1);
    } else {
        assert(keys.take(i) =~= keys);
    }
}

/// A sum of smaller values is smaller.
pub proof fn lemma_sum_by_mono<V>(keys: Seq<Id20Key>, m: Map<Id20Key, V>, f: spec_fn(V) -> nat, g: spec_fn(V) -> nat)
    requires
        forall|i: int| 0 <= i < keys.len() ==> #[trigger] f(m[keys[i]]) <= g(m[keys[i]]),
    ensures
        sum_by(keys, m, f) <= sum_by(keys, m, g),
    decreases keys.len(),
{
    if keys.len() > 0 {
        let init = keys.drop_last();
        assert forall|i: int| 0 <= i < init.len() implies #[trigger] f(m[init[i]]) <= g(m[init[i]]) by {
            assert(init[i] == keys[i]);
        }
        lemma_sum_by_mono(init, m, f, g);
        assert(f(m[keys[keys.len() - 1]]) <= g(m[keys[keys.len() - 1]]));
    }
}

/// A count is at most the number of keys.
pub proof fn lemma_count_by_le_len<V>(keys: Seq<Id20Key>, m: Map<Id20Key, V>, pred: spec_fn(V) -> bool)
    ensures
        count_by(keys, m, pred) <= keys.len(),
    decreases keys.len(),
{
    if keys.len() > 0 {
        lemma_count_by_le_len(keys.drop_last(), m, pred);
    }
}

/// A sum of values bounded by `b` is at most `b` times the number of keys.
pub proof fn lemma_sum_by_bounded<V>(keys: Seq<Id20Key>, m: Map<Id20Key, V>, f: spec_fn(V) -> nat, b: nat)
    requires
        forall|i: int| 0 <= i < keys.len() ==> #[trigger] f(m[keys[i]]) <= b,
    ensures
        sum_by(keys, m, f) <= keys.len() * b,
    decreases keys.len(),
{
    if keys.len() > 0 {
        let init = keys.drop_last();
        assert forall|i: int| 0 <= i < init.len() implies #[trigger] f(m[init[i]]) <= b by {
            assert(init[i] == keys[i]);
        }
        lemma_sum_by_bounded(init, m, f, b);
        assert(f(m[keys.last()]) <= b) by {
            assert(keys.last() == keys[keys.len() - 1]);
        }
        let n = keys.len();
        assert(sum_by(keys, m, f) <= n * b) by (nonlinear_arith)
            requires
                sum_by(keys, m, f) == sum_by(init, m, f) + f(m[keys.last()]),
                sum_by(init, m, f) <= (n - 1) * b,
                f(m[keys.last()]) <= b,
                n >= 1,
        ;
    }
}

/// A sum of two functions is the sum of their sums.
pub proof fn lemma_sum_by_add<V>(
    keys: Seq<Id20Key>,
    m: Map<Id20Key, V>,
    f: spec_fn(V) -> nat,
    g: spec_fn(V) -> nat,
    h: spec_fn(V) -> nat,
)
    requires
        forall|i: int| 0 <= i < keys.len() ==> #[trigger] h(m[keys[i]]) == f(m[keys[i]]) + g(m[keys[i]]),
    ensures
        sum_by(keys, m, h) == sum_by(keys, m, f) + sum_by(keys, m, g),
    decreases keys.len(),
{
    if keys.len() > 0 {
        let init = keys.drop_last();
        assert forall|i: int| 0 <= i < init.len() implies #[trigger] h(m[init[i]]) == f(m[init[i]]) + g(
            m[init[i]],
        ) by {
            assert(init[i] == keys[i]);
        }
        lemma_sum_by_add(init, m, f, g, h);
        assert(h(m[keys[keys.len() - 1]]) == f(m[keys[keys.len() - 1]]) + g(m[keys[keys.len() - 1]]));
    }
}

/// A sum is the sum without the key at `j` plus the value at that key.
pub proof fn lemma_sum_by_remove<V>(keys: Seq<Id20Key>, m: Map<Id20Key, V>, f: spec_fn(V) -> nat, j: int)
    requires
        0 <= j < keys.len(),
    ensures
        sum_by(keys, m, f) == sum_by(keys.remove(j), m, f) + f(m[keys[j]]),
    decreases keys.len(),
{
    if j == keys.len() - 1 {
        assert(keys.remove(j) =~= keys.drop_last());
    } else {
        let init = keys.drop_last();
        assert(keys.remove(j).drop_last() =~= init.remove(j));
        assert(keys.remove(j).last() == keys.last());
        lemma_sum_by_remove(init, m, f, j);
        assert(init[j] == keys[j]);
    }
}

/// A sum over keys without repetition does not depend on their order.
pub proof fn lemma_sum_by_permutation<V>(
    keys1: Seq<Id20Key>,
    keys2: Seq<Id20Key>,
    m: Map<Id20Key, V>,
    f: spec_fn(V) -> nat,
)
    requires
        keys1.no_duplicates(),
        keys2.no_duplicates(),
        keys1.to_set() == keys2.to_set(),
    ensures
        sum_by(keys1, m, f) == sum_by(keys2, m, f),
    decreases keys1.len(),
{
    if keys1.len() == 0 {
        if keys2.len() > 0 {
            assert(keys2.to_set().contains(keys2[0]));
        }
    } else {
        let x = keys1.last();
        assert(keys1.to_set().contains(x));
        let j = choose|j: int| 0 <= j < keys2.len() && keys2[j] == x;
        let rest1 = keys1.drop_last();
        let rest2 = keys2.remove(j);
        assert(rest1.to_set() =~= rest2.to_set()) by {
            assert forall|k: Id20Key| rest1.to_set().contains(k) implies rest2.to_set().contains(k) by {
                let i = choose|i: int| 0 <= i < rest1.len() && rest1[i] == k;
                assert(keys1[i] == k);
                assert(keys1.to_set().contains(k));
                let i2 = choose|i2: int| 0 <= i2 < keys2.len() && keys2[i2] == k;
                assert(i2 != j);
                if i2 < j {
                    assert(rest2[i2] == k);
                } else {
                    assert(rest2[i2 - 1] == k);
                }
            }
            assert forall|k: Id20Key| rest2.to_set().contains(k) implies rest1.to_set().contains(k) by {
                let i = choose|i: int| 0 <= i < rest2.len() && rest2[i] == k;
                let i2 = if i < j { i } else { i + 1 };
                assert(keys2[i2] == k);
                assert(i2 != j);
                assert(keys2.to_set().contains(k));
                let i1 = choose|i1: int| 0 <= i1 < keys1.len() && keys1[i1] == k;
                assert(i1 != keys1.len() - 1);
                assert(rest1[i1] == k);
            }
        }
        assert(rest2.no_duplicates()) by {
            assert forall|a: int, b: int| 0 <= a < rest2.len() && 0 <= b < rest2.len() && a != b implies rest2[a]
                != rest2[b] by {
                let a2 = if a < j { a } else { a + 1 };
                let b2 = if b < j { b } else { b + 1 };
                assert(rest2[a] == keys2[a2]);
                assert(rest2[b] == keys2[b2]);
            }
        }
        lemma_sum_by_permutation(rest1, rest2, m, f);
        lemma_sum_by_remove(keys2, m, f, j);
    }
}

/// A sum over two lists of keys put together is the sum of their sums.
pub proof fn lemma_sum_by_concat<V>(keys1: Seq<Id20Key>, keys2: Seq<Id20Key>, m: Map<Id20Key, V>, f: spec_fn(V) -> nat)
    ensures
        sum_by(keys1 + keys2, m, f) == sum_by(keys1, m, f) + sum_by(keys2, m, f),
    decreases keys2.len(),
{
    if keys2.len() == 0 {
        assert(keys1 + keys2 =~= keys1);
    } else {
        assert((keys1 + keys2).drop_last() =~= keys1 + keys2.drop_last());
        lemma_sum_by_concat(keys1, keys2.drop_last(), m, f);
    }
}

/// Sums over two maps that agree on the keys are the same.
pub proof fn lemma_sum_by_agree<V>(keys: Seq<Id20Key>, m1: Map<Id20Key, V>, m2: Map<Id20Key, V>, f: spec_fn(V) -> nat)
    requires
        forall|i: int| 0 <= i < keys.len() ==> m1[#[trigger] keys[i]] == m2[keys[i]],
    ensures
        sum_by(keys, m1, f) == sum_by(keys, m2, f),
    decreases keys.len(),
{
    if keys.len() > 0 {
        let init = keys.drop_last();
        assert forall|i: int| 0 <= i < init.len() implies m1[#[trigger] init[i]] == m2[init[i]] by {
            assert(init[i] == keys[i]);
        }
        lemma_sum_by_agree(init, m1, m2, f);
        assert(m1[keys[keys.len() - 1]] == m2[keys[keys.len() - 1]]);
    }
}

} // verus!
