//! The orders that keys are listed in, and the fact that a set has one
//! increasing listing.
use vstd::prelude::*;
use vstd::std_specs::cmp::OrdSpec;

use crate::primitives::{Id20Key, PeerKey};

verus! {

/// `lt` is a strict total order.
pub open spec fn strict_total_order<K>(lt: spec_fn(K, K) -> bool) -> bool {
    &&& forall|a: K| !#[trigger] lt(a, a)
    &&& forall|a: K, b: K, c: K| #[trigger] lt(a, b) && #[trigger] lt(b, c) ==> lt(a, c)
    &&& forall|a: K, b: K| a != b ==> #[trigger] lt(a, b) || lt(b, a)
}

/// Every element of `s` comes before the elements after it.
pub open spec fn strictly_increasing<K>(s: Seq<K>, lt: spec_fn(K, K) -> bool) -> bool {
    forall|i: int, j: int| 0 <= i < j < s.len() ==> #[trigger] lt(s[i], s[j])
}

/// The elements of `d` listed in increasing order.
pub open spec fn sorted_listing<K>(d: Set<K>, lt: spec_fn(K, K) -> bool) -> Seq<K> {
    choose|s: Seq<K>| strictly_increasing(s, lt) && s.to_set() == d
}

/// Lexicographic order on the keys of peer addresses.
pub open spec fn peer_key_lt(a: PeerKey, b: PeerKey) -> bool {
    a.0 < b.0 || (a.0 == b.0 && (a.1 < b.1 || (a.1 == b.1 && (a.2 < b.2 || (a.2 == b.2 && (a.3 < b.3 || (a.3
        == b.3 && a.4 < b.4)))))))
}

/// Lexicographic order on 20-byte identifiers.
pub open spec fn id20_key_lt(a: Id20Key, b: Id20Key) -> bool {
    a.0 < b.0 || (a.0 == b.0 && (a.1 < b.1 || (a.1 == b.1 && a.2 < b.2)))
}

/// `peer_key_lt` as a function value.
pub open spec fn peer_key_order() -> spec_fn(PeerKey, PeerKey) -> bool {
    |a: PeerKey, b: PeerKey| peer_key_lt(a, b)
}

/// `id20_key_lt` as a function value.
pub open spec fn id20_key_order() -> spec_fn(Id20Key, Id20Key) -> bool {
    |a: Id20Key, b: Id20Key| id20_key_lt(a, b)
}

/// The order on peer keys is a strict total order.
pub proof fn lemma_peer_key_order_total()
    ensures
        strict_total_order(peer_key_order()),
{
}

/// The order on identifiers is a strict total order.
pub proof fn lemma_id20_key_order_total()
    ensures
        strict_total_order(id20_key_order()),
{
}

/// The standard library's order on peer keys is `peer_key_lt`.
pub proof fn lemma_peer_key_std_order(a: PeerKey, b: PeerKey)
    ensures
        (a.cmp_spec(&b) is Less) == peer_key_lt(a, b),
{
}

/// The standard library's order on identifier keys is `id20_key_lt`.
pub proof fn lemma_id20_key_std_order(a: Id20Key, b: Id20Key)
    ensures
        (a.cmp_spec(&b) is Less) == id20_key_lt(a, b),
{
}

/// A strictly increasing sequence holds no element twice.
pub proof fn lemma_increasing_no_duplicates<K>(s: Seq<K>, lt: spec_fn(K, K) -> bool)
    requires
        strict_total_order(lt),
        strictly_increasing(s, lt),
    ensures
        s.no_duplicates(),
{
    assert forall|i: int, j: int| 0 <= i < s.len() && 0 <= j < s.len() && i != j implies s[i]
        != s[j] by {
        if i < j {
            assert(lt(s[i], s[j]));
        } else {
            assert(lt(s[j], s[i]));
        }
    }
}

/// Two increasing listings of one set are the same sequence.
pub proof fn lemma_increasing_unique<K>(s1: Seq<K>, s2: Seq<K>, lt: spec_fn(K, K) -> bool)
    requires
        strict_total_order(lt),
        strictly_increasing(s1, lt),
        strictly_increasing(s2, lt),
        s1.to_set() == s2.to_set(),
    ensures
        s1 == s2,
    decreases s1.len(),
{
    if s1.len() == 0 {
        if s2.len() > 0 {
            assert(s2.to_set().contains(s2[0]));
        }
        assert(s1 =~= s2);
    } else if s2.len() == 0 {
        assert(s1.to_set().contains(s1[0]));
    } else {
        assert(s1.to_set().contains(s1[0]));
        assert(s2.to_set().contains(s2[0]));
        let j = choose|j: int| 0 <= j < s2.len() && s2[j] == s1[0];
        let i = choose|i: int| 0 <= i < s1.len() && s1[i] == s2[0];
        if j > 0 {
            assert(lt(s2[0], s2[j]));
            if i > 0 {
                assert(lt(s1[0], s1[i]));
            }
            assert(false);
        }
        assert(s1[0] == s2[0]);
        let t1 = s1.drop_first();
        let t2 = s2.drop_first();
        lemma_increasing_no_duplicates(s1, lt);
        lemma_increasing_no_duplicates(s2, lt);
        assert(strictly_increasing(t1, lt)) by {
            assert forall|a: int, b: int| 0 <= a < b < t1.len() implies #[trigger] lt(t1[a], t1[b]) by {
                assert(lt(s1[a + 1], s1[b + 1]));
            }
        }
        assert(strictly_increasing(t2, lt)) by {
            assert forall|a: int, b: int| 0 <= a < b < t2.len() implies #[trigger] lt(t2[a], t2[b]) by {
                assert(lt(s2[a + 1], s2[b + 1]));
            }
        }
        assert(t1.to_set() =~= s1.to_set().remove(s1[0])) by {
            assert forall|x: K| #[trigger] t1.to_set().contains(x) implies s1.to_set().remove(
                s1[0],
            ).contains(x) by {
                let k = choose|k: int| 0 <= k < t1.len() && t1[k] == x;
                assert(s1[k + 1] == x);
            }
            assert forall|x: K| #[trigger] s1.to_set().remove(s1[0]).contains(x) implies t1.to_set().contains(x) by {
                let k = choose|k: int| 0 <= k < s1.len() && s1[k] == x;
                assert(k != 0);
                assert(t1[k - 1] == x);
            }
        }
        assert(t2.to_set() =~= s2.to_set().remove(s2[0])) by {
            assert forall|x: K| #[trigger] t2.to_set().contains(x) implies s2.to_set().remove(
                s2[0],
            ).contains(x) by {
                let k = choose|k: int| 0 <= k < t2.len() && t2[k] == x;
                assert(s2[k + 1] == x);
            }
            assert forall|x: K| #[trigger] s2.to_set().remove(s2[0]).contains(x) implies t2.to_set().contains(x) by {
                let k = choose|k: int| 0 <= k < s2.len() && s2[k] == x;
                assert(k != 0);
                assert(t2[k - 1] == x);
            }
        }
        lemma_increasing_unique(t1, t2, lt);
        assert(s1 =~= s2) by {
            assert forall|k: int| 0 <= k < s1.len() implies s1[k] == s2[k] by {
                if k > 0 {
                    assert(t1[k - 1] == t2[k - 1]);
                }
            }
        }
    }
}

/// An increasing listing of `d` is the sorted listing of `d`.
pub proof fn lemma_sorted_listing<K>(s: Seq<K>, d: Set<K>, lt: spec_fn(K, K) -> bool)
    requires
        strict_total_order(lt),
        strictly_increasing(s, lt),
        s.to_set() == d,
    ensures
        sorted_listing(d, lt) == s,
{
    let t = sorted_listing(d, lt);
    assert(strictly_increasing(t, lt) && t.to_set() == d);
    lemma_increasing_unique(t, s, lt);
}

/// A finite non-empty set has a least element.
pub proof fn lemma_least_exists<K>(d: Set<K>, lt: spec_fn(K, K) -> bool) -> (m: K)
    requires
        strict_total_order(lt),
        d.finite(),
        d.len() > 0,
    ensures
        d.contains(m),
        forall|y: K| #[trigger] d.contains(y) && y != m ==> lt(m, y),
    decreases d.len(),
{
    let x = d.choose();
    let rest = d.remove(x);
    if rest.len() == 0 {
        assert forall|y: K| #[trigger] d.contains(y) && y != x implies lt(x, y) by {
            assert(rest.contains(y));
        }
        x
    } else {
        let m0 = lemma_least_exists(rest, lt);
        if lt(x, m0) {
            assert forall|y: K| #[trigger] d.contains(y) && y != x implies lt(x, y) by {
                if y != m0 {
                    assert(rest.contains(y));
                    assert(lt(m0, y));
                }
            }
            x
        } else {
            assert(lt(m0, x));
            assert forall|y: K| #[trigger] d.contains(y) && y != m0 implies lt(m0, y) by {
                if y != x {
                    assert(rest.contains(y));
                }
            }
            m0
        }
    }
}

/// A finite set has an increasing listing, so its sorted listing is one.
pub proof fn lemma_sorted_listing_exists<K>(d: Set<K>, lt: spec_fn(K, K) -> bool)
    requires
        strict_total_order(lt),
        d.finite(),
    ensures
        strictly_increasing(sorted_listing(d, lt), lt),
        sorted_listing(d, lt).to_set() == d,
        sorted_listing(d, lt).no_duplicates(),
        sorted_listing(d, lt).len() == d.len(),
    decreases d.len(),
{
    if d.len() == 0 {
        let e = Seq::<K>::empty();
        assert(e.to_set() =~= d);
        assert(strictly_increasing(e, lt));
    } else {
        let m = lemma_least_exists(d, lt);
        let rest = d.remove(m);
        lemma_sorted_listing_exists(rest, lt);
        let s0 = sorted_listing(rest, lt);
        let s = seq![m] + s0;
        assert(strictly_increasing(s, lt)) by {
            assert forall|i: int, j: int| 0 <= i < j < s.len() implies #[trigger] lt(s[i], s[j]) by {
                if i == 0 {
                    assert(s[j] == s0[j - 1]);
                    assert(s0.to_set().contains(s0[j - 1]));
                } else {
                    assert(s[i] == s0[i - 1] && s[j] == s0[j - 1]);
                }
            }
        }
        assert(s.to_set() =~= d) by {
            assert forall|y: K| #[trigger] s.to_set().contains(y) implies d.contains(y) by {
                let i = choose|i: int| 0 <= i < s.len() && s[i] == y;
                if i > 0 {
                    assert(s0[i - 1] == y);
                    assert(s0.to_set().contains(y));
                }
            }
            assert forall|y: K| #[trigger] d.contains(y) implies s.to_set().contains(y) by {
                if y != m {
                    assert(s0.to_set().contains(y));
                    let i = choose|i: int| 0 <= i < s0.len() && s0[i] == y;
                    assert(s[i + 1] == y);
                } else {
                    assert(s[0] == y);
                }
            }
        }
        lemma_sorted_listing(s, d, lt);
    }
    let t = sorted_listing(d, lt);
    lemma_increasing_no_duplicates(t, lt);
    t.unique_seq_to_set();
}

} // verus!
