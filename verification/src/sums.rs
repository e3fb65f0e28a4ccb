//! Totals over finite maps.
use crate::table::{keys_differ, map_of, map_of_entries};
use vstd::prelude::*;

verus! {

/// The sum of `weight` over a finite map's values.
pub open spec fn total<K, V>(m: Map<K, V>, weight: spec_fn(V) -> nat) -> nat
    decreases m.len(),
{
    if m.dom().finite() && m.len() > 0 {
        let k = m.dom().choose();
        if m.dom().contains(k) {
            weight(m[k]) + total(m.remove(k), weight)
        } else {
            0
        }
    } else {
        0
    }
}

pub proof fn total_of_empty<K, V>(weight: spec_fn(V) -> nat)
    ensures
        total(Map::<K, V>::empty(), weight) == 0,
{
    assert(Map::<K, V>::empty().dom() =~= Set::empty());
}

/// Any one entry can be split off a total.
pub proof fn total_splits<K, V>(m: Map<K, V>, weight: spec_fn(V) -> nat, k: K)
    requires
        m.dom().finite(),
        m.contains_key(k),
    ensures
        total(m, weight) == weight(m[k]) + total(m.remove(k), weight),
    decreases m.len(),
{
    let c = m.dom().choose();
    assert(m.dom().len() > 0) by {
        if m.dom().len() == 0 {
            vstd::set_lib::lemma_set_empty_equivalency_len(m.dom());
        }
    }
    assert(m.dom().contains(c)) by {
        vstd::set_lib::lemma_set_empty_equivalency_len(m.dom());
    }
    if c != k {
        let mc = m.remove(c);
        let mk = m.remove(k);
        total_splits(mc, weight, k);
        total_splits(mk, weight, c);
        assert(mc.remove(k) =~= mk.remove(c));
    }
}

/// Writing an entry changes the total by the difference it makes.
pub proof fn total_after_insert<K, V>(m: Map<K, V>, weight: spec_fn(V) -> nat, k: K, v: V)
    requires
        m.dom().finite(),
    ensures
        total(m.insert(k, v), weight) == weight(v) + total(m.remove(k), weight),
        m.contains_key(k) ==> total(m, weight) == weight(m[k]) + total(m.remove(k), weight),
        m.contains_key(k) ==> total(m.insert(k, v), weight) + weight(m[k]) == total(m, weight)
            + weight(v),
        !m.contains_key(k) ==> total(m.insert(k, v), weight) == total(m, weight) + weight(v),
{
    total_splits(m.insert(k, v), weight, k);
    assert(m.insert(k, v).remove(k) =~= m.remove(k));
    if m.contains_key(k) {
        total_splits(m, weight, k);
    } else {
        assert(m.remove(k) =~= m);
    }
}

/// Every entry weighs at most the total.
pub proof fn total_bounds_entry<K, V>(m: Map<K, V>, weight: spec_fn(V) -> nat, k: K)
    requires
        m.dom().finite(),
        m.contains_key(k),
    ensures
        weight(m[k]) <= total(m, weight),
{
    total_splits(m, weight, k);
}

/// Two different entries together weigh at most the total.
pub proof fn total_bounds_two<K, V>(m: Map<K, V>, weight: spec_fn(V) -> nat, a: K, b: K)
    requires
        m.dom().finite(),
        m.contains_key(a),
        m.contains_key(b),
        a != b,
    ensures
        weight(m[a]) + weight(m[b]) <= total(m, weight),
{
    total_splits(m, weight, a);
    total_bounds_entry(m.remove(a), weight, b);
}

/// A smaller weight at every key gives a smaller total.
pub proof fn total_is_pointwise<K, V>(
    a: Map<K, V>,
    small: spec_fn(V) -> nat,
    b: Map<K, V>,
    large: spec_fn(V) -> nat,
)
    requires
        a.dom() == b.dom(),
        a.dom().finite(),
        forall|k: K| #[trigger] a.contains_key(k) ==> small(a[k]) <= large(b[k]),
    ensures
        total(a, small) <= total(b, large),
    decreases a.len(),
{
    if a.dom().len() > 0 {
        let c = a.dom().choose();
        assert(a.contains_key(c)) by {
            vstd::set_lib::lemma_set_empty_equivalency_len(a.dom());
        }
        total_splits(a, small, c);
        total_splits(b, large, c);
        assert(a.remove(c).dom() =~= b.remove(c).dom());
        assert forall|k: K| #[trigger] a.remove(c).contains_key(k) implies small(a.remove(c)[k])
            <= large(b.remove(c)[k]) by {
            assert(a.contains_key(k));
        }
        total_is_pointwise(a.remove(c), small, b.remove(c), large);
    }
}

/// A weight that is the sum of two gives the sum of their totals.
pub proof fn total_adds_up<K, V>(
    m: Map<K, V>,
    one: spec_fn(V) -> nat,
    other: spec_fn(V) -> nat,
    both: spec_fn(V) -> nat,
)
    requires
        m.dom().finite(),
        forall|v: V| #[trigger] both(v) == one(v) + other(v),
    ensures
        total(m, both) == total(m, one) + total(m, other),
    decreases m.len(),
{
    if m.dom().len() > 0 {
        let c = m.dom().choose();
        assert(m.contains_key(c)) by {
            vstd::set_lib::lemma_set_empty_equivalency_len(m.dom());
        }
        total_splits(m, one, c);
        total_splits(m, other, c);
        total_splits(m, both, c);
        total_adds_up(m.remove(c), one, other, both);
    }
}

/// A smaller weight at every entry gives a smaller total.
pub proof fn total_is_monotone<K, V>(
    m: Map<K, V>,
    small: spec_fn(V) -> nat,
    large: spec_fn(V) -> nat,
)
    requires
        m.dom().finite(),
        forall|k: K| m.contains_key(k) ==> small(#[trigger] m[k]) <= large(m[k]),
    ensures
        total(m, small) <= total(m, large),
    decreases m.len(),
{
    if m.len() > 0 {
        let c = m.dom().choose();
        assert(m.dom().contains(c)) by {
            vstd::set_lib::lemma_set_empty_equivalency_len(m.dom());
        }
        assert forall|k: K| m.remove(c).contains_key(k) implies small(#[trigger] m.remove(c)[k])
            <= large(m.remove(c)[k]) by {
            assert(m.contains_key(k));
            assert(m.remove(c)[k] == m[k]);
        }
        total_is_monotone(m.remove(c), small, large);
        total_splits(m, small, c);
        total_splits(m, large, c);
    }
}

/// The total grows entry by entry along a listing.
pub proof fn total_of_listing<K, V>(s: Seq<(K, V)>, weight: spec_fn(V) -> nat, i: int)
    requires
        keys_differ(s),
        0 <= i < s.len(),
    ensures
        total(map_of(s.take(i + 1)), weight) == total(map_of(s.take(i)), weight) + weight(s[i].1),
        total(map_of(s.take(i + 1)), weight) <= total(map_of(s), weight),
        map_of(s.take(i + 1)).dom().finite(),
    decreases s.len() - i,
{
    let t = s.take(i);
    let u = s.take(i + 1);
    assert(keys_differ(t)) by {
        assert forall|a: int, b: int| 0 <= a < t.len() && 0 <= b < t.len() && a != b implies
            #[trigger] t[a].0 != #[trigger] t[b].0 by {
            assert(s[a].0 != s[b].0);
        }
    }
    assert(keys_differ(u)) by {
        assert forall|a: int, b: int| 0 <= a < u.len() && 0 <= b < u.len() && a != b implies
            #[trigger] u[a].0 != #[trigger] u[b].0 by {
            assert(s[a].0 != s[b].0);
        }
    }
    map_of_entries(t);
    map_of_entries(u);
    assert(u.drop_last() =~= t);
    assert(u.last() == s[i]);
    assert(!map_of(t).contains_key(s[i].0)) by {
        if map_of(t).contains_key(s[i].0) {
            let j = choose|j: int| 0 <= j < t.len() && #[trigger] t[j].0 == s[i].0;
            assert(s[j].0 != s[i].0);
        }
    }
    total_after_insert(map_of(t), weight, s[i].0, s[i].1);
    if i + 1 < s.len() {
        total_of_listing(s, weight, i + 1);
    } else {
        assert(u =~= s);
    }
}

} // verus!
