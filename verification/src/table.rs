//! Maps and sets kept as sorted vectors, so that walking one always gives the
//! same order whatever order its entries arrived in.
use crate::order::{Key, Rank};
use vstd::prelude::*;

verus! {

/// The map that a sequence of key-value pairs spells out; a later pair
/// overrides an earlier one with the same key.
pub open spec fn map_of<K, V>(s: Seq<(K, V)>) -> Map<K, V>
    decreases s.len(),
{
    if s.len() == 0 {
        Map::empty()
    } else {
        map_of(s.drop_last()).insert(s.last().0, s.last().1)
    }
}

/// No two pairs have the same key.
pub open spec fn keys_differ<K, V>(s: Seq<(K, V)>) -> bool {
    forall|i: int, j: int|
        0 <= i < s.len() && 0 <= j < s.len() && i != j ==> #[trigger] s[i].0 != #[trigger] s[j].0
}

/// The keys ascend strictly.
pub open spec fn keys_ascend<K: Key, W>(s: Seq<(K::V, W)>) -> bool {
    forall|i: int, j: int|
        0 <= i < j < s.len() ==> K::precedes(#[trigger] s[i].0, #[trigger] s[j].0)
}

pub proof fn ascending_keys_differ<K: Key, W>(s: Seq<(K::V, W)>)
    requires
        keys_ascend::<K, W>(s),
    ensures
        keys_differ(s),
{
    assert forall|i: int, j: int| 0 <= i < s.len() && 0 <= j < s.len() && i != j implies
        #[trigger] s[i].0 != #[trigger] s[j].0 by {
        K::order_is_irreflexive(s[i].0);
        if i < j {
            assert(K::precedes(s[i].0, s[j].0));
        } else {
            assert(K::precedes(s[j].0, s[i].0));
        }
    }
}

/// What `map_of` holds, entry by entry.
pub proof fn map_of_entries<K, V>(s: Seq<(K, V)>)
    requires
        keys_differ(s),
    ensures
        map_of(s).dom().finite(),
        map_of(s).len() == s.len(),
        forall|k: K| #[trigger]
            map_of(s).contains_key(k) <==> exists|i: int| 0 <= i < s.len() && #[trigger] s[i].0 == k,
        forall|i: int| 0 <= i < s.len() ==> map_of(s).contains_key((#[trigger] s[i]).0),
        forall|i: int| 0 <= i < s.len() ==> map_of(s)[(#[trigger] s[i]).0] == s[i].1,
    decreases s.len(),
{
    if s.len() > 0 {
        let front = s.drop_last();
        let n = front.len() as int;
        assert forall|i: int, j: int| 0 <= i < n && 0 <= j < n && i != j implies
            #[trigger] front[i].0 != #[trigger] front[j].0 by {
            assert(front[i] == s[i] && front[j] == s[j]);
        }
        map_of_entries(front);
        assert(!map_of(front).contains_key(s[n].0)) by {
            if map_of(front).contains_key(s[n].0) {
                let i = choose|i: int| 0 <= i < n && #[trigger] front[i].0 == s[n].0;
                assert(s[i].0 == s[n].0);
            }
        }
        assert forall|k: K| #[trigger] map_of(s).contains_key(k) implies exists|i: int|
            0 <= i < s.len() && #[trigger] s[i].0 == k by {
            if k == s[n].0 {
                assert(s[n].0 == k);
            } else {
                assert(map_of(front).contains_key(k));
                let i = choose|i: int| 0 <= i < n && #[trigger] front[i].0 == k;
                assert(s[i].0 == k);
            }
        }
        assert forall|i: int| 0 <= i < s.len() implies map_of(s).contains_key((#[trigger] s[i]).0)
            && map_of(s)[s[i].0] == s[i].1 by {
            if i < n {
                assert(front[i] == s[i]);
                assert(map_of(front).contains_key(front[i].0));
                assert(s[i].0 != s[n].0);
            }
        }
    }
}

/// Two ascending sequences that spell out the same map are the same sequence.
pub proof fn ascending_listing_is_unique<K: Key, W>(a: Seq<(K::V, W)>, b: Seq<(K::V, W)>)
    requires
        keys_ascend::<K, W>(a),
        keys_ascend::<K, W>(b),
        map_of(a) == map_of(b),
    ensures
        a == b,
    decreases a.len(),
{
    ascending_keys_differ::<K, W>(a);
    ascending_keys_differ::<K, W>(b);
    map_of_entries(a);
    map_of_entries(b);
    if a.len() == 0 {
        assert(a =~= b);
    } else {
        let n = a.len() - 1;
        assert(map_of(b).contains_key(a[n].0));
        let i = choose|i: int| 0 <= i < b.len() && #[trigger] b[i].0 == a[n].0;
        assert(map_of(a).contains_key(b[n].0));
        let j = choose|j: int| 0 <= j < a.len() && #[trigger] a[j].0 == b[n].0;
        if i < n {
            assert(K::precedes(b[i].0, b[n].0));
            if j < n {
                assert(K::precedes(a[j].0, a[n].0));
                K::order_is_transitive(a[n].0, b[n].0, a[n].0);
            }
            K::order_is_irreflexive(a[n].0);
        }
        assert(a[n].0 == b[n].0);
        assert(a[n].1 == b[n].1);
        let af = a.drop_last();
        let bf = b.drop_last();
        assert(keys_ascend::<K, W>(af)) by {
            assert forall|i: int, j: int| 0 <= i < j < af.len() implies K::precedes(
                #[trigger] af[i].0,
                #[trigger] af[j].0,
            ) by {
                assert(K::precedes(a[i].0, a[j].0));
            }
        }
        assert(keys_ascend::<K, W>(bf)) by {
            assert forall|i: int, j: int| 0 <= i < j < bf.len() implies K::precedes(
                #[trigger] bf[i].0,
                #[trigger] bf[j].0,
            ) by {
                assert(K::precedes(b[i].0, b[j].0));
            }
        }
        ascending_keys_differ::<K, W>(af);
        ascending_keys_differ::<K, W>(bf);
        map_of_entries(af);
        map_of_entries(bf);
        assert(!map_of(af).contains_key(a[n].0)) by {
            if map_of(af).contains_key(a[n].0) {
                let k = choose|k: int| 0 <= k < af.len() && #[trigger] af[k].0 == a[n].0;
                assert(a[k].0 == a[n].0);
            }
        }
        assert(!map_of(bf).contains_key(a[n].0)) by {
            if map_of(bf).contains_key(a[n].0) {
                let k = choose|k: int| 0 <= k < bf.len() && #[trigger] bf[k].0 == a[n].0;
                assert(b[k].0 == b[n].0);
            }
        }
        assert(map_of(af) =~= map_of(a).remove(a[n].0));
        assert(map_of(bf) =~= map_of(b).remove(a[n].0));
        ascending_listing_is_unique::<K, W>(af, bf);
        assert(a =~= af.push(a[n]));
        assert(b =~= bf.push(b[n]));
    }
}

/// The views of a sequence of entries.
spec fn listing<K: Key, V: View>(entries: Seq<(K, V)>) -> Seq<(K::V, V::V)> {
    entries.map_values(|e: (K, V)| (e.0@, e.1@))
}

/// A map from keys to values, its entries sorted by key.
pub struct Table<K: Key, V: View> {
    entries: Vec<(K, V)>,
}

impl<K: Key, V: View> View for Table<K, V> {
    type V = Map<K::V, V::V>;

    closed spec fn view(&self) -> Map<K::V, V::V> {
        map_of(self.pairs())
    }
}

impl<K: Key, V: View> Table<K, V> {
    /// The entries in key order.
    pub closed spec fn pairs(&self) -> Seq<(K::V, V::V)> {
        listing(self.entries@)
    }

    #[verifier::type_invariant]
    spec fn sorted(self) -> bool {
        keys_ascend::<K, V::V>(self.pairs())
    }

    /// How the entries in order and the map they spell out belong together.
    pub open spec fn in_order(&self) -> bool {
        &&& keys_ascend::<K, V::V>(self.pairs())
        &&& keys_differ(self.pairs())
        &&& self@ == map_of(self.pairs())
        &&& self.pairs() == entries_in_order::<K, V::V>(self@)
        &&& self@.dom().finite()
        &&& self@.len() == self.pairs().len()
    }

    pub fn new() -> (r: Self)
        ensures
            r@ == Map::<K::V, V::V>::empty(),
            r.pairs() == Seq::<(K::V, V::V)>::empty(),
            r.in_order(),
    {
        let r = Table { entries: Vec::new() };
        proof {
            assert(r.pairs() =~= Seq::empty());
            pairs_are_in_order::<K, V::V>(r.pairs());
            map_of_entries(r.pairs());
        }
        r
    }

    pub fn len(&self) -> (r: usize)
        ensures
            r == self@.len(),
            r == self.pairs().len(),
            self.in_order(),
    {
        proof {
            use_type_invariant(self);
            ascending_keys_differ::<K, V::V>(self.pairs());
            pairs_are_in_order::<K, V::V>(self.pairs());
            map_of_entries(self.pairs());
        }
        self.entries.len()
    }

    pub fn is_empty(&self) -> (r: bool)
        ensures
            r == (self@.len() == 0),
            r == (self@ == Map::<K::V, V::V>::empty()),
            self.in_order(),
    {
        let n: usize = self.len();
        proof {
            if n == 0 {
                assert(self.pairs() =~= Seq::empty());
            }
        }
        n == 0
    }

    pub fn key_at(&self, i: usize) -> (r: &K)
        requires
            i < self.pairs().len(),
        ensures
            r@ == self.pairs()[i as int].0,
    {
        &self.entries[i].0
    }

    pub fn value_at(&self, i: usize) -> (r: &V)
        requires
            i < self.pairs().len(),
        ensures
            r@ == self.pairs()[i as int].1,
    {
        &self.entries[i].1
    }

    /// The first position whose key does not precede `key`, and whether it holds `key`.
    fn find(&self, key: &K) -> (r: (usize, bool))
        ensures
            r.0 <= self.pairs().len(),
            forall|j: int| 0 <= j < r.0 ==> K::precedes((#[trigger] self.pairs()[j]).0, key@),
            r.1 ==> r.0 < self.pairs().len() && self.pairs()[r.0 as int].0 == key@,
            !r.1 ==> forall|j: int|
                r.0 <= j < self.pairs().len() ==> K::precedes(key@, (#[trigger] self.pairs()[j]).0),
            r.1 == self@.contains_key(key@),
            self.in_order(),
    {
        let n: usize = self.len();
        let mut lo: usize = 0;
        let mut hi: usize = n;
        while lo < hi
            invariant
                self.in_order(),
                n == self.pairs().len(),
                n == self.entries.len(),
                lo <= hi <= n,
                forall|j: int| 0 <= j < lo ==> K::precedes((#[trigger] self.pairs()[j]).0, key@),
                forall|j: int|
                    hi <= j < n ==> K::precedes(key@, (#[trigger] self.pairs()[j]).0),
            decreases hi - lo,
        {
            let mid: usize = lo + (hi - lo) / 2;
            let ghost at = self.pairs()[mid as int].0;
            match self.entries[mid].0.rank(key) {
                Rank::Same => {
                    proof {
                        map_of_entries(self.pairs());
                    }
                    return (mid, true);
                },
                Rank::Below => {
                    proof {
                        assert forall|j: int| 0 <= j < mid + 1 implies K::precedes(
                            (#[trigger] self.pairs()[j]).0,
                            key@,
                        ) by {
                            if j < mid {
                                assert(K::precedes(self.pairs()[j].0, at));
                                K::order_is_transitive(self.pairs()[j].0, at, key@);
                            }
                        }
                    }
                    lo = mid + 1;
                },
                Rank::Above => {
                    proof {
                        K::order_is_total(at, key@);
                        assert forall|j: int| mid <= j < n implies K::precedes(
                            key@,
                            (#[trigger] self.pairs()[j]).0,
                        ) by {
                            if j > mid {
                                assert(K::precedes(at, self.pairs()[j].0));
                                K::order_is_transitive(key@, at, self.pairs()[j].0);
                            }
                        }
                    }
                    hi = mid;
                },
            }
        }
        proof {
            map_of_entries(self.pairs());
            if self@.contains_key(key@) {
                let i = choose|i: int| 0 <= i < n && #[trigger] self.pairs()[i].0 == key@;
                K::order_is_irreflexive(key@);
                if i < lo {
                    assert(K::precedes(self.pairs()[i].0, key@));
                } else {
                    assert(K::precedes(key@, self.pairs()[i].0));
                }
            }
        }
        (lo, false)
    }

    pub fn contains_key(&self, key: &K) -> (r: bool)
        ensures
            r == self@.contains_key(key@),
    {
        self.find(key).1
    }

    pub fn get(&self, key: &K) -> (r: Option<&V>)
        ensures
            match r {
                Some(v) => self@.contains_key(key@) && v@ == self@[key@],
                None => !self@.contains_key(key@),
            },
    {
        let (i, found) = self.find(key);
        if found {
            proof {
                map_of_entries(self.pairs());
                assert(self@[self.pairs()[i as int].0] == self.pairs()[i as int].1);
            }
            Some(&self.entries[i].1)
        } else {
            None
        }
    }

    /// Writes `value` under `key`, in place of what stood there.
    pub fn insert(&mut self, key: K, value: V) -> (r: Option<V>)
        ensures
            final(self)@ == old(self)@.insert(key@, value@),
            final(self).in_order(),
            match r {
                Some(v) => old(self)@.contains_key(key@) && v@ == old(self)@[key@],
                None => !old(self)@.contains_key(key@),
            },
    {
        let (i, found) = self.find(&key);
        let ghost before = self.pairs();
        let ghost pair = (key@, value@);
        let mut fresh: Vec<(K, V)> = Vec::new();
        proof {
            map_of_entries(before);
        }
        if found {
            proof {
                assert(self@[before[i as int].0] == before[i as int].1);
            }
            std::mem::swap(&mut self.entries, &mut fresh);
            let mut slot = value;
            std::mem::swap(&mut fresh[i].1, &mut slot);
            proof {
                assert(listing(fresh@) =~= before.update(i as int, pair));
                pairs_updated::<K, V::V>(before, i as int, pair);
                pairs_are_in_order::<K, V::V>(listing(fresh@));
            }
            std::mem::swap(&mut self.entries, &mut fresh);
            Some(slot)
        } else {
            std::mem::swap(&mut self.entries, &mut fresh);
            fresh.insert(i, (key, value));
            proof {
                assert(listing(fresh@) =~= before.insert(i as int, pair));
                pairs_inserted::<K, V::V>(before, i as int, pair);
                pairs_are_in_order::<K, V::V>(listing(fresh@));
            }
            std::mem::swap(&mut self.entries, &mut fresh);
            None
        }
    }

    /// Writes a new value at a position.
    pub fn set_value_at(&mut self, i: usize, value: V)
        requires
            i < old(self).pairs().len(),
        ensures
            final(self).pairs() == old(self).pairs().update(
                i as int,
                (old(self).pairs()[i as int].0, value@),
            ),
            final(self)@ == old(self)@.insert(old(self).pairs()[i as int].0, value@),
            final(self).in_order(),
    {
        let ghost before = self.pairs();
        let ghost pair = (before[i as int].0, value@);
        proof {
            use_type_invariant(&*self);
        }
        let mut fresh: Vec<(K, V)> = Vec::new();
        std::mem::swap(&mut self.entries, &mut fresh);
        let mut slot = value;
        std::mem::swap(&mut fresh[i].1, &mut slot);
        proof {
            assert(listing(fresh@) =~= before.update(i as int, pair));
            pairs_updated::<K, V::V>(before, i as int, pair);
            pairs_are_in_order::<K, V::V>(listing(fresh@));
        }
        std::mem::swap(&mut self.entries, &mut fresh);
    }

    pub fn remove(&mut self, key: &K) -> (r: Option<V>)
        ensures
            final(self)@ == old(self)@.remove(key@),
            final(self).in_order(),
            match r {
                Some(v) => old(self)@.contains_key(key@) && v@ == old(self)@[key@],
                None => !old(self)@.contains_key(key@),
            },
    {
        let (i, found) = self.find(key);
        let ghost before = self.pairs();
        proof {
            map_of_entries(before);
        }
        if found {
            proof {
                assert(self@[before[i as int].0] == before[i as int].1);
                pairs_removed::<K, V::V>(before, i as int);
            }
            let mut kept: Vec<(K, V)> = Vec::new();
            std::mem::swap(&mut self.entries, &mut kept);
            let (_, v) = kept.remove(i);
            proof {
                assert(listing(kept@) =~= before.remove(i as int));
                pairs_are_in_order::<K, V::V>(listing(kept@));
            }
            std::mem::swap(&mut self.entries, &mut kept);
            Some(v)
        } else {
            proof {
                assert(self@.remove(key@) =~= self@);
            }
            None
        }
    }
}

proof fn pairs_updated<K: Key, W>(s: Seq<(K::V, W)>, i: int, pair: (K::V, W))
    requires
        keys_ascend::<K, W>(s),
        0 <= i < s.len(),
        s[i].0 == pair.0,
    ensures
        keys_ascend::<K, W>(s.update(i, pair)),
        keys_differ(s.update(i, pair)),
        map_of(s.update(i, pair)) == map_of(s).insert(pair.0, pair.1),
        map_of(s.update(i, pair)).dom().finite(),
        map_of(s.update(i, pair)).len() == s.len(),
{
    let t = s.update(i, pair);
    assert forall|a: int, b: int| 0 <= a < b < t.len() implies K::precedes(
        #[trigger] t[a].0,
        #[trigger] t[b].0,
    ) by {
        assert(K::precedes(s[a].0, s[b].0));
    }
    ascending_keys_differ::<K, W>(s);
    ascending_keys_differ::<K, W>(t);
    map_of_entries(s);
    map_of_entries(t);
    let m = map_of(s).insert(pair.0, pair.1);
    assert forall|k: K::V| map_of(t).contains_key(k) == #[trigger] m.contains_key(k) && (
    m.contains_key(k) ==> map_of(t)[k] == m[k]) by {
        if map_of(t).contains_key(k) {
            let j = choose|j: int| 0 <= j < t.len() && #[trigger] t[j].0 == k;
            assert(s[j].0 == k);
            assert(map_of(t)[t[j].0] == t[j].1);
            assert(map_of(s)[s[j].0] == s[j].1);
        } else if m.contains_key(k) {
            if k != pair.0 {
                let j = choose|j: int| 0 <= j < s.len() && #[trigger] s[j].0 == k;
                assert(t[j].0 == k);
            } else {
                assert(t[i].0 == k);
            }
        }
    }
    assert(map_of(t) =~= m);
}

proof fn pairs_inserted<K: Key, W>(s: Seq<(K::V, W)>, i: int, pair: (K::V, W))
    requires
        keys_ascend::<K, W>(s),
        0 <= i <= s.len(),
        forall|j: int| 0 <= j < i ==> K::precedes((#[trigger] s[j]).0, pair.0),
        forall|j: int| i <= j < s.len() ==> K::precedes(pair.0, (#[trigger] s[j]).0),
    ensures
        keys_ascend::<K, W>(s.insert(i, pair)),
        keys_differ(s.insert(i, pair)),
        map_of(s.insert(i, pair)) == map_of(s).insert(pair.0, pair.1),
        map_of(s.insert(i, pair)).dom().finite(),
        map_of(s.insert(i, pair)).len() == s.len() + 1,
{
    let t = s.insert(i, pair);
    assert forall|a: int, b: int| 0 <= a < b < t.len() implies K::precedes(
        #[trigger] t[a].0,
        #[trigger] t[b].0,
    ) by {
        let sa = if a < i { a } else { a - 1 };
        let sb = if b < i { b } else { b - 1 };
        if a != i {
            assert(t[a] == s[sa]);
        }
        if b != i {
            assert(t[b] == s[sb]);
        }
        if a != i && b != i {
            assert(K::precedes(s[sa].0, s[sb].0));
        }
    }
    ascending_keys_differ::<K, W>(s);
    ascending_keys_differ::<K, W>(t);
    map_of_entries(s);
    map_of_entries(t);
    let m = map_of(s).insert(pair.0, pair.1);
    assert forall|k: K::V| map_of(t).contains_key(k) == #[trigger] m.contains_key(k) && (
    m.contains_key(k) ==> map_of(t)[k] == m[k]) by {
        if map_of(t).contains_key(k) {
            let j = choose|j: int| 0 <= j < t.len() && #[trigger] t[j].0 == k;
            assert(map_of(t)[t[j].0] == t[j].1);
            if j < i {
                assert(t[j] == s[j]);
                assert(map_of(s)[s[j].0] == s[j].1);
                assert(t[j].0 != t[i].0);
            } else if j > i {
                assert(t[j] == s[j - 1]);
                assert(map_of(s)[s[j - 1].0] == s[j - 1].1);
                assert(t[j].0 != t[i].0);
            }
        } else if m.contains_key(k) {
            if k != pair.0 {
                let j = choose|j: int| 0 <= j < s.len() && #[trigger] s[j].0 == k;
                if j < i {
                    assert(t[j] == s[j]);
                } else {
                    assert(t[j + 1] == s[j]);
                }
            } else {
                assert(t[i].0 == k);
            }
        }
    }
    assert(map_of(t) =~= m);
}

proof fn pairs_removed<K: Key, W>(s: Seq<(K::V, W)>, i: int)
    requires
        keys_ascend::<K, W>(s),
        0 <= i < s.len(),
    ensures
        keys_ascend::<K, W>(s.remove(i)),
        keys_differ(s.remove(i)),
        map_of(s.remove(i)) == map_of(s).remove(s[i].0),
        map_of(s.remove(i)).dom().finite(),
        map_of(s.remove(i)).len() == s.len() - 1,
{
    let t = s.remove(i);
    assert forall|a: int, b: int| 0 <= a < b < t.len() implies K::precedes(
        #[trigger] t[a].0,
        #[trigger] t[b].0,
    ) by {
        let sa = if a < i { a } else { a + 1 };
        let sb = if b < i { b } else { b + 1 };
        assert(t[a] == s[sa] && t[b] == s[sb]);
        assert(K::precedes(s[sa].0, s[sb].0));
    }
    ascending_keys_differ::<K, W>(s);
    ascending_keys_differ::<K, W>(t);
    map_of_entries(s);
    map_of_entries(t);
    let m = map_of(s).remove(s[i].0);
    assert forall|k: K::V| map_of(t).contains_key(k) == #[trigger] m.contains_key(k) && (
    m.contains_key(k) ==> map_of(t)[k] == m[k]) by {
        if map_of(t).contains_key(k) {
            let j = choose|j: int| 0 <= j < t.len() && #[trigger] t[j].0 == k;
            let sj = if j < i { j } else { j + 1 };
            assert(t[j] == s[sj]);
            assert(map_of(t)[t[j].0] == t[j].1);
            assert(map_of(s)[s[sj].0] == s[sj].1);
            assert(s[sj].0 != s[i].0);
        } else if m.contains_key(k) {
            let j = choose|j: int| 0 <= j < s.len() && #[trigger] s[j].0 == k;
            let tj = if j < i { j } else { j - 1 };
            assert(t[tj] == s[j]);
        }
    }
    assert(map_of(t) =~= m);
}

/// The members ascend strictly.
pub open spec fn items_ascend<K: Key>(s: Seq<K::V>) -> bool {
    forall|i: int, j: int| 0 <= i < j < s.len() ==> K::precedes(#[trigger] s[i], #[trigger] s[j])
}

/// A finite set's members in key order.
pub open spec fn in_key_order<K: Key>(s: Set<K::V>) -> Seq<K::V> {
    choose|l: Seq<K::V>| items_ascend::<K>(l) && #[trigger] l.to_set() == s
}

spec fn paired<A>(l: Seq<A>) -> Seq<(A, ())> {
    Seq::new(l.len(), |i: int| (l[i], ()))
}

proof fn paired_spells_out<K: Key>(l: Seq<K::V>)
    requires
        items_ascend::<K>(l),
    ensures
        keys_ascend::<K, ()>(paired(l)),
        map_of(paired(l)).dom() == l.to_set(),
{
    let p = paired(l);
    assert forall|i: int, j: int| 0 <= i < j < p.len() implies K::precedes(
        #[trigger] p[i].0,
        #[trigger] p[j].0,
    ) by {
        assert(K::precedes(l[i], l[j]));
    }
    ascending_keys_differ::<K, ()>(p);
    map_of_entries(p);
    assert(map_of(p).dom() =~= l.to_set()) by {
        assert forall|k: K::V| map_of(p).dom().contains(k) == #[trigger] l.to_set().contains(k) by {
            if map_of(p).contains_key(k) {
                let i = choose|i: int| 0 <= i < p.len() && #[trigger] p[i].0 == k;
                assert(l[i] == k);
            }
            if l.contains(k) {
                let i = choose|i: int| 0 <= i < l.len() && l[i] == k;
                assert(p[i].0 == k);
                assert(map_of(p).contains_key(p[i].0));
            }
        }
    }
}

/// There is only one way to list a set in key order.
pub proof fn listing_is_in_key_order<K: Key>(l: Seq<K::V>)
    requires
        items_ascend::<K>(l),
    ensures
        l == in_key_order::<K>(l.to_set()),
{
    let o = in_key_order::<K>(l.to_set());
    assert(items_ascend::<K>(o) && o.to_set() == l.to_set());
    paired_spells_out::<K>(l);
    paired_spells_out::<K>(o);
    assert(map_of(paired(l)) =~= map_of(paired(o)));
    ascending_listing_is_unique::<K, ()>(paired(l), paired(o));
    assert(l.len() == paired(l).len());
    assert forall|i: int| 0 <= i < l.len() implies l[i] == o[i] by {
        assert(paired(l)[i] == paired(o)[i]);
    }
    assert(l =~= o);
}

/// A map's entries in key order.
pub open spec fn entries_in_order<K: Key, W>(m: Map<K::V, W>) -> Seq<(K::V, W)> {
    in_key_order::<K>(m.dom()).map_values(|k: K::V| (k, m[k]))
}

/// There is only one way to list a map's entries in key order.
pub proof fn pairs_are_in_order<K: Key, W>(s: Seq<(K::V, W)>)
    requires
        keys_ascend::<K, W>(s),
    ensures
        s == entries_in_order::<K, W>(map_of(s)),
{
    let l = s.map_values(|p: (K::V, W)| p.0);
    assert(items_ascend::<K>(l)) by {
        assert forall|i: int, j: int| 0 <= i < j < l.len() implies K::precedes(
            #[trigger] l[i],
            #[trigger] l[j],
        ) by {
            assert(K::precedes(s[i].0, s[j].0));
        }
    }
    ascending_keys_differ::<K, W>(s);
    map_of_entries(s);
    assert(l.to_set() =~= map_of(s).dom()) by {
        assert forall|k: K::V| l.to_set().contains(k) == #[trigger] map_of(s).dom().contains(k) by {
            if map_of(s).contains_key(k) {
                let i = choose|i: int| 0 <= i < s.len() && #[trigger] s[i].0 == k;
                assert(l[i] == k);
            }
            if l.contains(k) {
                let i = choose|i: int| 0 <= i < l.len() && l[i] == k;
                assert(s[i].0 == k);
                assert(map_of(s).contains_key(s[i].0));
            }
        }
    }
    listing_is_in_key_order::<K>(l);
    assert forall|i: int| 0 <= i < s.len() implies s[i] == entries_in_order::<K, W>(
        map_of(s),
    )[i] by {
        assert(l[i] == s[i].0);
        assert(map_of(s)[s[i].0] == s[i].1);
    }
    assert(s =~= entries_in_order::<K, W>(map_of(s)));
}

/// A type whose values can be copied.
pub trait Copied: View + Sized {
    fn copied(&self) -> (r: Self)
        ensures
            r@ == self@,
    ;
}

impl<K: Key, V: Copied> Copied for Table<K, V> {
    fn copied(&self) -> (r: Self) {
        let n: usize = self.len();
        let ghost pairs = self.pairs();
        let mut r: Table<K, V> = Table::new();
        let mut i: usize = 0;
        proof {
            assert(pairs.take(0) =~= Seq::empty());
        }
        while i < n
            invariant
                i <= n == pairs.len(),
                pairs == self.pairs(),
                r@ == map_of(pairs.take(i as int)),
            decreases n - i,
        {
            r.insert(self.key_at(i).copy_key(), self.value_at(i).copied());
            proof {
                assert(pairs.take(i + 1).drop_last() =~= pairs.take(i as int));
                assert(pairs.take(i + 1).last() == pairs[i as int]);
            }
            i = i + 1;
        }
        proof {
            assert(pairs.take(n as int) =~= pairs);
        }
        r
    }
}

/// A set of keys, kept in key order.
pub struct KeySet<K: Key> {
    table: Table<K, ()>,
}

impl<K: Key> View for KeySet<K> {
    type V = Set<K::V>;

    closed spec fn view(&self) -> Set<K::V> {
        self.table@.dom()
    }
}

impl<K: Key> KeySet<K> {
    /// The members in key order.
    pub closed spec fn items(&self) -> Seq<K::V> {
        self.table.pairs().map_values(|p: (K::V, ())| p.0)
    }

    pub fn new() -> (r: Self)
        ensures
            r@ == Set::<K::V>::empty(),
    {
        let r = KeySet { table: Table::new() };
        proof {
            assert(r@ =~= Set::<K::V>::empty());
        }
        r
    }

    pub fn len(&self) -> (r: usize)
        ensures
            r == self@.len(),
            r == self.items().len(),
            self@.finite(),
            self.items() == in_key_order::<K>(self@),
            items_ascend::<K>(self.items()),
            forall|k: K::V| #[trigger] self@.contains(k) <==> self.items().contains(k),
    {
        let r: usize = self.table.len();
        proof {
            let pairs = self.table.pairs();
            map_of_entries(pairs);
            assert forall|i: int, j: int| 0 <= i < j < self.items().len() implies K::precedes(
                #[trigger] self.items()[i],
                #[trigger] self.items()[j],
            ) by {
                assert(K::precedes(pairs[i].0, pairs[j].0));
            }
            assert forall|k: K::V| #[trigger] self@.contains(k) <==> self.items().contains(k) by {
                if self@.contains(k) {
                    assert(self.table@.contains_key(k));
                    let i = choose|i: int| 0 <= i < pairs.len() && #[trigger] pairs[i].0 == k;
                    assert(self.items()[i] == k);
                }
                if self.items().contains(k) {
                    let i = choose|i: int| 0 <= i < self.items().len() && self.items()[i] == k;
                    assert(pairs[i].0 == k);
                    assert(self.table@.contains_key(pairs[i].0));
                }
            }
            assert(self.items().to_set() =~= self@);
            listing_is_in_key_order::<K>(self.items());
        }
        r
    }

    pub fn is_empty(&self) -> (r: bool)
        ensures
            r == (self@ == Set::<K::V>::empty()),
            r == (self@.len() == 0),
    {
        let r = self.table.is_empty();
        proof {
            if r {
                assert(self@ =~= Set::<K::V>::empty());
            }
        }
        r
    }

    pub fn item_at(&self, i: usize) -> (r: &K)
        requires
            i < self.items().len(),
        ensures
            r@ == self.items()[i as int],
    {
        self.table.key_at(i)
    }

    pub fn contains(&self, key: &K) -> (r: bool)
        ensures
            r == self@.contains(key@),
    {
        self.table.contains_key(key)
    }

    /// Adds `key`; says whether it was new.
    pub fn insert(&mut self, key: K) -> (r: bool)
        ensures
            final(self)@ == old(self)@.insert(key@),
            r == !old(self)@.contains(key@),
    {
        let before = self.table.insert(key, ());
        proof {
            assert(self@ =~= old(self)@.insert(key@));
        }
        before.is_none()
    }

    /// Takes `key` out; says whether it was there.
    pub fn remove(&mut self, key: &K) -> (r: bool)
        ensures
            final(self)@ == old(self)@.remove(key@),
            r == old(self)@.contains(key@),
    {
        let before = self.table.remove(key);
        proof {
            assert(self@ =~= old(self)@.remove(key@));
        }
        before.is_some()
    }

    pub fn copy_set(&self) -> (r: Self)
        ensures
            r@ == self@,
    {
        let n: usize = self.len();
        let mut r: KeySet<K> = KeySet::new();
        let mut i: usize = 0;
        while i < n
            invariant
                i <= n == self.items().len(),
                forall|k: K::V| #[trigger] self@.contains(k) <==> self.items().contains(k),
                r@ == self.items().take(i as int).to_set(),
            decreases n - i,
        {
            r.insert(self.item_at(i).copy_key());
            proof {
                let items = self.items();
                assert(items.take(i + 1) =~= items.take(i as int).push(items[i as int]));
                assert(r@ =~= items.take(i + 1).to_set()) by {
                    items.take(i as int).lemma_push_to_set_commute(items[i as int]);
                }
            }
            i = i + 1;
        }
        proof {
            assert(self.items().take(n as int) =~= self.items());
            assert(r@ =~= self@);
        }
        r
    }

    /// The members that `other` has too (`shared`), or those that it lacks.
    fn sifted(&self, other: &KeySet<K>, shared: bool) -> (r: Self)
        ensures
            forall|k: K::V| #[trigger]
                r@.contains(k) <==> self@.contains(k) && other@.contains(k) == shared,
    {
        let n: usize = self.len();
        let mut r: KeySet<K> = KeySet::new();
        let mut i: usize = 0;
        while i < n
            invariant
                i <= n == self.items().len(),
                forall|k: K::V| #[trigger] self@.contains(k) <==> self.items().contains(k),
                forall|k: K::V| #[trigger]
                    r@.contains(k) ==> self@.contains(k) && other@.contains(k) == shared,
                forall|j: int|
                    0 <= j < i && other@.contains(self.items()[j]) == shared ==> r@.contains(
                        #[trigger] self.items()[j],
                    ),
            decreases n - i,
        {
            let item = self.item_at(i);
            proof {
                assert(self.items().contains(self.items()[i as int]));
            }
            if other.contains(item) == shared {
                r.insert(item.copy_key());
            }
            i = i + 1;
        }
        proof {
            assert forall|k: K::V| self@.contains(k) && other@.contains(k) == shared implies
                #[trigger] r@.contains(k) by {
                let j = choose|j: int| 0 <= j < self.items().len() && self.items()[j] == k;
                assert(r@.contains(self.items()[j]));
            }
        }
        r
    }

    /// The members that both sets have.
    pub fn intersection(&self, other: &KeySet<K>) -> (r: Self)
        ensures
            r@ == self@.intersect(other@),
    {
        let r = self.sifted(other, true);
        assert(r@ =~= self@.intersect(other@));
        r
    }

    /// The members that `other` lacks.
    pub fn difference(&self, other: &KeySet<K>) -> (r: Self)
        ensures
            r@ == self@.difference(other@),
    {
        let r = self.sifted(other, false);
        assert(r@ =~= self@.difference(other@));
        r
    }

    /// Adds every member of `other`.
    pub fn insert_all(&mut self, other: &KeySet<K>)
        ensures
            final(self)@ == old(self)@.union(other@),
    {
        let n: usize = other.len();
        let ghost start = self@;
        let mut i: usize = 0;
        while i < n
            invariant
                i <= n == other.items().len(),
                forall|k: K::V| #[trigger] other@.contains(k) <==> other.items().contains(k),
                forall|k: K::V| #[trigger]
                    self@.contains(k) ==> start.contains(k) || other@.contains(k),
                forall|k: K::V| #[trigger] start.contains(k) ==> self@.contains(k),
                forall|j: int| 0 <= j < i ==> self@.contains(#[trigger] other.items()[j]),
            decreases n - i,
        {
            proof {
                assert(other.items().contains(other.items()[i as int]));
            }
            self.insert(other.item_at(i).copy_key());
            i = i + 1;
        }
        proof {
            assert forall|k: K::V| #[trigger] other@.contains(k) implies self@.contains(k) by {
                let j = choose|j: int| 0 <= j < other.items().len() && other.items()[j] == k;
                assert(self@.contains(other.items()[j]));
            }
            assert(self@ =~= start.union(other@));
        }
    }
}

} // verus!
