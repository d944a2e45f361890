use std::collections::HashMap;
use std::hash::Hash;
use vstd::prelude::*;
use vstd::std_specs::hash::{builds_valid_hashers, obeys_key_model};
use std::hash::RandomState;
use crate::list::List;

verus! {

broadcast use vstd::std_specs::hash::group_hash_axioms;

/// `r` is an answer that `K::eq` can give when comparing `k` with `key`.
pub open spec fn eq_answers<K: PartialEq>(k: K, key: K, r: bool) -> bool {
    call_ensures(K::eq, (&k, &key), r)
}

/// Index `i` of `s` holds the first pair whose key compared equal to `key`.
pub open spec fn first_match<K: PartialEq, V>(s: Seq<(K, V)>, key: K, i: int) -> bool {
    &&& 0 <= i < s.len()
    &&& eq_answers(s[i].0, key, true)
    &&& forall|j: int| 0 <= j < i ==> eq_answers(#[trigger] s[j].0, key, false)
}

/// `idx` lists, in increasing order, the positions among the first `n` of `s`
/// whose key compared to `key` with answer `keep`; every other position among
/// the first `n` compared with answer `!keep`.
pub open spec fn selected<K: PartialEq, V>(
    s: Seq<(K, V)>,
    key: K,
    keep: bool,
    idx: Seq<int>,
    n: int,
) -> bool {
    &&& 0 <= n <= s.len()
    &&& forall|t: int| 0 <= t < idx.len() ==> 0 <= #[trigger] idx[t] < n
    &&& forall|t: int, u: int| 0 <= t < u < idx.len() ==> idx[t] < idx[u]
    &&& forall|p: int|
        0 <= p < n ==> (idx.contains(p) ==> eq_answers(#[trigger] s[p].0, key, keep)) && (!idx.contains(p)
            ==> eq_answers(s[p].0, key, !keep))
}

/// `v` is what looking `key` up in `s` gives: the value of the first pair
/// whose key compared equal to `key`, or `default` when none did.
pub open spec fn value_or<K: PartialEq, V>(s: Seq<(K, V)>, key: K, default: V, v: V) -> bool {
    ||| exists|i: int| first_match(s, key, i) && v == s[i].1
    ||| (forall|j: int| 0 <= j < s.len() ==> eq_answers(#[trigger] s[j].0, key, false)) && v == default
}

/// `t` holds the values of the pairs of `s` whose key compared equal to
/// `key`, in order.
pub open spec fn values_for<K: PartialEq, V>(s: Seq<(K, V)>, key: K, t: Seq<V>) -> bool {
    exists|idx: Seq<int>|
        {
            &&& selected(s, key, true, idx, s.len() as int)
            &&& t.len() == idx.len()
            &&& forall|k: int| 0 <= k < idx.len() ==> #[trigger] t[k] == s[idx[k]].1
        }
}

/// `t` holds clones of the pairs of `s` whose key compared unequal to `key`,
/// in order.
pub open spec fn deleted_from<K: PartialEq + Clone, V: Clone>(s: Seq<(K, V)>, key: K, t: Seq<(K, V)>) -> bool {
    exists|idx: Seq<int>|
        {
            &&& selected(s, key, false, idx, s.len() as int)
            &&& t.len() == idx.len()
            &&& forall|k: int|
                0 <= k < idx.len() ==> cloned::<K>(s[idx[k]].0, (#[trigger] t[k]).0) && cloned::<V>(
                    s[idx[k]].1,
                    t[k].1,
                )
        }
}

/// The map built by inserting the pairs of `s` in order: a later pair for a
/// key replaces an earlier one.
pub open spec fn pairs_to_map<K, V>(s: Seq<(K, V)>) -> Map<K, V>
    decreases s.len(),
{
    if s.len() == 0 {
        Map::empty()
    } else {
        pairs_to_map(s.drop_last()).insert(s.last().0, s.last().1)
    }
}

/// The pairs of `s` are exactly the entries of `m`, each key once.
pub open spec fn lists_entries<K, V>(s: Seq<(K, V)>, m: Map<K, V>) -> bool {
    &&& s.len() == m.dom().len()
    &&& forall|i: int| 0 <= i < s.len() ==> m.contains_key(#[trigger] s[i].0) && m[s[i].0] == s[i].1
    &&& forall|i: int, j: int| 0 <= i < j < s.len() ==> s[i].0 != s[j].0
    &&& forall|k: K| #[trigger] m.contains_key(k) ==> exists|i: int| 0 <= i < s.len() && s[i].0 == k
}

/// Moves the entries of `m` out, in the map's own arbitrary order
/// (`Vec::from_iter` over the map). Under the hash-map model of vstd the result lists
/// each entry of `m` once; in which order is left open.
#[verifier::external_body]
fn hash_map_into_pairs<K, V>(m: HashMap<K, V>) -> (v: Vec<(K, V)>)
    ensures
        obeys_key_model::<K>() && builds_valid_hashers::<RandomState>() ==> lists_entries(v@, m@),
{
    Vec::from_iter(m)
}

impl<K: PartialEq, V> List<(K, V)> {
    /// The value of the first pair whose key equals `key`, or `None`.
    pub fn get_value(&self, key: &K) -> (r: Option<&V>)
        ensures
            r is None ==> forall|j: int|
                0 <= j < self@.len() ==> eq_answers(#[trigger] self@[j].0, *key, false),
            r matches Some(v) ==> exists|i: int| first_match(self@, *key, i) && *v == self@[i].1,
    {
        let mut it = self.iter();
        let ghost n: int = 0;
        while !it.is_done()
            invariant
                0 <= n <= self@.len(),
                it@ == self@.skip(n),
                forall|j: int| 0 <= j < n ==> eq_answers(#[trigger] self@[j].0, *key, false),
            decreases self@.len() - n,
        {
            let pair = it.next().unwrap();
            let same = pair.0.eq(key);
            if same {
                assert(first_match(self@, *key, n));
                return Some(&pair.1);
            }
            proof {
                n = n + 1;
                assert(self@.skip(n - 1).drop_first() =~= self@.skip(n));
            }
        }
        None
    }

    /// The values of all pairs whose key equals `key`, in list order.
    pub fn get_values(&self, key: &K) -> (r: List<&V>)
        ensures
            values_for(self@, *key, r@.map_values(|v: &V| *v)),
    {
        let mut it = self.iter();
        let mut found: Vec<&V> = Vec::new();
        let ghost mut n: int = 0;
        let ghost mut idx: Seq<int> = Seq::empty();
        while !it.is_done()
            invariant
                0 <= n <= self@.len(),
                it@ == self@.skip(n),
                selected(self@, *key, true, idx, n),
                found@.len() == idx.len(),
                forall|t: int| 0 <= t < idx.len() ==> *#[trigger] found@[t] == self@[idx[t]].1,
            decreases self@.len() - n,
        {
            let pair = it.next().unwrap();
            let same = pair.0.eq(key);
            proof {
                assert(self@.skip(n).drop_first() =~= self@.skip(n + 1));
            }
            if same {
                found.push(&pair.1);
                proof {
                    let old_idx = idx;
                    idx = idx.push(n);
                    assert forall|p: int| 0 <= p < n implies (idx.contains(p) <==> old_idx.contains(p)) by {
                        if old_idx.contains(p) {
                            let t = choose|t: int| 0 <= t < old_idx.len() && old_idx[t] == p;
                            assert(idx[t] == p);
                        }
                        if idx.contains(p) {
                            let t = choose|t: int| 0 <= t < idx.len() && idx[t] == p;
                            assert(t < old_idx.len());
                        }
                    }
                    assert(idx[idx.len() - 1] == n);
                }
            } else {
                proof {
                    assert(!idx.contains(n));
                }
            }
            proof {
                n = n + 1;
            }
        }
        let r = List::from_vec(found);
        proof {
            let t = r@.map_values(|v: &V| *v);
            assert forall|k: int| 0 <= k < idx.len() implies #[trigger] t[k] == self@[idx[k]].1 by {
                assert(t[k] == *found@[k]);
            }
        }
        r
    }

    /// The list of clones of all pairs whose key differs from `key`, in list order.
    pub fn delete(&self, key: &K) -> (r: List<(K, V)>)
        where
            K: Clone,
            V: Clone,
        ensures
            deleted_from(self@, *key, r@),
    {
        let mut it = self.iter();
        let mut kept: Vec<(K, V)> = Vec::new();
        let ghost mut n: int = 0;
        let ghost mut idx: Seq<int> = Seq::empty();
        while !it.is_done()
            invariant
                0 <= n <= self@.len(),
                it@ == self@.skip(n),
                selected(self@, *key, false, idx, n),
                kept@.len() == idx.len(),
                forall|t: int|
                    0 <= t < idx.len() ==> cloned::<K>(self@[idx[t]].0, (#[trigger] kept@[t]).0)
                        && cloned::<V>(self@[idx[t]].1, kept@[t].1),
            decreases self@.len() - n,
        {
            let pair = it.next().unwrap();
            let same = pair.0.eq(key);
            proof {
                assert(self@.skip(n).drop_first() =~= self@.skip(n + 1));
            }
            if !same {
                let k = pair.0.clone();
                let v = pair.1.clone();
                kept.push((k, v));
                proof {
                    let old_idx = idx;
                    idx = idx.push(n);
                    assert forall|p: int| 0 <= p < n implies (idx.contains(p) <==> old_idx.contains(p)) by {
                        if old_idx.contains(p) {
                            let t = choose|t: int| 0 <= t < old_idx.len() && old_idx[t] == p;
                            assert(idx[t] == p);
                        }
                        if idx.contains(p) {
                            let t = choose|t: int| 0 <= t < idx.len() && idx[t] == p;
                            assert(t < old_idx.len());
                        }
                    }
                    assert(idx[idx.len() - 1] == n);
                }
            } else {
                proof {
                    assert(!idx.contains(n));
                }
            }
            proof {
                n = n + 1;
            }
        }
        List::from_vec(kept)
    }
}

impl<K: Eq + Hash, V> List<(K, V)> {
    /// The pairs of the map as a list, in the map's arbitrary iteration order.
    pub fn from_map(map: HashMap<K, V>) -> (r: Self)
        ensures
            obeys_key_model::<K>() ==> lists_entries(r@, map@),
    {
        let pairs = hash_map_into_pairs(map);
        List::from_vec(pairs)
    }

    /// The list as a map. Where a key occurs more than once, the last pair in
    /// the list gives its value.
    pub fn to_map(&self) -> (m: HashMap<K, V>)
        where
            K: Clone,
            V: Clone,
        ensures
            obeys_key_model::<K>() ==> exists|c: Seq<(K, V)>|
                {
                    &&& c.len() == self@.len()
                    &&& forall|i: int|
                        0 <= i < c.len() ==> cloned::<K>(self@[i].0, (#[trigger] c[i]).0) && cloned::<V>(
                            self@[i].1,
                            c[i].1,
                        )
                    &&& m@ == pairs_to_map(c)
                },
    {
        let mut m: HashMap<K, V> = HashMap::new();
        let mut it = self.iter();
        let ghost mut n: int = 0;
        let ghost mut c: Seq<(K, V)> = Seq::empty();
        while !it.is_done()
            invariant
                0 <= n <= self@.len(),
                it@ == self@.skip(n),
                c.len() == n,
                forall|i: int|
                    0 <= i < n ==> cloned::<K>(self@[i].0, (#[trigger] c[i]).0) && cloned::<V>(
                        self@[i].1,
                        c[i].1,
                    ),
                obeys_key_model::<K>() ==> m@ == pairs_to_map(c),
                builds_valid_hashers::<RandomState>(),
            decreases self@.len() - n,
        {
            let pair = it.next().unwrap();
            let k = pair.0.clone();
            let v = pair.1.clone();
            proof {
                assert(self@.skip(n).drop_first() =~= self@.skip(n + 1));
                let old_c = c;
                c = c.push((k, v));
                assert(c.drop_last() =~= old_c);
                n = n + 1;
            }
            m.insert(k, v);
        }
        m
    }
}

/// Index `i` holds the last pair of `s` with key `k`.
pub open spec fn last_pair_of<K, V>(s: Seq<(K, V)>, k: K, i: int) -> bool {
    &&& 0 <= i < s.len()
    &&& s[i].0 == k
    &&& forall|j: int| i < j < s.len() ==> #[trigger] s[j].0 != k
}

/// In the map built from a list of pairs, a key is present exactly when some
/// pair has it, and the last such pair gives its value.
pub proof fn law_to_map_last_pair_wins<K, V>(s: Seq<(K, V)>, k: K)
    ensures
        pairs_to_map(s).contains_key(k) <==> exists|i: int| 0 <= i < s.len() && s[i].0 == k,
        forall|i: int| #[trigger] last_pair_of(s, k, i) ==> pairs_to_map(s)[k] == s[i].1,
    decreases s.len(),
{
    if s.len() > 0 {
        let d = s.drop_last();
        law_to_map_last_pair_wins(d, k);
        if exists|i: int| 0 <= i < s.len() && s[i].0 == k {
            let i = choose|i: int| 0 <= i < s.len() && s[i].0 == k;
            if s.last().0 != k {
                assert(i < s.len() - 1);
                assert(d[i].0 == k);
            }
        }
        if exists|i: int| 0 <= i < d.len() && d[i].0 == k {
            let i = choose|i: int| 0 <= i < d.len() && d[i].0 == k;
            assert(s[i].0 == k);
        }
        assert forall|i: int| #[trigger] last_pair_of(s, k, i) implies pairs_to_map(s)[k] == s[i].1 by {
            if i < s.len() - 1 {
                assert(s[s.len() - 1].0 != k);
                assert(last_pair_of(d, k, i)) by {
                    assert forall|j: int| i < j < d.len() implies #[trigger] d[j].0 != k by {
                        assert(s[j].0 != k);
                    }
                }
            }
        }
    }
}

/// A list that holds every entry of a map once builds that map again: the
/// list from `from_map` gives the map back through `to_map` (up to clones).
pub proof fn law_entries_rebuild_map<K, V>(s: Seq<(K, V)>, m: Map<K, V>)
    requires
        lists_entries(s, m),
    ensures
        pairs_to_map(s) == m,
{
    assert forall|k: K| #[trigger] pairs_to_map(s).contains_key(k) <==> m.contains_key(k) by {
        law_to_map_last_pair_wins(s, k);
        if m.contains_key(k) {
            let i = choose|i: int| 0 <= i < s.len() && s[i].0 == k;
        }
        if exists|i: int| 0 <= i < s.len() && s[i].0 == k {
            let i = choose|i: int| 0 <= i < s.len() && s[i].0 == k;
            assert(m.contains_key(s[i].0));
        }
    }
    assert forall|k: K| #[trigger] m.contains_key(k) implies pairs_to_map(s)[k] == m[k] by {
        law_to_map_last_pair_wins(s, k);
        let i = choose|i: int| 0 <= i < s.len() && s[i].0 == k;
        assert(last_pair_of(s, k, i)) by {
            assert forall|j: int| i < j < s.len() implies #[trigger] s[j].0 != k by {
                assert(s[i].0 != s[j].0);
            }
        }
        assert(m.contains_key(s[i].0));
    }
    assert(pairs_to_map(s) =~= m);
}

/// The key type compares by spec equality: `==` answers exactly whether the
/// two keys are the same value.
pub open spec fn eq_is_identity<K: PartialEq>() -> bool {
    forall|a: K, b: K, r: bool| #[trigger] eq_answers(a, b, r) ==> r == (a == b)
}

/// Looking a key up in a list that holds every entry of a map gives the
/// map's value for that key, or the default when the map lacks it.
pub proof fn law_lookup_in_entries<K: PartialEq, V>(s: Seq<(K, V)>, m: Map<K, V>, k: K, d: V, v: V)
    requires
        eq_is_identity::<K>(),
        lists_entries(s, m),
        value_or(s, k, d, v),
    ensures
        m.contains_key(k) ==> v == m[k],
        !m.contains_key(k) ==> v == d,
{
    if exists|i: int| first_match(s, k, i) && v == s[i].1 {
        let i = choose|i: int| first_match(s, k, i) && v == s[i].1;
        assert(eq_answers(s[i].0, k, true));
        assert(s[i].0 == k);
        assert(m.contains_key(s[i].0));
    } else {
        if m.contains_key(k) {
            let i = choose|i: int| 0 <= i < s.len() && s[i].0 == k;
            assert(eq_answers(s[i].0, k, false));
        }
    }
}


/// Cloning a value of type `T` gives that same value.
pub open spec fn clone_is_identity<T: Clone>() -> bool {
    forall|a: T, b: T| #[trigger] cloned::<T>(a, b) ==> a == b
}

/// `to_map` after `from_map` gives the map back: when `l` is a list that
/// `from_map(m)` can return and `back` a map that `l.to_map()` can return,
/// `back` holds exactly the entries of `m` (for keys under vstd's hash-map
/// model, and keys and values whose clones equal their source).
pub proof fn law_to_map_after_from_map<K: Eq + Hash + Clone, V: Clone>(
    m: HashMap<K, V>,
    l: List<(K, V)>,
    back: HashMap<K, V>,
)
    requires
        obeys_key_model::<K>(),
        clone_is_identity::<K>(),
        clone_is_identity::<V>(),
        lists_entries(l@, m@),
        exists|c: Seq<(K, V)>|
            {
                &&& c.len() == l@.len()
                &&& forall|i: int|
                    0 <= i < c.len() ==> cloned::<K>(l@[i].0, (#[trigger] c[i]).0) && cloned::<V>(
                        l@[i].1,
                        c[i].1,
                    )
                &&& back@ == pairs_to_map(c)
            },
    ensures
        back@ == m@,
{
    let c = choose|c: Seq<(K, V)>|
        {
            &&& c.len() == l@.len()
            &&& forall|i: int|
                0 <= i < c.len() ==> cloned::<K>(l@[i].0, (#[trigger] c[i]).0) && cloned::<V>(l@[i].1, c[i].1)
            &&& back@ == pairs_to_map(c)
        };
    assert forall|i: int| 0 <= i < c.len() implies #[trigger] c[i] == l@[i] by {
        assert(cloned::<K>(l@[i].0, c[i].0));
        assert(cloned::<V>(l@[i].1, c[i].1));
    }
    assert(c =~= l@);
    law_entries_rebuild_map(l@, m@);
}

} // verus!
