use vstd::prelude::*;
use crate::text::chars_of;

verus! {

broadcast use vstd::seq_lib::group_to_multiset_ensures;

/// Whether text `a` comes no later than text `b` in lexicographic order of
/// their characters (which is the byte order of their UTF-8 encodings).
pub open spec fn text_le(a: Seq<char>, b: Seq<char>) -> bool
    decreases a.len(),
{
    if a.len() == 0 {
        true
    } else if b.len() == 0 {
        false
    } else if a[0] != b[0] {
        a[0] < b[0]
    } else {
        text_le(a.drop_first(), b.drop_first())
    }
}

proof fn lemma_text_le_total(a: Seq<char>, b: Seq<char>)
    ensures
        text_le(a, b) || text_le(b, a),
    decreases a.len(),
{
    if a.len() > 0 && b.len() > 0 && a[0] == b[0] {
        lemma_text_le_total(a.drop_first(), b.drop_first());
    }
}

proof fn lemma_text_le_trans(a: Seq<char>, b: Seq<char>, c: Seq<char>)
    requires
        text_le(a, b),
        text_le(b, c),
    ensures
        text_le(a, c),
    decreases a.len(),
{
    if a.len() > 0 && b.len() > 0 && c.len() > 0 && a[0] == b[0] && b[0] == c[0] {
        lemma_text_le_trans(a.drop_first(), b.drop_first(), c.drop_first());
    }
}

/// A key by which report entries are sorted: a total preorder with an
/// executable comparison.
pub trait SortKey: Sized {
    spec fn key_le(self, other: Self) -> bool;

    proof fn lemma_key_le_total(a: Self, b: Self)
        ensures
            a.key_le(b) || b.key_le(a),
    ;

    proof fn lemma_key_le_trans(a: Self, b: Self, c: Self)
        requires
            a.key_le(b),
            b.key_le(c),
        ensures
            a.key_le(c),
    ;

    fn at_most(&self, other: &Self) -> (r: bool)
        ensures
            r == self.key_le(*other),
    ;
}

impl SortKey for u16 {
    open spec fn key_le(self, other: Self) -> bool {
        self <= other
    }

    proof fn lemma_key_le_total(a: Self, b: Self) {
    }

    proof fn lemma_key_le_trans(a: Self, b: Self, c: Self) {
    }

    fn at_most(&self, other: &Self) -> (r: bool) {
        *self <= *other
    }
}

impl SortKey for usize {
    open spec fn key_le(self, other: Self) -> bool {
        self <= other
    }

    proof fn lemma_key_le_total(a: Self, b: Self) {
    }

    proof fn lemma_key_le_trans(a: Self, b: Self, c: Self) {
    }

    fn at_most(&self, other: &Self) -> (r: bool) {
        *self <= *other
    }
}

impl SortKey for String {
    open spec fn key_le(self, other: Self) -> bool {
        text_le(self@, other@)
    }

    proof fn lemma_key_le_total(a: Self, b: Self) {
        lemma_text_le_total(a@, b@);
    }

    proof fn lemma_key_le_trans(a: Self, b: Self, c: Self) {
        lemma_text_le_trans(a@, b@, c@);
    }

    fn at_most(&self, other: &Self) -> (r: bool) {
        let a = chars_of(self.as_str());
        let b = chars_of(other.as_str());
        let mut i: usize = 0;
        assert(a@.skip(0) =~= a@);
        assert(b@.skip(0) =~= b@);
        while i < a.len() && i < b.len()
            invariant
                i <= a@.len(),
                i <= b@.len(),
                a@ == self@,
                b@ == other@,
                text_le(self@, other@) == text_le(a@.skip(i as int), b@.skip(i as int)),
            decreases a@.len() - i,
        {
            proof {
                assert(a@.skip(i as int)[0] == a@[i as int]);
                assert(b@.skip(i as int)[0] == b@[i as int]);
                assert(a@.skip(i as int).drop_first() =~= a@.skip(i + 1));
                assert(b@.skip(i as int).drop_first() =~= b@.skip(i + 1));
            }
            if a[i] != b[i] {
                return a[i] < b[i];
            }
            i = i + 1;
        }
        proof {
            if i == a@.len() {
                assert(a@.skip(i as int).len() == 0);
            } else {
                assert(b@.skip(i as int).len() == 0);
            }
        }
        i == a.len()
    }
}

/// Whether the entries are sorted by key.
pub open spec fn sorted_by_key<K: SortKey, V>(s: Seq<(K, V)>) -> bool {
    forall|i: int, j: int| 0 <= i < j < s.len() ==> s[i].0.key_le(s[j].0)
}

/// `idx` says where each entry of `r` came from in `s`: `r[i]` is
/// `s[idx[i]]`, no two entries come from the same place, and entries whose
/// keys are equal (each at most the other) keep the order they had in `s`.
pub open spec fn stable_placement<K: SortKey, V>(s: Seq<(K, V)>, r: Seq<(K, V)>, idx: Seq<int>) -> bool {
    &&& idx.len() == r.len()
    &&& forall|i: int| 0 <= i < idx.len() ==> 0 <= #[trigger] idx[i] < s.len() && r[i] == s[idx[i]]
    &&& forall|i: int, j: int| 0 <= i < j < idx.len() ==> idx[i] != idx[j]
    &&& forall|i: int, j: int|
        0 <= i < j < r.len() && (#[trigger] r[j]).0.key_le((#[trigger] r[i]).0) ==> idx[i] < idx[j]
}

/// The entries sorted by key; entries with equal keys keep their order.
pub fn sort_entries<K: SortKey, V>(v: Vec<(K, V)>) -> (r: Vec<(K, V)>)
    ensures
        r@.to_multiset() == v@.to_multiset(),
        sorted_by_key(r@),
        r@.len() == v@.len(),
        exists|idx: Seq<int>| stable_placement(v@, r@, idx),
{
    let ghost orig = v@;
    let mut v = v;
    let mut r: Vec<(K, V)> = Vec::new();
    let ghost mut taken: int = 0;
    let ghost mut idx: Seq<int> = Seq::empty();
    assert(r@.to_multiset().add(v@.to_multiset()) =~= orig.to_multiset());
    assert(orig.skip(0) =~= orig);
    while v.len() > 0
        invariant
            r@.to_multiset().add(v@.to_multiset()) == orig.to_multiset(),
            sorted_by_key(r@),
            0 <= taken <= orig.len(),
            v@ == orig.skip(taken),
            r@.len() == taken,
            idx.len() == taken,
            forall|i: int| 0 <= i < idx.len() ==> 0 <= #[trigger] idx[i] < taken && r@[i] == orig[idx[i]],
            forall|i: int, j: int| 0 <= i < j < idx.len() ==> idx[i] != idx[j],
            forall|i: int, j: int|
                0 <= i < j < r@.len() && (#[trigger] r@[j]).0.key_le((#[trigger] r@[i]).0) ==> idx[i] < idx[j],
        decreases v@.len(),
    {
        let ghost before_v = v@;
        let x = v.remove(0);
        proof {
            vstd::seq_lib::to_multiset_remove(before_v, 0);
            assert(before_v.remove(0) == v@);
            assert(x == orig[taken]);
            assert(v@ =~= orig.skip(taken + 1));
        }
        let mut p: usize = 0;
        while p < r.len() && r[p].0.at_most(&x.0)
            invariant
                p <= r@.len(),
                forall|i: int| 0 <= i < p ==> (#[trigger] r@[i]).0.key_le(x.0),
            decreases r@.len() - p,
        {
            p = p + 1;
        }
        let ghost before_r = r@;
        let ghost before_idx = idx;
        r.insert(p, x);
        proof {
            vstd::seq_lib::to_multiset_insert(before_r, p as int, x);
            assert(r@ == before_r.insert(p as int, x));
            if p < before_r.len() {
                K::lemma_key_le_total(before_r[p as int].0, x.0);
            }
            assert forall|i: int, j: int| 0 <= i < j < r@.len() implies r@[i].0.key_le(r@[j].0) by {
                if j < p {
                } else if j == p {
                } else if i < p {
                    K::lemma_key_le_trans(r@[i].0, x.0, before_r[p as int].0);
                    if j - 1 > p {
                        K::lemma_key_le_trans(r@[i].0, before_r[p as int].0, before_r[j - 1].0);
                    }
                } else if i == p {
                    if j - 1 > p {
                        K::lemma_key_le_trans(x.0, before_r[p as int].0, before_r[j - 1].0);
                    }
                } else {
                }
            }
            assert(r@.to_multiset().add(v@.to_multiset()) =~= orig.to_multiset());
            idx = before_idx.insert(p as int, taken);
            assert forall|i: int| 0 <= i < idx.len() implies 0 <= #[trigger] idx[i] < taken + 1 && r@[i] == orig[idx[i]] by {
                if i < p {
                    assert(idx[i] == before_idx[i]);
                } else if i > p {
                    assert(idx[i] == before_idx[i - 1]);
                }
            }
            assert forall|i: int, j: int| 0 <= i < j < idx.len() implies idx[i] != idx[j] by {
                if i < p && j < p {
                } else if i < p && j == p {
                    assert(before_idx[i] < taken);
                } else if i < p {
                    assert(idx[j] == before_idx[j - 1]);
                } else if i == p {
                    assert(idx[j] == before_idx[j - 1]);
                    assert(before_idx[j - 1] < taken);
                } else {
                    assert(idx[i] == before_idx[i - 1] && idx[j] == before_idx[j - 1]);
                }
            }
            assert forall|i: int, j: int|
                0 <= i < j < r@.len() && (#[trigger] r@[j]).0.key_le((#[trigger] r@[i]).0) implies idx[i] < idx[j] by {
                if j < p {
                    assert(r@[i] == before_r[i] && r@[j] == before_r[j]);
                } else if j == p {
                    assert(before_idx[i] < taken);
                } else if i < p {
                    assert(r@[i] == before_r[i] && r@[j] == before_r[j - 1]);
                    assert(idx[j] == before_idx[j - 1]);
                } else if i == p {
                    // An entry after x that is at most x would, by transitivity,
                    // make the entry the search stopped at at most x too.
                    assert(r@[j] == before_r[j - 1]);
                    if before_r[j - 1].0.key_le(x.0) {
                        if j - 1 > p {
                            K::lemma_key_le_trans(before_r[p as int].0, before_r[j - 1].0, x.0);
                        }
                        assert(false);
                    }
                } else {
                    assert(r@[i] == before_r[i - 1] && r@[j] == before_r[j - 1]);
                    assert(idx[i] == before_idx[i - 1] && idx[j] == before_idx[j - 1]);
                }
            }
            taken = taken + 1;
        }
    }
    assert(r@.to_multiset().add(v@.to_multiset()) =~= r@.to_multiset());
    assert(taken == orig.len());
    assert(stable_placement(orig, r@, idx));
    r
}

} // verus!
