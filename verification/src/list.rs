use std::sync::Arc;
use vstd::prelude::*;
use vstd::std_specs::cmp::PartialEqSpec;

verus! {

/// A singly linked, immutable list, similar to Lisp or Erlang lists.
///
/// Cells are shared through `Arc`, so clones of a list, and lists built on
/// the same tail, share their data. The view of a list is the sequence of its
/// elements, head first.
pub struct List<T>(pub(crate) Arc<ListCell<T>>);

pub(crate) enum ListCell<T> {
    Cons(T, Arc<ListCell<T>>),
    Nil,
}

impl<T> ListCell<T> {
    pub(crate) closed spec fn elems(self) -> Seq<T>
        decreases self,
    {
        match self {
            ListCell::Cons(h, t) => seq![h] + (*t).elems(),
            ListCell::Nil => Seq::empty(),
        }
    }

    proof fn lemma_elems_shape(&self)
        ensures
            *self is Nil <==> self.elems().len() == 0,
            *self matches ListCell::Cons(h, t) ==> self.elems()[0] == h && self.elems().drop_first()
                =~= (*t).elems(),
    {
        if let ListCell::Cons(h, t) = *self {
            assert(self.elems().drop_first() =~= (*t).elems());
        }
    }
}

impl<T> View for List<T> {
    type V = Seq<T>;

    closed spec fn view(&self) -> Seq<T> {
        (*self.0).elems()
    }
}

/// Another `Arc` to the same cell (`Arc::clone`).
#[verifier::external_body]
fn share<T>(a: &Arc<T>) -> (r: Arc<T>)
    ensures
        r == *a,
{
    Arc::clone(a)
}

impl<T> Clone for List<T> {
    /// A copy of the list that shares its cells with `self`.
    fn clone(&self) -> (r: Self)
        ensures
            r@ == self@,
    {
        List(share(&self.0))
    }
}

/// Two sequences have the same length and pairwise equal elements, by the
/// elements' own equality.
pub open spec fn elementwise_eq<T: PartialEq>(a: Seq<T>, b: Seq<T>) -> bool {
    a.len() == b.len() && forall|i: int| 0 <= i < a.len() ==> #[trigger] a[i].eq_spec(&b[i])
}

impl<T: PartialEq> PartialEq for List<T> {
    /// Two lists are equal when they have the same length and equal elements
    /// at each position.
    fn eq(&self, other: &Self) -> (r: bool) {
        let mut a = self.iter();
        let mut b = other.iter();
        let ghost mut n: int = 0;
        loop
            invariant
                0 <= n,
                a@ == self@.skip(n),
                b@ == other@.skip(n),
                n <= self@.len(),
                n <= other@.len(),
                T::obeys_eq_spec() ==> forall|i: int| 0 <= i < n ==> #[trigger] self@[i].eq_spec(&other@[i]),
            decreases self@.len() - n,
        {
            let x = a.next();
            let y = b.next();
            match (x, y) {
                (None, None) => {
                    return true;
                },
                (Some(x), Some(y)) => {
                    if !x.eq(y) {
                        return false;
                    }
                    proof {
                        assert(self@.skip(n).drop_first() =~= self@.skip(n + 1));
                        assert(other@.skip(n).drop_first() =~= other@.skip(n + 1));
                        n = n + 1;
                    }
                },
                _ => {
                    return false;
                },
            }
        }
    }
}

impl<T: PartialEq> vstd::std_specs::cmp::PartialEqSpecImpl for List<T> {
    open spec fn obeys_eq_spec() -> bool {
        <T as PartialEqSpec>::obeys_eq_spec()
    }

    open spec fn eq_spec(&self, other: &Self) -> bool {
        elementwise_eq(self@, other@)
    }
}

impl<T> Default for List<T> {
    fn default() -> (r: Self)
        ensures
            r@ == Seq::<T>::empty(),
    {
        Self::empty()
    }
}

impl<T> List<T> {
    /// The empty list.
    pub fn empty() -> (l: Self)
        ensures
            l@ == Seq::<T>::empty(),
    {
        List(Arc::new(ListCell::Nil))
    }

    /// The list holding `data` alone.
    pub fn new(data: T) -> (l: Self)
        ensures
            l@ == seq![data],
    {
        let e = Self::empty();
        let l = Self::cons(data, &e);
        assert(l@ =~= seq![data]);
        l
    }

    /// The list with `data` at its head, followed by the elements of `list`.
    pub fn cons(data: T, list: &Self) -> (l: Self)
        ensures
            l@ == seq![data] + list@,
    {
        List(Arc::new(ListCell::Cons(data, share(&list.0))))
    }

    /// The list with `data` at its head, followed by the elements of `self`.
    pub fn prepend(&self, data: T) -> (l: Self)
        ensures
            l@ == seq![data] + self@,
    {
        Self::cons(data, self)
    }

    /// The first element, or `None` when the list is empty.
    pub fn hd(&self) -> (r: Option<&T>)
        ensures
            self@.len() == 0 ==> r is None,
            self@.len() > 0 ==> r == Some(&self@[0]),
    {
        proof {
            (*self.0).lemma_elems_shape();
        }
        match &*self.0 {
            ListCell::Cons(head, _) => Some(head),
            ListCell::Nil => None,
        }
    }

    /// The list after its first element, or `None` when the list is empty.
    pub fn tl(&self) -> (r: Option<Self>)
        ensures
            self@.len() == 0 ==> r is None,
            self@.len() > 0 ==> (r matches Some(t) && t@ == self@.drop_first()),
    {
        proof {
            (*self.0).lemma_elems_shape();
        }
        match &*self.0 {
            ListCell::Cons(_, tail) => Some(List(share(tail))),
            ListCell::Nil => None,
        }
    }

    /// Whether the list has no element.
    pub fn is_empty(&self) -> (r: bool)
        ensures
            r == (self@.len() == 0),
    {
        proof {
            (*self.0).lemma_elems_shape();
        }
        match &*self.0 {
            ListCell::Cons(_, _) => false,
            ListCell::Nil => true,
        }
    }

    /// An iterator over the elements of the list, head first.
    pub fn iter(&self) -> (it: Iter<'_, T>)
        ensures
            it@ == self@,
    {
        Iter { next: &*self.0 }
    }

    /// The list holding the elements of `v` in the same order.
    pub fn from_vec(v: Vec<T>) -> (l: Self)
        ensures
            l@ == v@,
    {
        let mut v = v;
        let ghost orig = v@;
        let mut acc = Self::empty();
        while v.len() > 0
            invariant
                orig == v@ + acc@,
            decreases v.len(),
        {
            let x = v.pop().unwrap();
            proof {
                assert(orig == v@ + (seq![x] + acc@));
            }
            acc = Self::cons(x, &acc);
        }
        assert(orig =~= acc@);
        acc
    }
}

/// `r` holds clones of the elements of `s` in reverse order.
pub open spec fn reversed_clones<T: Clone>(s: Seq<T>, r: Seq<T>) -> bool {
    &&& r.len() == s.len()
    &&& forall|i: int| 0 <= i < s.len() ==> cloned::<T>(s[i], #[trigger] r[s.len() - 1 - i])
}

/// A list built by `cons` has the new element as its head and the old list
/// as its tail.
pub proof fn law_cons_hd_tl<T>(x: T, l: Seq<T>)
    ensures
        (seq![x] + l).len() == l.len() + 1,
        (seq![x] + l)[0] == x,
        (seq![x] + l).drop_first() == l,
{
    assert((seq![x] + l).drop_first() =~= l);
}

/// Reversing twice gives the original elements back, for element types
/// whose clones equal the original.
pub proof fn law_reverse_twice<T: Clone>(s: Seq<T>, r1: Seq<T>, r2: Seq<T>)
    requires
        forall|a: T, b: T| #[trigger] cloned::<T>(a, b) ==> a == b,
        reversed_clones(s, r1),
        reversed_clones(r1, r2),
    ensures
        r2 == s,
{
    assert forall|i: int| 0 <= i < s.len() implies r2[i] == s[i] by {
        let j = s.len() - 1 - i;
        assert(cloned::<T>(s[i], r1[j]));
        assert(cloned::<T>(r1[j], r2[s.len() - 1 - j]));
    }
    assert(r2 =~= s);
}

/// Reversing twice gives, at each position, a clone of a clone of the
/// original element, whatever `Clone` does; reversing the empty list gives
/// the empty list, and reversing a one-element list gives a clone of it.
pub proof fn law_reverse_twice_clones<T: Clone>(s: Seq<T>, r1: Seq<T>, r2: Seq<T>)
    requires
        reversed_clones(s, r1),
        reversed_clones(r1, r2),
    ensures
        r2.len() == s.len(),
        forall|i: int| 0 <= i < s.len() ==> cloned::<T>(s[i], r1[s.len() - 1 - i]) && cloned::<T>(
            r1[s.len() - 1 - i],
            #[trigger] r2[i],
        ),
        s.len() == 0 ==> r1 == Seq::<T>::empty(),
        s.len() == 1 ==> r1.len() == 1 && cloned::<T>(s[0], r1[0]),
{
    assert forall|i: int| 0 <= i < s.len() implies cloned::<T>(s[i], r1[s.len() - 1 - i]) && cloned::<T>(
        r1[s.len() - 1 - i],
        #[trigger] r2[i],
    ) by {
        let j = s.len() - 1 - i;
        assert(cloned::<T>(r1[j], r2[r1.len() - 1 - j]));
    }
    if s.len() == 0 {
        assert(r1 =~= Seq::<T>::empty());
    }
    if s.len() == 1 {
        assert(cloned::<T>(s[0], r1[s.len() - 1 - 0]));
    }
}

impl<T: Clone> List<T> {
    /// A new list with clones of the elements in reverse order.
    pub fn reverse(&self) -> (r: Self)
        ensures
            reversed_clones(self@, r@),
    {
        let mut it = self.iter();
        let mut acc = Self::empty();
        let ghost n: int = 0;
        while !it.is_done()
            invariant
                0 <= n <= self@.len(),
                it@ == self@.skip(n),
                acc@.len() == n,
                forall|i: int| 0 <= i < n ==> cloned::<T>(self@[i], #[trigger] acc@[n - 1 - i]),
            decreases self@.len() - n,
        {
            let x = it.next().unwrap();
            let c = x.clone();
            let ghost prev = acc@;
            acc = Self::cons(c, &acc);
            proof {
                assert forall|i: int| 0 <= i < n + 1 implies cloned::<T>(
                    self@[i],
                    #[trigger] acc@[n + 1 - 1 - i],
                ) by {
                    if i < n {
                        assert(acc@[n - i] == prev[n - 1 - i]);
                    }
                }
                n = n + 1;
                assert(self@.skip(n - 1).drop_first() =~= self@.skip(n));
            }
        }
        acc
    }
}

/// An iterator over the elements of a `List`, head first. Its view is the
/// sequence of elements it has not yet handed out.
pub struct Iter<'a, T> {
    pub(crate) next: &'a ListCell<T>,
}

impl<'a, T> View for Iter<'a, T> {
    type V = Seq<T>;

    closed spec fn view(&self) -> Seq<T> {
        (*self.next).elems()
    }
}

impl<'a, T> Iter<'a, T> {
    /// Whether every element has been handed out.
    pub fn is_done(&self) -> (r: bool)
        ensures
            r == (self@.len() == 0),
    {
        proof {
            (*self.next).lemma_elems_shape();
        }
        match self.next {
            ListCell::Nil => true,
            ListCell::Cons(_, _) => false,
        }
    }

    /// The next element, or `None` when every element has been handed out.
    pub fn next(&mut self) -> (r: Option<&'a T>)
        ensures
            old(self)@.len() == 0 ==> r is None && final(self)@ == old(self)@,
            old(self)@.len() > 0 ==> r == Some(&old(self)@[0]) && final(self)@ == old(self)@.drop_first(),
    {
        proof {
            (*self.next).lemma_elems_shape();
        }
        match self.next {
            ListCell::Nil => None,
            ListCell::Cons(head, tail) => {
                self.next = &**tail;
                Some(head)
            },
        }
    }

    /// The number of elements not yet handed out; consumes the iterator.
    pub fn count(self) -> (n: usize)
        requires
            self@.len() <= usize::MAX,
        ensures
            n == self@.len(),
    {
        let mut it = self;
        let ghost total = self@.len();
        let mut n: usize = 0;
        while !it.is_done()
            invariant
                n + it@.len() == total,
                total <= usize::MAX,
            decreases it@.len(),
        {
            it.next();
            n = n + 1;
        }
        n
    }

    /// Skips `n` elements and hands out the next one, or `None` when fewer
    /// than `n + 1` elements were left.
    pub fn nth(&mut self, n: usize) -> (r: Option<&'a T>)
        ensures
            n < old(self)@.len() ==> r == Some(&old(self)@[n as int]) && final(self)@
                == old(self)@.skip(n + 1),
            n >= old(self)@.len() ==> r is None && final(self)@.len() == 0,
    {
        let ghost orig = self@;
        let mut k: usize = 0;
        while k < n
            invariant
                k <= n,
                k <= orig.len() ==> self@ == orig.skip(k as int),
                k > orig.len() ==> self@.len() == 0,
            decreases n - k,
        {
            let ghost before = self@;
            self.next();
            proof {
                if k < orig.len() {
                    assert(orig.skip(k as int).drop_first() =~= orig.skip(k + 1));
                }
            }
            k = k + 1;
        }
        let ghost before = self@;
        let r = self.next();
        proof {
            if n < orig.len() {
                assert(orig.skip(n as int).drop_first() =~= orig.skip(n + 1));
            }
        }
        r
    }
}

} // verus!
