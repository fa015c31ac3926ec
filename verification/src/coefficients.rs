//! The coefficient storage: a growable sequence of rationals that keeps up
//! to eight of them inline.
//!
//! The sequence is a `SmallVec` of the `smallvec` crate. The verifier does
//! not look inside it; it sees the sequence of values that it holds, and
//! believes what the functions marked as trusted say of `smallvec`'s methods.

use crate::rational::Rational;
use smallvec::SmallVec;
use vstd::prelude::*;

verus! {

/// A sequence of rational coefficients.
///
/// Trusted: the verifier does not look inside this type. It holds a
/// `SmallVec` with room for eight items inline, and nothing else.
#[verifier::external_body]
#[derive(Debug, PartialEq, Eq, PartialOrd, Ord)]
pub struct Coefficients {
    inner: SmallVec<[Rational; 8]>,
}

/// The values that the sequence holds, first to last. Nothing is known of
/// it but what the trusted functions below say.
pub uninterp spec fn stored(c: Coefficients) -> Seq<real>;

/// The values of a sequence of rationals.
pub open spec fn values(s: Seq<Rational>) -> Seq<real> {
    Seq::new(s.len(), |i: int| s[i]@)
}

impl View for Coefficients {
    type V = Seq<real>;

    closed spec fn view(&self) -> Seq<real> {
        stored(*self)
    }
}

impl Coefficients {
    /// Trusted: `SmallVec::new` makes an empty vector.
    #[verifier::external_body]
    fn store_new() -> (c: Coefficients)
        ensures
            stored(c) == Seq::<real>::empty(),
    {
        Coefficients { inner: SmallVec::new() }
    }

    /// Trusted: `SmallVec::from_vec` keeps the items of the vector in their
    /// order.
    #[verifier::external_body]
    fn store_from_vec(items: Vec<Rational>) -> (c: Coefficients)
        ensures
            stored(c) == values(items@),
    {
        Coefficients { inner: SmallVec::from_vec(items) }
    }

    /// Trusted: `SmallVec::into_vec` hands out the items in their order.
    #[verifier::external_body]
    fn store_into_vec(self) -> (items: Vec<Rational>)
        ensures
            values(items@) == stored(self),
    {
        self.inner.into_vec()
    }

    /// Trusted: `SmallVec::len` is the number of items.
    #[verifier::external_body]
    fn store_len(&self) -> (n: usize)
        ensures
            n == stored(*self).len(),
    {
        self.inner.len()
    }

    /// Trusted: `SmallVec::push` appends the item.
    #[verifier::external_body]
    fn store_push(&mut self, item: Rational)
        ensures
            stored(*final(self)) == stored(*old(self)).push(item@),
    {
        self.inner.push(item)
    }

    /// Trusted: `SmallVec::pop` removes the last item and returns it, or
    /// returns `None` and changes nothing when there is no item.
    #[verifier::external_body]
    fn store_pop(&mut self) -> (item: Option<Rational>)
        ensures
            stored(*old(self)).len() == 0 ==> item is None && stored(*final(self)) == stored(
                *old(self),
            ),
            stored(*old(self)).len() > 0 ==> item is Some && item->Some_0@ == stored(
                *old(self),
            ).last() && stored(*final(self)) == stored(*old(self)).drop_last(),
    {
        self.inner.pop()
    }

    /// Trusted: `Index::index` of a `SmallVec` with a position below its
    /// length borrows the item there. It panics on any other position,
    /// which `requires` leaves out.
    #[verifier::external_body]
    fn store_index(&self, i: usize) -> (item: &Rational)
        requires
            i < stored(*self).len(),
        ensures
            item@ == stored(*self)[i as int],
    {
        &self.inner[i]
    }

    /// Trusted: `IndexMut::index_mut` of a `SmallVec` with a position below
    /// its length borrows the item there for writing; the other items stay.
    /// It panics on any other position, which `requires` leaves out.
    #[verifier::external_body]
    fn store_index_mut(&mut self, i: usize) -> (item: &mut Rational)
        requires
            i < stored(*old(self)).len(),
        ensures
            item@ == stored(*old(self))[i as int],
            stored(*final(self)) == stored(*old(self)).update(i as int, final(item)@),
    {
        &mut self.inner[i]
    }

    /// Trusted: `<[T]>::reverse`, reached through the vector's `DerefMut`,
    /// reverses the order of the items in place.
    #[verifier::external_body]
    fn store_reverse(&mut self)
        ensures
            stored(*final(self)) == stored(*old(self)).reverse(),
    {
        self.inner.reverse()
    }

    /// Trusted: `Clone::clone` of a `SmallVec` clones each item in order.
    #[verifier::external_body]
    fn store_clone(&self) -> (c: Coefficients)
        ensures
            stored(c) == stored(*self),
    {
        Coefficients { inner: self.inner.clone() }
    }

    /// An empty sequence.
    pub fn new() -> (c: Coefficients)
        ensures
            c@ == Seq::<real>::empty(),
    {
        Coefficients::store_new()
    }

    /// The sequence of the items of `items`, in their order.
    pub fn from_vec(items: Vec<Rational>) -> (c: Coefficients)
        ensures
            c@ == values(items@),
    {
        Coefficients::store_from_vec(items)
    }

    /// The items of the sequence, in their order.
    pub fn into_vec(self) -> (items: Vec<Rational>)
        ensures
            values(items@) == self@,
    {
        self.store_into_vec()
    }

    /// The number of items.
    pub fn len(&self) -> (n: usize)
        ensures
            n == self@.len(),
    {
        self.store_len()
    }

    /// Whether there is no item.
    pub fn is_empty(&self) -> (b: bool)
        ensures
            b == (self@.len() == 0),
    {
        self.store_len() == 0
    }

    /// Appends `item`.
    pub fn push(&mut self, item: Rational)
        ensures
            final(self)@ == old(self)@.push(item@),
    {
        self.store_push(item)
    }

    /// Removes the last item and returns it; `None`, and no change, when
    /// the sequence is empty.
    pub fn pop(&mut self) -> (item: Option<Rational>)
        ensures
            old(self)@.len() == 0 ==> item is None && final(self)@ == old(self)@,
            old(self)@.len() > 0 ==> item is Some && item->Some_0@ == old(self)@.last()
                && final(self)@ == old(self)@.drop_last(),
    {
        self.store_pop()
    }

    /// The item at position `i`.
    pub fn get(&self, i: usize) -> (item: &Rational)
        requires
            i < self@.len(),
        ensures
            item@ == self@[i as int],
    {
        self.store_index(i)
    }

    /// The item at position `i`, for writing.
    pub fn get_mut(&mut self, i: usize) -> (item: &mut Rational)
        requires
            i < old(self)@.len(),
        ensures
            item@ == old(self)@[i as int],
            final(self)@ == old(self)@.update(i as int, final(item)@),
    {
        self.store_index_mut(i)
    }

    /// Replaces the item at position `i` by `item`.
    pub fn set(&mut self, i: usize, item: Rational)
        requires
            i < old(self)@.len(),
        ensures
            final(self)@ == old(self)@.update(i as int, item@),
    {
        let slot = self.store_index_mut(i);
        *slot = item;
    }

    /// Reverses the order of the items.
    pub fn reverse(&mut self)
        ensures
            final(self)@ == old(self)@.reverse(),
    {
        self.store_reverse()
    }
}

impl Clone for Coefficients {
    fn clone(&self) -> (c: Coefficients)
        ensures
            c@ == self@,
    {
        self.store_clone()
    }
}

} // verus!
