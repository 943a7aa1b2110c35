//! Column vectors of binary64 bit patterns.

use vstd::prelude::*;
use crate::binary64::{is_finite, finite};

verus! {

/// A column vector of fixed length, each item holding the bit pattern of one
/// binary64 number. The items are kept in an `nalgebra::DVector<u64>`.
#[verifier::external_body]
#[derive(Debug, PartialEq, Eq)]
pub struct Vector {
    items: nalgebra::DVector<u64>,
}

/// The items of a vector, first to last: `vector_items(v)[i]` is what nalgebra
/// returns for the index `i`.
pub uninterp spec fn vector_items(v: Vector) -> Seq<u64>;

impl View for Vector {
    type V = Seq<u64>;

    open spec fn view(&self) -> Seq<u64> {
        vector_items(*self)
    }
}

impl Vector {
    /// Whether every item is a finite number.
    pub open spec fn all_finite(&self) -> bool {
        forall|i: int| 0 <= i < self@.len() ==> is_finite(#[trigger] self@[i])
    }

    /// `nalgebra::DVector::from_vec`: the vector whose items are those of
    /// `data`, in the same order.
    #[verifier::external_body]
    pub(crate) fn raw_from_vec(data: Vec<u64>) -> (v: Vector)
        ensures
            vector_items(v) == data@,
    {
        Vector { items: nalgebra::DVector::from_vec(data) }
    }

    /// `Clone::clone` of an `nalgebra::DVector`: a vector with the same items.
    #[verifier::external_body]
    pub(crate) fn raw_clone(&self) -> (v: Vector)
        ensures
            vector_items(v) == vector_items(*self),
    {
        Vector { items: self.items.clone() }
    }

    /// `nalgebra::Matrix::len`: the number of items.
    #[verifier::external_body]
    pub(crate) fn raw_len(&self) -> (n: usize)
        ensures
            n == vector_items(*self).len(),
    {
        self.items.len()
    }

    /// Indexing an `nalgebra::DVector` by position: the item at that place.
    /// The index has to be below the length.
    #[verifier::external_body]
    pub(crate) fn raw_get(&self, i: usize) -> (v: u64)
        requires
            i < vector_items(*self).len(),
        ensures
            v == vector_items(*self)[i as int],
    {
        self.items[i]
    }

    /// The vector whose items are those of `data`, in the same order.
    pub fn from_vec(data: Vec<u64>) -> (v: Vector)
        ensures
            v@ == data@,
    {
        Vector::raw_from_vec(data)
    }

    /// The number of items.
    pub fn len(&self) -> (n: usize)
        ensures
            n == self@.len(),
    {
        self.raw_len()
    }

    /// The item at position `i`, or `None` when the vector is shorter.
    pub fn get(&self, i: usize) -> (v: Option<u64>)
        ensures
            v == if i < self@.len() {
                Some(self@[i as int])
            } else {
                None
            },
    {
        if i < self.raw_len() {
            Some(self.raw_get(i))
        } else {
            None
        }
    }

    /// The items, first to last.
    pub fn to_vec(&self) -> (data: Vec<u64>)
        ensures
            data@ == self@,
    {
        let n = self.raw_len();
        let mut data: Vec<u64> = Vec::new();
        let mut i: usize = 0;
        while i < n
            invariant
                n == self@.len(),
                i <= n,
                data@ == self@.take(i as int),
            decreases n - i,
        {
            data.push(self.raw_get(i));
            assert(self@.take(i as int).push(self@[i as int]) == self@.take(i + 1));
            i += 1;
        }
        assert(self@.take(n as int) == self@);
        data
    }

    /// Whether every item is a finite number.
    pub fn is_finite(&self) -> (r: bool)
        ensures
            r == self.all_finite(),
    {
        let n = self.raw_len();
        let mut i: usize = 0;
        while i < n
            invariant
                n == self@.len(),
                i <= n,
                forall|a: int| 0 <= a < i ==> is_finite(#[trigger] self@[a]),
            decreases n - i,
        {
            if !finite(self.raw_get(i)) {
                assert(!is_finite(self@[i as int]));
                return false;
            }
            i += 1;
        }
        true
    }
}

impl Clone for Vector {
    /// A vector with the same items.
    fn clone(&self) -> (v: Self)
        ensures
            v@ == self@,
    {
        self.raw_clone()
    }
}

} // verus!
