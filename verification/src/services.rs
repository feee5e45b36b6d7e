//! Type-level lists for composing handler extractions: a heterogeneous
//! list is a chain of [`Product`]s ending in `()`, two lists combine by
//! appending, and a one-element tuple is the smallest extraction.
use vstd::prelude::*;

verus! {

/// A heterogeneous list cell: a head and the rest of the list.
#[derive(Debug)]
pub struct Product<H, T: HList>(pub H, pub T);

/// A one-element tuple.
pub fn one<T>(val: T) -> (r: (T,))
    ensures
        r.0 == val,
{
    (val,)
}

/// One of two values.
#[derive(Debug)]
pub enum Either<T, U> {
    A(T),
    B(U),
}

/// A heterogeneous list, flattenable into a tuple (the tuple's side
/// states that the two views correspond).
pub trait HList: Sized {
    type Tuple;

    fn flatten(self) -> Self::Tuple;
}

/// A tuple, viewable as a heterogeneous list.
pub trait Tuple: Sized {
    type HList: HList<Tuple = Self>;

    fn hlist(self) -> Self::HList;
}

/// Appending one heterogeneous list to another.
pub trait Combine<T: HList> {
    type Output: HList;

    fn combine(self, other: T) -> Self::Output;
}

/// Appending to the empty list gives the other list.
impl<T: HList> Combine<T> for () {
    type Output = T;

    fn combine(self, other: T) -> (r: T)
        ensures
            r == other,
    {
        other
    }
}

/// Appending to a cell keeps its head and appends to its tail.
impl<H, T: HList, U: HList> Combine<U> for Product<H, T> where
    T: Combine<U>,
    Product<H, <T as Combine<U>>::Output>: HList,
 {
    type Output = Product<H, <T as Combine<U>>::Output>;

    fn combine(self, other: U) -> (r: Product<H, <T as Combine<U>>::Output>)
        ensures
            r.0 == self.0,
    {
        Product(self.0, self.1.combine(other))
    }
}

/// A unit of request handling: runs to an extraction or an error.
pub trait Handler: Sized {
    type Extract: Tuple;
    type Error;
    type Future: core::future::Future<Output = Result<Self::Extract, Self::Error>>;

    fn handle(self) -> Self::Future;
}

/// Two handlers run one after the other, their extractions combined.
#[derive(Clone, Copy, Debug)]
pub struct And<T, U> {
    pub first: T,
    pub second: U,
}

} // verus!
