use vstd::prelude::*;

verus! {

/// A type with an empty value and an associative combination.
pub trait Monoid: Sized {
    fn empty() -> Self;

    fn combine(&self, other: &Self) -> Self;
}

} // verus!
