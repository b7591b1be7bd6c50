use vstd::prelude::*;
use crate::layers::layer::Layer;

verus! {

/// A fully connected layer from `in_features` to `out_features`.
pub struct LinearLayer {
    pub in_features: usize,
    pub out_features: usize,
}

impl LinearLayer {
    pub fn new(in_features: usize, out_features: usize) -> (r: Self)
        ensures
            r.in_features == in_features,
            r.out_features == out_features,
    {
        Self { in_features, out_features }
    }
}

impl Layer for LinearLayer {
    fn features(&self) -> (r: (usize, usize))
        ensures
            r == (self.in_features, self.out_features),
    {
        (self.in_features, self.out_features)
    }
}

} // verus!
