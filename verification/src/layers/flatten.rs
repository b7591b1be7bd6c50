use vstd::prelude::*;

verus! {

/// Flattens every item of a batch into one row.
pub struct FlattenLayer;

/// Restores the shape that a batch had before it was flattened.
pub struct DerivativeFlatten {
    pub input_shape: Vec<usize>,
}

/// The number of elements of a shape.
pub open spec fn shape_size(dims: Seq<usize>) -> nat
    decreases dims.len(),
{
    if dims.len() == 0 {
        1
    } else {
        (dims[0] as nat) * shape_size(dims.drop_first())
    }
}

impl FlattenLayer {
    /// The `(items, elements per item)` shape of a flattened batch of
    /// shape `dims` holding `elem_count` elements; there is none for a batch
    /// of no items.
    pub fn output_dims(&self, dims: &Vec<usize>, elem_count: usize) -> (r: Option<(usize, usize)>)
        requires
            dims@.len() >= 1,
            elem_count == shape_size(dims@),
        ensures
            dims@[0] == 0 <==> r is None,
            r matches Some((n, rest)) ==> n == dims@[0] && rest == shape_size(dims@.drop_first())
                && n * rest == elem_count,
    {
        let n = dims[0];
        if n == 0 {
            return None;
        }
        let ghost tail = shape_size(dims@.drop_first()) as int;
        assert(elem_count == n * tail);
        assert((elem_count as int) / (n as int) == tail) by (nonlinear_arith)
            requires
                elem_count == n * tail,
                n > 0,
                tail >= 0,
        ;
        Some((n, elem_count / n))
    }

    /// The backward morphism of flattening a batch of shape `dims`.
    pub fn derivative_for(&self, dims: &Vec<usize>) -> (r: DerivativeFlatten)
        ensures
            r.input_shape@ == dims@,
    {
        let mut shape: Vec<usize> = Vec::new();
        let mut i: usize = 0;
        while i < dims.len()
            invariant
                i <= dims@.len(),
                shape@ == dims@.subrange(0, i as int),
            decreases dims@.len() - i,
        {
            shape.push(dims[i]);
            i += 1;
        }
        assert(shape@ =~= dims@);
        DerivativeFlatten { input_shape: shape }
    }
}

} // verus!
