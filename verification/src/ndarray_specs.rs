use vstd::prelude::*;
use ndarray::{Array1, Array2};

verus! {

/// A one-dimensional `ndarray` array of bytes (the labels of a data set).
#[verifier::external_body]
pub struct LabelArray {
    array: Array1<u8>,
}

/// A two-dimensional `ndarray` array of bytes (one image per row).
#[verifier::external_body]
pub struct ImageArray {
    array: Array2<u8>,
}

#[verifier::external_type_specification]
#[verifier::external_body]
pub struct ExShapeError(ndarray::ShapeError);

/// The elements of a label array, in order.
pub uninterp spec fn label_elems(a: LabelArray) -> Seq<u8>;

/// The elements of an image array, row after row.
pub uninterp spec fn image_elems(a: ImageArray) -> Seq<u8>;

/// The (rows, columns) shape of an image array.
pub uninterp spec fn image_dims(a: ImageArray) -> (usize, usize);

/// `Array1::from_vec`: the array holds the vector's elements in order.
#[verifier::external_body]
pub(crate) fn label_array_from_vec(v: Vec<u8>) -> (r: LabelArray)
    ensures
        label_elems(r) == v@,
{
    LabelArray { array: Array1::from_vec(v) }
}

/// `ArrayBase::len`: the number of labels.
#[verifier::external_body]
pub(crate) fn label_array_len(a: &LabelArray) -> (r: usize)
    ensures
        r == label_elems(*a).len(),
{
    a.array.len()
}

/// Indexing in bounds gives that label.
#[verifier::external_body]
pub(crate) fn label_array_get(a: &LabelArray, i: usize) -> (r: u8)
    requires
        i < label_elems(*a).len(),
    ensures
        r == label_elems(*a)[i as int],
{
    a.array[i]
}

/// `ArrayBase::clone`: an array with the same labels.
#[verifier::external_body]
pub(crate) fn label_array_clone(a: &LabelArray) -> (r: LabelArray)
    ensures
        label_elems(r) == label_elems(*a),
{
    LabelArray { array: a.array.clone() }
}

/// `Array2::from_shape_vec` with a row-major `(rows, cols)` shape: it
/// succeeds when the shape holds exactly the vector's elements and no size
/// exceeds `isize::MAX`, and then keeps the elements in order.
#[verifier::external_body]
pub(crate) fn image_array_from_shape_vec(rows: usize, cols: usize, v: Vec<u8>) -> (r: Result<
    ImageArray,
    ndarray::ShapeError,
>)
    ensures
        rows * cols == v@.len() && v@.len() <= isize::MAX && rows <= isize::MAX && cols
            <= isize::MAX ==> r is Ok,
        r matches Ok(a) ==> image_dims(a) == (rows, cols) && image_elems(a) == v@ && rows * cols
            == v@.len(),
{
    match Array2::from_shape_vec((rows, cols), v) {
        Ok(array) => Ok(ImageArray { array }),
        Err(e) => Err(e),
    }
}

/// `ArrayBase::dim`: (rows, columns); the elements are that many.
#[verifier::external_body]
pub(crate) fn image_array_dim(a: &ImageArray) -> (r: (usize, usize))
    ensures
        r == image_dims(*a),
        image_elems(*a).len() == r.0 * r.1,
{
    a.array.dim()
}

/// `ArrayBase::select` along the rows: row `k` of the result is row
/// `indices[k]` of `a`.
#[verifier::external_body]
pub(crate) fn image_array_select_rows(a: &ImageArray, indices: &[usize]) -> (r: ImageArray)
    requires
        forall|k: int| 0 <= k < indices@.len() ==> #[trigger] indices@[k] < image_dims(*a).0,
    ensures
        image_dims(r) == (indices@.len() as usize, image_dims(*a).1),
        image_elems(r).len() == indices@.len() * image_dims(*a).1,
        forall|k: int, c: int|
            0 <= k < indices@.len() && 0 <= c < image_dims(*a).1 ==> #[trigger] image_elems(r)[k
                * image_dims(*a).1 + c] == image_elems(*a)[indices@[k] * image_dims(*a).1 + c],
{
    ImageArray { array: a.array.select(ndarray::Axis(0), indices) }
}

/// `ArrayBase::row` copied out: the elements of row `i`.
#[verifier::external_body]
pub(crate) fn image_array_row(a: &ImageArray, i: usize) -> (r: Vec<u8>)
    requires
        i < image_dims(*a).0,
    ensures
        r@ == image_elems(*a).subrange(
            i * image_dims(*a).1,
            (i + 1) * image_dims(*a).1,
        ),
{
    a.array.row(i).to_vec()
}

/// An owned array's `into_iter`, collected: the elements in logical
/// (row after row) order.
#[verifier::external_body]
pub(crate) fn image_array_into_vec(a: ImageArray) -> (r: Vec<u8>)
    ensures
        r@ == image_elems(a),
{
    a.array.into_iter().collect()
}

/// `ArrayBase::clone`: an array with the same shape and elements.
#[verifier::external_body]
pub(crate) fn image_array_clone(a: &ImageArray) -> (r: ImageArray)
    ensures
        image_elems(r) == image_elems(*a),
        image_dims(r) == image_dims(*a),
{
    ImageArray { array: a.array.clone() }
}

} // verus!
