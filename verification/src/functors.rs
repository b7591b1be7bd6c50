use vstd::prelude::*;
use std::marker::PhantomData;
use std::rc::Rc;
use crate::currying_morphism::CurryingMorphism;
use crate::derivative::DerivativeMorphism;
use crate::errors::{shape_error_text, CategoryError, CategoryResult};
use crate::ndarray_specs::{
    image_array_dim, image_array_from_shape_vec, image_array_into_vec, image_dims, image_elems,
    ImageArray,
};
use crate::morphism::Morphism;

verus! {

/// A container that can be taken apart into its elements and its shape.
pub trait Collection: Sized {
    type Item;
    type Shape: Clone;

    spec fn spec_shape(&self) -> Self::Shape;

    /// The elements in their logical order.
    spec fn spec_elements(&self) -> Seq<Self::Item>;

    fn shape(&self) -> (r: Self::Shape)
        ensures
            r == self.spec_shape(),
    ;

    fn into_elements(self) -> (r: Vec<Self::Item>)
        ensures
            r@ == self.spec_elements(),
    ;
}

/// A container that can be put together again from a shape and elements.
pub trait Rebuild<A>: Sized {
    type Shape;

    /// `result` is what `rebuild` may give back for `shape` and `items`.
    open spec fn rebuild_rel(shape: Self::Shape, items: Seq<A>, result: CategoryResult<Self>) -> bool {
        true
    }

    fn rebuild(shape: Self::Shape, items: Vec<A>) -> (r: CategoryResult<Self>)
        ensures
            Self::rebuild_rel(shape, items@, r),
    ;
}

impl<A> Collection for Vec<A> {
    type Item = A;
    type Shape = usize;

    open spec fn spec_shape(&self) -> usize {
        self@.len() as usize
    }

    open spec fn spec_elements(&self) -> Seq<A> {
        self@
    }

    fn shape(&self) -> (r: usize) {
        self.len()
    }

    fn into_elements(self) -> (r: Vec<A>) {
        self
    }
}

impl<A> Rebuild<A> for Vec<A> {
    type Shape = usize;

    /// The shape is not consulted: the elements become the vector.
    open spec fn rebuild_rel(shape: usize, items: Seq<A>, result: CategoryResult<Vec<A>>) -> bool {
        result matches Ok(v) && v@ == items
    }

    fn rebuild(shape: usize, items: Vec<A>) -> (r: CategoryResult<Vec<A>>) {
        Ok(items)
    }
}

/// The (rows, columns) shape of a two-dimensional array.
#[derive(Clone, Copy, Debug)]
pub struct ArrayShape {
    pub rows: usize,
    pub cols: usize,
}

/// A byte array is taken apart into its elements row after row.
impl Collection for ImageArray {
    type Item = u8;
    type Shape = ArrayShape;

    open spec fn spec_shape(&self) -> ArrayShape {
        ArrayShape { rows: image_dims(*self).0, cols: image_dims(*self).1 }
    }

    open spec fn spec_elements(&self) -> Seq<u8> {
        image_elems(*self)
    }

    fn shape(&self) -> (r: ArrayShape) {
        let (rows, cols) = image_array_dim(self);
        ArrayShape { rows, cols }
    }

    fn into_elements(self) -> (r: Vec<u8>) {
        image_array_into_vec(self)
    }
}

impl Rebuild<u8> for ImageArray {
    type Shape = ArrayShape;

    /// The elements fill the shape row after row. This succeeds when the
    /// shape holds exactly the elements and no size exceeds `isize::MAX`;
    /// a refusal is an `ndarray` shape error.
    open spec fn rebuild_rel(shape: ArrayShape, items: Seq<u8>, result: CategoryResult<ImageArray>) -> bool {
        &&& shape.rows * shape.cols == items.len() && items.len() <= isize::MAX && shape.rows
            <= isize::MAX && shape.cols <= isize::MAX ==> result is Ok
        &&& match result {
            Ok(a) => image_dims(a) == (shape.rows, shape.cols) && image_elems(a) == items,
            Err(e) => e matches CategoryError::InvalidInput(msg) && exists|se: ndarray::ShapeError|
                msg@ == "ndarray shape error: "@ + #[trigger] shape_error_text(se),
        }
    }

    fn rebuild(shape: ArrayShape, items: Vec<u8>) -> (r: CategoryResult<ImageArray>) {
        match image_array_from_shape_vec(shape.rows, shape.cols, items) {
            Ok(a) => Ok(a),
            Err(e) => Err(CategoryError::from_shape_error(e)),
        }
    }
}

/// The results of applying `m` to each of `elems` in turn, stopping at the
/// first error: either every element is mapped, or the first failing
/// element's error comes back.
pub open spec fn map_rel<M: Morphism>(
    m: M,
    elems: Seq<M::Input>,
    result: CategoryResult<Seq<M::Output>>,
) -> bool {
    match result {
        Ok(items) => items.len() == elems.len() && forall|i: int|
            0 <= i < elems.len() ==> #[trigger] m.apply_rel(elems[i], Ok(items[i])),
        Err(e) => exists|k: int|
            0 <= k < elems.len() && (forall|i: int| 0 <= i < k ==> #[trigger] maps_ok(m, elems[i]))
                && #[trigger] m.apply_rel(elems[k], Err(e)),
    }
}

/// `m` may succeed on `x`.
pub open spec fn maps_ok<M: Morphism>(m: M, x: M::Input) -> bool {
    exists|b: M::Output| #[trigger] m.apply_rel(x, Ok(b))
}

/// Lifts a morphism on elements to a morphism on collections.
pub struct CollectionFunctor<MPhism, Input, Output> {
    morphism: MPhism,
    _marker: PhantomData<(Input, Output)>,
}

impl<MPhism, Input, Output> CollectionFunctor<MPhism, Input, Output> {
    pub closed spec fn inner(&self) -> MPhism {
        self.morphism
    }

    pub fn new(morphism: MPhism) -> (r: Self)
        ensures
            r.inner() == morphism,
    {
        Self { morphism, _marker: PhantomData }
    }
}

/// The results of the lifted morphism: map the elements, then rebuild with
/// the input's shape.
pub open spec fn functor_rel<M: Morphism, I: Collection<Item = M::Input>, O: Rebuild<
    M::Output,
    Shape = I::Shape,
>>(m: M, input: I, output: CategoryResult<O>) -> bool {
    exists|mapped: CategoryResult<Seq<M::Output>>|
        #[trigger] map_rel(m, input.spec_elements(), mapped) && match mapped {
            Ok(items) => O::rebuild_rel(input.spec_shape(), items, output),
            Err(e) => output == Err::<O, CategoryError>(e),
        }
}

impl<MPhism, Input, Output> Morphism for CollectionFunctor<MPhism, Input, Output> where
    MPhism: Morphism,
    Input: Collection<Item = MPhism::Input>,
    Output: Rebuild<MPhism::Output, Shape = Input::Shape>,
 {
    type Input = Input;
    type Output = Output;

    open spec fn apply_rel(&self, input: Input, output: CategoryResult<Output>) -> bool {
        functor_rel(self.inner(), input, output)
    }

    open spec fn name_rel(&self, name: &'static str) -> bool {
        name@ == "collection functor"@
    }

    fn name(&self) -> (r: &'static str)
        ensures
            r@ == "collection functor"@,
    {
        "collection functor"
    }

    fn apply(&self, input: Input) -> (r: CategoryResult<Output>) {
        let ghost input0 = input;
        let ghost elems = input.spec_elements();
        let ghost shape0 = input.spec_shape();
        let shape = input.shape();
        let mut rest = input.into_elements();
        let n = rest.len();
        // Move the elements onto a stack, last one first, so that popping
        // hands them out in their original order.
        let mut stack: Vec<MPhism::Input> = Vec::new();
        while rest.len() > 0
            invariant
                rest.len() + stack.len() == n,
                n == elems.len(),
                elems == input0.spec_elements(),
                rest@ == elems.subrange(0, rest.len() as int),
                forall|i: int| 0 <= i < stack.len() ==> #[trigger] stack@[i] == elems[n - 1 - i],
            decreases rest.len(),
        {
            let x = rest.pop().unwrap();
            stack.push(x);
        }
        let mut mapped: Vec<MPhism::Output> = Vec::new();
        while stack.len() > 0
            invariant
                mapped.len() + stack.len() == n,
                n == elems.len(),
                input0 == input,
                elems == input0.spec_elements(),
                forall|i: int| 0 <= i < stack.len() ==> #[trigger] stack@[i] == elems[n - 1 - i],
                forall|i: int|
                    0 <= i < mapped.len() ==> #[trigger] self.morphism.apply_rel(
                        elems[i],
                        Ok(mapped@[i]),
                    ),
            decreases stack.len(),
        {
            let k = mapped.len();
            let x = stack.pop().unwrap();
            assert(x == elems[k as int]);
            match self.morphism.apply(x) {
                Ok(y) => {
                    mapped.push(y);
                },
                Err(e) => {
                    let ghost res: CategoryResult<Seq<MPhism::Output>> = Err(e);
                    assert forall|i: int| 0 <= i < k implies #[trigger] maps_ok(
                        self.morphism,
                        elems[i],
                    ) by {
                        assert(self.morphism.apply_rel(elems[i], Ok(mapped@[i])));
                    }
                    assert(map_rel(self.morphism, elems, res));
                    assert(map_rel(self.inner(), input0.spec_elements(), res));
                    let r: CategoryResult<Output> = Err(e);
                    assert(functor_rel(self.inner(), input0, r));
                    return r;
                },
            }
        }
        let ghost res: CategoryResult<Seq<MPhism::Output>> = Ok(mapped@);
        assert(map_rel(self.inner(), input0.spec_elements(), res));
        Output::rebuild(shape, mapped)
    }
}

impl<MPhism, Input, Output> DerivativeMorphism for CollectionFunctor<MPhism, Input, Output> where
    MPhism: DerivativeMorphism,
    Input: Collection<Item = MPhism::Input>,
    Output: Rebuild<MPhism::Output, Shape = Input::Shape>,
 {
    type Input = Input;
    type Curry = MPhism::Curry;
    type Output = Output;
    type Derivative = CollectionFunctor<Rc<MPhism::Derivative>, Input, Output>;

    /// The derivative lifts the element derivative.
    open spec fn derivative_rel(&self, input: MPhism::Curry, derivative: Self::Derivative) -> bool {
        self.inner().derivative_rel(input, *derivative.inner())
    }

    fn derivative(&self, input: MPhism::Curry) -> (r: Rc<Self::Derivative>) {
        Rc::new(CollectionFunctor::new(self.morphism.derivative(input)))
    }
}

impl<MPhism, Input, Output> CurryingMorphism for CollectionFunctor<MPhism, Input, Output> where
    MPhism: CurryingMorphism,
    Input: Collection<Item = MPhism::Input>,
    Output: Rebuild<MPhism::Output, Shape = Input::Shape>,
 {
    type Params = MPhism::Params;
    type Input = Input;
    type Output = Output;
    type Curried = CollectionFunctor<Rc<MPhism::Curried>, Input, Output>;

    /// Currying lifts the curried element morphism.
    open spec fn curry_rel(&self, params: MPhism::Params, curried: Self::Curried) -> bool {
        self.inner().curry_rel(params, *curried.inner())
    }

    fn curry(&self, params: &MPhism::Params) -> (r: Rc<Self::Curried>) {
        Rc::new(CollectionFunctor::new(self.morphism.curry(params)))
    }
}

} // verus!

verus! {

/// Mapping with `f ; g` succeeds with `outs` exactly when mapping with `f`
/// succeeds with some `mids` and mapping `g` over `mids` succeeds with
/// `outs`: the functor keeps composition on successful runs.
pub proof fn lemma_map_composition<F: Morphism, G: Morphism<Input = F::Output>>(
    f: F,
    g: G,
    elems: Seq<F::Input>,
    outs: Seq<G::Output>,
)
    ensures
        map_rel(crate::morphism::Compose::<F, G>::spec_new(f, g), elems, Ok(outs)) <==> exists|
            mids: Seq<F::Output>,
        | #[trigger] map_rel(f, elems, Ok(mids)) && map_rel(g, mids, Ok(outs)),
{
    let fg = crate::morphism::Compose::<F, G>::spec_new(f, g);
    crate::morphism::Compose::<F, G>::lemma_spec_new(f, g);
    if map_rel(fg, elems, Ok(outs)) {
        let mids = Seq::new(
            elems.len(),
            |i: int|
                {
                    let m = choose|m: CategoryResult<F::Output>| #[trigger]
                        f.apply_rel(elems[i], m) && crate::morphism::then_rel(g, m, Ok(outs[i]));
                    match m {
                        Ok(x) => x,
                        Err(_) => arbitrary(),
                    }
                },
        );
        assert forall|i: int| 0 <= i < elems.len() implies #[trigger] f.apply_rel(
            elems[i],
            Ok(mids[i]),
        ) && g.apply_rel(mids[i], Ok(outs[i])) by {
            assert(fg.apply_rel(elems[i], Ok(outs[i])));
            let m = choose|m: CategoryResult<F::Output>| #[trigger]
                f.apply_rel(elems[i], m) && crate::morphism::then_rel(g, m, Ok(outs[i]));
            assert(m is Ok);
        }
        assert forall|i: int| 0 <= i < mids.len() implies #[trigger] g.apply_rel(
            mids[i],
            Ok(outs[i]),
        ) by {
            assert(f.apply_rel(elems[i], Ok(mids[i])));
        }
        assert(map_rel(f, elems, Ok(mids)));
        assert(map_rel(g, mids, Ok(outs)));
    }
    if exists|mids: Seq<F::Output>| #[trigger] map_rel(f, elems, Ok(mids)) && map_rel(g, mids, Ok(outs)) {
        let mids = choose|mids: Seq<F::Output>| #[trigger] map_rel(f, elems, Ok(mids)) && map_rel(g, mids, Ok(outs));
        assert forall|i: int| 0 <= i < elems.len() implies #[trigger] fg.apply_rel(
            elems[i],
            Ok(outs[i]),
        ) by {
            let m: CategoryResult<F::Output> = Ok(mids[i]);
            assert(f.apply_rel(elems[i], m) && crate::morphism::then_rel(g, m, Ok(outs[i])));
        }
    }
}

} // verus!
