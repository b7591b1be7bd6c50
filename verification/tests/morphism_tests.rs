use category_nn::currying_morphism::DerivatibleCurryingMorphism;
use category_nn::derivative::{DerivativeMonoid, DerivativeMorphism};
use category_nn::errors::{CategoryError, CategoryResult};
use category_nn::functors::{ArrayShape, Collection, CollectionFunctor, Rebuild};
use category_nn::ndarray_specs::ImageArray;
use category_nn::layers::layer::{Layer, LayerShape};
use category_nn::monoid::Monoid;
use category_nn::morphism::{compose, Compose, Morphism};
use category_nn::sequential::{DerivativedLayer, Layer as SeqLayer, Sequential};
use std::rc::Rc;

struct AddOne;

impl Morphism for AddOne {
    type Input = i64;
    type Output = i64;
    fn name(&self) -> &'static str {
        "add one"
    }
    fn apply(&self, input: i64) -> CategoryResult<i64> {
        Ok(input + 1)
    }
}

struct Double;

impl Morphism for Double {
    type Input = i64;
    type Output = i64;
    fn name(&self) -> &'static str {
        "double"
    }
    fn apply(&self, input: i64) -> CategoryResult<i64> {
        Ok(input * 2)
    }
}

/// Fails on negative numbers.
struct NonNegative;

impl Morphism for NonNegative {
    type Input = i64;
    type Output = i64;
    fn name(&self) -> &'static str {
        "non-negative"
    }
    fn apply(&self, input: i64) -> CategoryResult<i64> {
        if input < 0 {
            Err(CategoryError::InvalidInput(format!("negative: {input}")))
        } else {
            Ok(input)
        }
    }
}

fn invalid_text(r: CategoryResult<i64>) -> String {
    match r {
        Err(CategoryError::InvalidInput(msg)) => msg,
        _ => panic!("expected an invalid input error"),
    }
}

#[test]
fn compose_applies_first_then_second() {
    let c = Compose::new(AddOne, Double);
    assert_eq!(c.apply(3).unwrap(), 8);
    assert_eq!(c.name(), "compose");
    let d = compose(Double, AddOne);
    assert_eq!(d.apply(3).unwrap(), 7);
}

#[test]
fn compose_stops_at_first_error() {
    let c = Compose::new(NonNegative, AddOne);
    assert_eq!(invalid_text(c.apply(-5)), "negative: -5");
    let c2 = Compose::new(AddOne, NonNegative);
    assert_eq!(invalid_text(c2.apply(-5)), "negative: -4");
}

#[test]
fn compose_is_associative_on_values() {
    let left = Compose::new(Compose::new(AddOne, Double), AddOne);
    let right = Compose::new(AddOne, Compose::new(Double, AddOne));
    for x in [-3i64, 0, 1, 10] {
        assert_eq!(left.apply(x).unwrap(), right.apply(x).unwrap());
    }
}

#[test]
fn shared_morphism_behaves_as_pointee() {
    let m = Rc::new(Double);
    assert_eq!(m.apply(21).unwrap(), 42);
    assert_eq!(Morphism::name(&m), "double");
}

#[test]
fn vec_collection_and_rebuild() {
    let v = vec![1u8, 2, 3];
    assert_eq!(v.shape(), 3);
    assert_eq!(v.clone().into_elements(), vec![1u8, 2, 3]);
    let rebuilt: Vec<u8> = Rebuild::rebuild(7, vec![4u8, 5]).unwrap();
    assert_eq!(rebuilt, vec![4u8, 5]);
}

#[test]
fn collection_functor_maps_every_element() {
    let f: CollectionFunctor<Double, Vec<i64>, Vec<i64>> = CollectionFunctor::new(Double);
    assert_eq!(f.apply(vec![1, 2, 3]).unwrap(), vec![2, 4, 6]);
    assert_eq!(f.apply(vec![]).unwrap(), Vec::<i64>::new());
    assert_eq!(f.name(), "collection functor");
}

#[test]
fn collection_functor_reports_first_failing_element() {
    let f: CollectionFunctor<NonNegative, Vec<i64>, Vec<i64>> = CollectionFunctor::new(NonNegative);
    match f.apply(vec![1, -2, -3]) {
        Err(CategoryError::InvalidInput(msg)) => assert_eq!(msg, "negative: -2"),
        _ => panic!("expected the error of the second element"),
    }
}

#[test]
fn collection_functor_keeps_composition() {
    let fg: CollectionFunctor<Compose<AddOne, Double>, Vec<i64>, Vec<i64>> =
        CollectionFunctor::new(Compose::new(AddOne, Double));
    let f: CollectionFunctor<AddOne, Vec<i64>, Vec<i64>> = CollectionFunctor::new(AddOne);
    let g: CollectionFunctor<Double, Vec<i64>, Vec<i64>> = CollectionFunctor::new(Double);
    let both = Compose::new(f, g);
    let input = vec![0i64, 5, -7];
    assert_eq!(fg.apply(input.clone()).unwrap(), both.apply(input).unwrap());
}

/// `x -> x * p` for parameter `p`.
struct Scale;
struct ScaleBy(i64);
struct ScaleGrad {
    p: i64,
    x: i64,
}
/// `x -> x + 1`.
struct Shift;
struct ShiftGrad;

impl Layer for Scale {
    fn features(&self) -> (usize, usize) {
        (1, 1)
    }
}

impl LayerShape<i64, ()> for Scale {
    fn init_params(&self, _device: &()) -> CategoryResult<i64> {
        Ok(2)
    }
}

impl DerivatibleCurryingMorphism for Scale {
    type Params = i64;
    type Input = i64;
    type Curry = i64;
    type Output = i64;
    type DerivativeInput = i64;
    type DerivativeOutput = (i64, i64);
    type Curried = ScaleBy;
    fn curry(&self, params: &i64) -> Rc<ScaleBy> {
        Rc::new(ScaleBy(*params))
    }
}

impl Morphism for ScaleBy {
    type Input = i64;
    type Output = i64;
    fn name(&self) -> &'static str {
        "scale"
    }
    fn apply(&self, input: i64) -> CategoryResult<i64> {
        Ok(input * self.0)
    }
}

impl DerivativeMorphism for ScaleBy {
    type Input = i64;
    type Curry = i64;
    type Output = (i64, i64);
    type Derivative = ScaleGrad;
    fn derivative(&self, input: i64) -> Rc<ScaleGrad> {
        Rc::new(ScaleGrad { p: self.0, x: input })
    }
}

impl Morphism for ScaleGrad {
    type Input = i64;
    type Output = (i64, i64);
    fn name(&self) -> &'static str {
        "scale gradient"
    }
    fn apply(&self, grad: i64) -> CategoryResult<(i64, i64)> {
        Ok((grad * self.x, grad * self.p))
    }
}

impl Morphism for Shift {
    type Input = i64;
    type Output = i64;
    fn name(&self) -> &'static str {
        "shift"
    }
    fn apply(&self, input: i64) -> CategoryResult<i64> {
        Ok(input + 1)
    }
}

impl DerivativeMorphism for Shift {
    type Input = i64;
    type Curry = i64;
    type Output = i64;
    type Derivative = ShiftGrad;
    fn derivative(&self, _input: i64) -> Rc<ShiftGrad> {
        Rc::new(ShiftGrad)
    }
}

impl Morphism for ShiftGrad {
    type Input = i64;
    type Output = i64;
    fn name(&self) -> &'static str {
        "shift gradient"
    }
    fn apply(&self, grad: i64) -> CategoryResult<i64> {
        Ok(grad)
    }
}

type Net = Sequential<i64, i64, Scale, Shift>;

fn three_layers() -> Net {
    Sequential::new(&[
        SeqLayer::CurryingMorphism(Rc::new(Scale)),
        SeqLayer::Morphism(Rc::new(Shift)),
        SeqLayer::CurryingMorphism(Rc::new(Scale)),
    ])
}

#[test]
fn sequential_forward_and_backward() {
    let mut net = three_layers();
    assert_eq!(net.trainable_count(), 2);
    assert!(net.params().is_empty());
    net.init_params(&()).unwrap();
    assert_eq!(net.params(), &[2, 2]);
    let (out, tape) = net.forward_with_tape(3).unwrap();
    assert_eq!(out, 14);
    assert_eq!(tape.len(), 3);
    assert!(matches!(tape[0], DerivativedLayer::CurryingMorphism(_)));
    assert!(matches!(tape[1], DerivativedLayer::Morphism(_)));
    let grads = net.backward_with_tape(tape, 1).unwrap();
    assert_eq!(grads, vec![6, 7]);
}

#[test]
fn sequential_keeps_tape_between_forward_and_backward() {
    let mut net = three_layers();
    net.set_params(vec![]);
    net.init_params(&()).unwrap();
    net.set_params(vec![3, 5]);
    assert_eq!(net.forward(2).unwrap(), 35);
    assert_eq!(net.backward(1).unwrap(), vec![10, 7]);
    assert_eq!(net.backward(1).unwrap(), Vec::<i64>::new());
}

#[test]
fn sequential_combine_runs_one_after_the_other() {
    let mut a: Net = Sequential::new(&[SeqLayer::CurryingMorphism(Rc::new(Scale))]);
    let mut b: Net = Sequential::new(&[
        SeqLayer::Morphism(Rc::new(Shift)),
        SeqLayer::CurryingMorphism(Rc::new(Scale)),
    ]);
    a.init_params(&()).unwrap();
    a.set_params(vec![4]);
    b.init_params(&()).unwrap();
    b.set_params(vec![10]);
    let mut ab = a.combine(&b);
    assert_eq!(ab.params(), &[4, 10]);
    let mid = a.forward(3).unwrap();
    let end = b.forward(mid).unwrap();
    assert_eq!(ab.forward(3).unwrap(), end);
    assert_eq!(end, 130);
    let mut empty = Net::empty();
    assert_eq!(empty.forward(9).unwrap(), 9);
    let mut with_empty = a.combine(&Net::empty());
    assert_eq!(with_empty.forward(3).unwrap(), 12);
}

#[test]
fn layer_curry_and_kind() {
    let l: SeqLayer<Scale, Shift> = SeqLayer::CurryingMorphism(Rc::new(Scale));
    assert!(l.is_currying_morphism());
    match l.curry(&7) {
        category_nn::sequential::DerivativeLayer::CurryingMorphism(m) => {
            assert_eq!(m.apply(3).unwrap(), 21)
        }
        _ => panic!("a trainable layer stays trainable"),
    }
    let p: SeqLayer<Scale, Shift> = SeqLayer::Morphism(Rc::new(Shift));
    assert!(!p.is_currying_morphism());
}

#[test]
fn derivative_monoid_puts_other_first() {
    let a = DerivativeMonoid(vec![Rc::new(Shift)]);
    let b = DerivativeMonoid(vec![Rc::new(Shift), Rc::new(Shift)]);
    let ab = a.combine(&b);
    assert_eq!(ab.0.len(), 3);
    assert!(Rc::ptr_eq(&ab.0[0], &b.0[0]));
    assert!(Rc::ptr_eq(&ab.0[2], &a.0[0]));
    let e = DerivativeMonoid::<Shift>::empty();
    assert_eq!(e.combine(&a).0.len(), 1);
    assert_eq!(a.clone().0.len(), 1);
}

#[test]
fn sequential_combine_is_associative_with_unit() {
    let mut a: Net = Sequential::new(&[SeqLayer::CurryingMorphism(Rc::new(Scale))]);
    let mut b: Net = Sequential::new(&[SeqLayer::Morphism(Rc::new(Shift))]);
    let mut c: Net = Sequential::new(&[SeqLayer::CurryingMorphism(Rc::new(Scale))]);
    a.init_params(&()).unwrap();
    b.init_params(&()).unwrap();
    c.init_params(&()).unwrap();
    a.set_params(vec![3]);
    c.set_params(vec![5]);
    let mut left = a.combine(&b).combine(&c);
    let mut right = a.combine(&b.combine(&c));
    assert_eq!(left.params(), &[3, 5]);
    assert_eq!(left.params(), right.params());
    assert_eq!(left.forward(2).unwrap(), right.forward(2).unwrap());
    assert_eq!(Net::empty().combine(&a).params(), a.params());
    assert_eq!(a.combine(&Net::empty()).params(), a.params());
}

/// `x -> x + 1` on bytes, failing at 255.
struct NextByte;

impl Morphism for NextByte {
    type Input = u8;
    type Output = u8;
    fn name(&self) -> &'static str {
        "next byte"
    }
    fn apply(&self, input: u8) -> CategoryResult<u8> {
        input.checked_add(1).ok_or(CategoryError::NumericalError("overflow".to_string()))
    }
}

#[test]
fn byte_array_collection_and_rebuild() {
    let a: ImageArray = Rebuild::rebuild(ArrayShape { rows: 2, cols: 3 }, vec![1u8, 2, 3, 4, 5, 6]).unwrap();
    let shape = a.shape();
    assert_eq!((shape.rows, shape.cols), (2, 3));
    assert_eq!(a.into_elements(), vec![1u8, 2, 3, 4, 5, 6]);
    let bad: CategoryResult<ImageArray> = Rebuild::rebuild(ArrayShape { rows: 2, cols: 2 }, vec![1u8, 2, 3]);
    match bad {
        Err(CategoryError::InvalidInput(msg)) => assert!(msg.starts_with("ndarray shape error: ")),
        _ => panic!("a shape that does not hold the elements is refused"),
    }
}

#[test]
fn collection_functor_maps_byte_arrays_keeping_shape() {
    let f: CollectionFunctor<NextByte, ImageArray, ImageArray> = CollectionFunctor::new(NextByte);
    let a: ImageArray = Rebuild::rebuild(ArrayShape { rows: 3, cols: 2 }, vec![0u8, 10, 20, 30, 40, 50]).unwrap();
    let out = f.apply(a).unwrap();
    let shape = out.shape();
    assert_eq!((shape.rows, shape.cols), (3, 2));
    assert_eq!(out.into_elements(), vec![1u8, 11, 21, 31, 41, 51]);
    let full: ImageArray = Rebuild::rebuild(ArrayShape { rows: 1, cols: 2 }, vec![7u8, 255]).unwrap();
    match f.apply(full) {
        Err(CategoryError::NumericalError(msg)) => assert_eq!(msg, "overflow"),
        _ => panic!("the failing element's error comes back"),
    }
}

#[test]
fn backward_after_forward_matches_backward_over_the_tape() {
    let mut net = three_layers();
    net.init_params(&()).unwrap();
    net.set_params(vec![3, 4]);
    let (out, tape) = net.forward_with_tape(5).unwrap();
    let over_tape = net.backward_with_tape(tape, 2).unwrap();
    assert_eq!(net.forward(5).unwrap(), out);
    assert_eq!(net.backward(2).unwrap(), over_tape);
    assert_eq!(over_tape, vec![40, 32]);
}
