use vstd::prelude::*;
use std::rc::Rc;
use crate::derivative::DerivatibleMorphism;
use crate::morphism::Morphism;

verus! {

/// Morphisms that are built from parameters.
pub trait CurryingMorphism {
    type Params;
    type Input;
    type Output;
    type Curried: Morphism<Input = Self::Input, Output = Self::Output>;

    /// `curried` is a morphism that `curry` may build from `params`.
    open spec fn curry_rel(&self, params: Self::Params, curried: Self::Curried) -> bool {
        true
    }

    fn curry(&self, params: &Self::Params) -> (r: Rc<Self::Curried>)
        ensures
            self.curry_rel(*params, *r),
    ;
}

/// Morphisms built from parameters whose result also has a derivative: the
/// shape of a trainable layer.
pub trait DerivatibleCurryingMorphism {
    type Params;
    type Input;
    type Curry;
    type Output;
    type DerivativeInput;
    type DerivativeOutput;
    type Curried: DerivatibleMorphism<
        Self::Input,
        Self::Output,
        Self::Curry,
        Self::DerivativeInput,
        Self::DerivativeOutput,
    >;

    /// `curried` is a morphism that `curry` may build from `params`.
    open spec fn curry_rel(&self, params: Self::Params, curried: Self::Curried) -> bool {
        true
    }

    fn curry(&self, params: &Self::Params) -> (r: Rc<Self::Curried>)
        ensures
            self.curry_rel(*params, *r),
    ;
}

} // verus!
