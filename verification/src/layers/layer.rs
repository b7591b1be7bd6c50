use vstd::prelude::*;
use crate::currying_morphism::DerivatibleCurryingMorphism;
use crate::errors::CategoryResult;

verus! {

/// A layer maps `in` features to `out` features.
pub trait Layer {
    /// `(in, out)`.
    fn features(&self) -> (usize, usize);
}

/// A layer that can draw fresh parameters on a device.
pub trait LayerShape<Params, Device>: Layer {
    /// `result` is what `init_params` may give back on `device`. Fresh
    /// parameters are drawn at random, so this fixes no values.
    open spec fn init_rel(&self, device: Device, result: CategoryResult<Params>) -> bool {
        true
    }

    fn init_params(&self, device: &Device) -> (r: CategoryResult<Params>)
        ensures
            self.init_rel(*device, r),
    ;
}

/// A trainable layer: built from parameters, with a derivative.
pub trait LayerImpl<Params, Input, Output, Curry, DerivativeInput, DerivativeOutput>:
    DerivatibleCurryingMorphism<
    Params = Params,
    Input = Input,
    Curry = Curry,
    Output = Output,
    DerivativeInput = DerivativeInput,
    DerivativeOutput = DerivativeOutput,
> + Layer {

}

impl<T, Params, Input, Output, Curry, DerivativeInput, DerivativeOutput> LayerImpl<
    Params,
    Input,
    Output,
    Curry,
    DerivativeInput,
    DerivativeOutput,
> for T where
    T: DerivatibleCurryingMorphism<
        Params = Params,
        Input = Input,
        Output = Output,
        Curry = Curry,
        DerivativeInput = DerivativeInput,
        DerivativeOutput = DerivativeOutput,
    > + Layer,
 {

}

} // verus!
