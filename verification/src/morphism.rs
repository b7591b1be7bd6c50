use vstd::prelude::*;
use std::rc::Rc;
use crate::errors::{CategoryError, CategoryResult};

verus! {

/// An arrow from `Input` to `Output` that may fail.
pub trait Morphism: Sized {
    type Input;
    type Output;

    /// `output` is a result that `apply` may give back on `input`.
    open spec fn apply_rel(&self, input: Self::Input, output: CategoryResult<Self::Output>) -> bool {
        true
    }

    /// `name` is a name that `name` may give back.
    open spec fn name_rel(&self, name: &'static str) -> bool {
        true
    }

    fn name(&self) -> (r: &'static str)
        ensures
            self.name_rel(r),
    ;

    fn apply(&self, input: Self::Input) -> (r: CategoryResult<Self::Output>)
        ensures
            self.apply_rel(input, r),
    ;
}

/// A shared morphism behaves as the morphism it points to.
impl<M: Morphism> Morphism for Rc<M> {
    type Input = M::Input;
    type Output = M::Output;

    open spec fn apply_rel(&self, input: M::Input, output: CategoryResult<M::Output>) -> bool {
        (**self).apply_rel(input, output)
    }

    open spec fn name_rel(&self, name: &'static str) -> bool {
        (**self).name_rel(name)
    }

    fn name(&self) -> (r: &'static str) {
        (**self).name()
    }

    fn apply(&self, input: M::Input) -> (r: CategoryResult<M::Output>) {
        (**self).apply(input)
    }
}

/// Morphisms that are built from parameters.
pub trait CurryingMorphism {
    type Params;
    type Input;
    type Output;
    type Curried: Morphism<Input = Self::Input, Output = Self::Output>;

    /// `curried` is a morphism that `curry` may build from `params`.
    open spec fn curry_rel(&self, params: Self::Params, curried: Self::Curried) -> bool {
        true
    }

    fn curry(&self, params: &Self::Params) -> (r: Rc<Self::Curried>)
        ensures
            self.curry_rel(*params, *r),
    ;
}

/// `f` followed by `g`.
pub fn compose<F: Morphism, G: Morphism>(f: F, g: G) -> (r: Compose<F, G>)
    ensures
        r.first() == f,
        r.second() == g,
{
    Compose::new(f, g)
}

/// The sequential composition of `f` and then `g`.
pub struct Compose<F, G> {
    f: F,
    g: G,
}

impl<F, G> Compose<F, G> {
    pub closed spec fn first(&self) -> F {
        self.f
    }

    pub closed spec fn second(&self) -> G {
        self.g
    }

    pub closed spec fn spec_new(f: F, g: G) -> Self {
        Compose { f, g }
    }

    pub proof fn lemma_spec_new(f: F, g: G)
        ensures
            Self::spec_new(f, g).first() == f,
            Self::spec_new(f, g).second() == g,
    {
    }

    pub fn new(f: F, g: G) -> (r: Self)
        ensures
            r.first() == f,
            r.second() == g,
            r == Self::spec_new(f, g),
    {
        Self { f, g }
    }
}

/// Feeds a first result on to `g`: an `Ok` value is applied, an error is
/// passed through unchanged.
pub open spec fn then_rel<G: Morphism>(
    g: G,
    first: CategoryResult<G::Input>,
    output: CategoryResult<G::Output>,
) -> bool {
    match first {
        Ok(mid) => g.apply_rel(mid, output),
        Err(e) => output == Err::<G::Output, CategoryError>(e),
    }
}

/// The results of `f` followed by `g` on `input`.
pub open spec fn compose_rel<F: Morphism, G: Morphism<Input = F::Output>>(
    f: F,
    g: G,
    input: F::Input,
    output: CategoryResult<G::Output>,
) -> bool {
    exists|mid: CategoryResult<F::Output>| #[trigger] f.apply_rel(input, mid) && then_rel(g, mid, output)
}

impl<F: Morphism, G: Morphism<Input = F::Output>> Morphism for Compose<F, G> {
    type Input = F::Input;
    type Output = G::Output;

    open spec fn apply_rel(&self, input: F::Input, output: CategoryResult<G::Output>) -> bool {
        compose_rel(self.first(), self.second(), input, output)
    }

    open spec fn name_rel(&self, name: &'static str) -> bool {
        name@ == "compose"@
    }

    fn name(&self) -> (r: &'static str)
        ensures
            r@ == "compose"@,
    {
        "compose"
    }

    fn apply(&self, input: F::Input) -> (r: CategoryResult<G::Output>) {
        let mid = self.f.apply(input);
        let ghost gmid = mid;
        match mid {
            Ok(m) => {
                let out = self.g.apply(m);
                assert(self.f.apply_rel(input, gmid) && then_rel(self.g, gmid, out));
                out
            },
            Err(e) => {
                assert(self.f.apply_rel(input, gmid) && then_rel(self.g, gmid, Err(e)));
                Err(e)
            },
        }
    }
}

/// Composition is associative: `(f ; g) ; h` and `f ; (g ; h)` have the same
/// results on every input.
pub proof fn lemma_compose_associative<
    F: Morphism,
    G: Morphism<Input = F::Output>,
    H: Morphism<Input = G::Output>,
>(f: F, g: G, h: H, input: F::Input, output: CategoryResult<H::Output>)
    ensures
        compose_rel(Compose::<F, G>::spec_new(f, g), h, input, output) <==> compose_rel(
            f,
            Compose::<G, H>::spec_new(g, h),
            input,
            output,
        ),
{
    let fg = Compose::<F, G>::spec_new(f, g);
    let gh = Compose::<G, H>::spec_new(g, h);
    Compose::<F, G>::lemma_spec_new(f, g);
    Compose::<G, H>::lemma_spec_new(g, h);
    if compose_rel(fg, h, input, output) {
        let m2 = choose|m2: CategoryResult<G::Output>| #[trigger] fg.apply_rel(input, m2) && then_rel(h, m2, output);
        let m1 = choose|m1: CategoryResult<F::Output>| #[trigger] f.apply_rel(input, m1) && then_rel(g, m1, m2);
        match m1 {
            Ok(a) => {
                assert(gh.apply_rel(a, output)) by {
                    assert(g.apply_rel(a, m2) && then_rel(h, m2, output));
                }
                assert(f.apply_rel(input, m1) && then_rel(gh, m1, output));
            },
            Err(e) => {
                assert(f.apply_rel(input, m1) && then_rel(gh, m1, output));
            },
        }
    }
    if compose_rel(f, gh, input, output) {
        let m1 = choose|m1: CategoryResult<F::Output>| #[trigger] f.apply_rel(input, m1) && then_rel(gh, m1, output);
        match m1 {
            Ok(a) => {
                let m2 = choose|m2: CategoryResult<G::Output>| #[trigger] g.apply_rel(a, m2) && then_rel(h, m2, output);
                assert(fg.apply_rel(input, m2)) by {
                    assert(f.apply_rel(input, m1) && then_rel(g, m1, m2));
                }
                assert(fg.apply_rel(input, m2) && then_rel(h, m2, output));
            },
            Err(e) => {
                let m2: CategoryResult<G::Output> = Err(e);
                assert(fg.apply_rel(input, m2)) by {
                    assert(f.apply_rel(input, m1) && then_rel(g, m1, m2));
                }
                assert(fg.apply_rel(input, m2) && then_rel(h, m2, output));
            },
        }
    }
}

} // verus!
