use vstd::prelude::*;
use std::rc::Rc;
use crate::monoid::Monoid;
use crate::morphism::Morphism;

verus! {

/// A morphism that, given what it saw on the forward pass (`Curry`), hands
/// out the morphism that carries gradients backwards.
pub trait DerivativeMorphism {
    type Input;
    type Curry;
    type Output;
    type Derivative: Morphism<Input = Self::Input, Output = Self::Output>;

    /// `derivative` is a backward morphism that `derivative` may build from
    /// `input`.
    open spec fn derivative_rel(&self, input: Self::Curry, derivative: Self::Derivative) -> bool {
        true
    }

    fn derivative(&self, input: Self::Curry) -> (r: Rc<Self::Derivative>)
        ensures
            self.derivative_rel(input, *r),
    ;
}

/// A morphism with a derivative, seen with all of its types at once.
pub trait DerivatibleMorphism<I, O, C, DI, DO>: Morphism<Input = I, Output = O> +
    DerivativeMorphism<Input = DI, Curry = C, Output = DO> {
    fn as_morphism(self: Rc<Self>) -> (r: Rc<Self>)
        ensures
            r == self,
    ;
}

impl<T, I, O, C, DI, DO> DerivatibleMorphism<I, O, C, DI, DO> for T where
    T: Morphism<Input = I, Output = O> + DerivativeMorphism<Input = DI, Curry = C, Output = DO>,
 {
    fn as_morphism(self: Rc<Self>) -> (r: Rc<Self>) {
        self
    }
}

/// A list of derivative morphisms; combining puts the other list first.
pub struct DerivativeMonoid<D>(pub Vec<Rc<D>>);

impl<D> DerivativeMonoid<D> {
    pub open spec fn view(&self) -> Seq<Rc<D>> {
        self.0@
    }
}

impl<D> Clone for DerivativeMonoid<D> {
    fn clone(&self) -> (r: Self)
        ensures
            r.view() == self.view(),
    {
        let mut out: Vec<Rc<D>> = Vec::new();
        let mut i: usize = 0;
        while i < self.0.len()
            invariant
                i <= self.0.len(),
                out@ == self.0@.subrange(0, i as int),
            decreases self.0.len() - i,
        {
            out.push(Rc::clone(&self.0[i]));
            i += 1;
        }
        DerivativeMonoid(out)
    }
}

impl<D> Monoid for DerivativeMonoid<D> {
    fn empty() -> (r: Self)
        ensures
            r.view() == Seq::<Rc<D>>::empty(),
    {
        DerivativeMonoid(Vec::new())
    }

    fn combine(&self, other: &Self) -> (r: Self)
        ensures
            r.view() == other.view() + self.view(),
    {
        let mut combined: Vec<Rc<D>> = Vec::with_capacity(self.0.len());
        let mut i: usize = 0;
        while i < other.0.len()
            invariant
                i <= other.0.len(),
                combined@ == other.0@.subrange(0, i as int),
            decreases other.0.len() - i,
        {
            combined.push(Rc::clone(&other.0[i]));
            i += 1;
        }
        let mut j: usize = 0;
        while j < self.0.len()
            invariant
                j <= self.0.len(),
                combined@ == other.0@ + self.0@.subrange(0, j as int),
            decreases self.0.len() - j,
        {
            combined.push(Rc::clone(&self.0[j]));
            j += 1;
        }
        DerivativeMonoid(combined)
    }
}

/// `combine` on derivative lists is associative, and `empty` is its unit on
/// both sides.
pub proof fn lemma_derivative_monoid_laws<D>(a: Seq<Rc<D>>, b: Seq<Rc<D>>, c: Seq<Rc<D>>)
    ensures
        (c + b) + a == c + (b + a),
        Seq::<Rc<D>>::empty() + a == a,
        a + Seq::<Rc<D>>::empty() == a,
{
    assert((c + b) + a =~= c + (b + a));
    assert(Seq::<Rc<D>>::empty() + a =~= a);
    assert(a + Seq::<Rc<D>>::empty() =~= a);
}

} // verus!
