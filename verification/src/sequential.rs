use vstd::prelude::*;
use std::rc::Rc;
use crate::currying_morphism::DerivatibleCurryingMorphism;
use crate::derivative::{DerivatibleMorphism, DerivativeMorphism};
use crate::errors::{CategoryError, CategoryResult};
use crate::layers::layer::{LayerImpl, LayerShape};
use crate::monoid::Monoid;
use crate::morphism::Morphism;

verus! {

/// A layer of a sequential network: either trainable (built from
/// parameters) or a fixed morphism.
pub enum Layer<C, M> {
    CurryingMorphism(Rc<C>),
    Morphism(Rc<M>),
}

impl<C, M> Clone for Layer<C, M> {
    fn clone(&self) -> (r: Self)
        ensures
            r == *self,
    {
        match self {
            Layer::CurryingMorphism(c) => Layer::CurryingMorphism(Rc::clone(c)),
            Layer::Morphism(m) => Layer::Morphism(Rc::clone(m)),
        }
    }
}

impl<C, M> Layer<C, M> {
    pub fn is_currying_morphism(&self) -> (r: bool)
        ensures
            r == (*self is CurryingMorphism),
    {
        match self {
            Layer::CurryingMorphism(_) => true,
            Layer::Morphism(_) => false,
        }
    }
}

/// A layer once its parameters are fixed.
pub enum DerivativeLayer<D, M> {
    CurryingMorphism(Rc<D>),
    Morphism(Rc<M>),
}

impl<C: DerivatibleCurryingMorphism, M> Layer<C, M> {
    /// Fixes the parameters of a trainable layer; a fixed morphism is kept.
    pub fn curry(&self, params: &C::Params) -> (r: DerivativeLayer<C::Curried, M>)
        ensures
            match *self {
                Layer::CurryingMorphism(c) => match r {
                    DerivativeLayer::CurryingMorphism(d) => c.curry_rel(*params, *d),
                    DerivativeLayer::Morphism(_) => false,
                },
                Layer::Morphism(m) => r == DerivativeLayer::<C::Curried, M>::Morphism(m),
            },
    {
        match self {
            Layer::CurryingMorphism(layer) => DerivativeLayer::CurryingMorphism(layer.curry(params)),
            Layer::Morphism(morphism) => DerivativeLayer::Morphism(Rc::clone(morphism)),
        }
    }
}

/// An entry of the forward tape: the backward morphism of one layer.
pub enum DerivativedLayer<A, B> {
    CurryingMorphism(Rc<A>),
    Morphism(Rc<B>),
}

/// The tape entry type for trainable layers `C` and fixed layers `M`.
pub type TapeEntry<C, M> = DerivativedLayer<
    <<C as DerivatibleCurryingMorphism>::Curried as DerivativeMorphism>::Derivative,
    <M as DerivativeMorphism>::Derivative,
>;

/// The number of trainable layers.
pub open spec fn count_currying<C, M>(layers: Seq<Layer<C, M>>) -> nat
    decreases layers.len(),
{
    if layers.len() == 0 {
        0
    } else {
        count_currying(layers.drop_last()) + if layers.last() is CurryingMorphism {
            1nat
        } else {
            0nat
        }
    }
}

/// The number of tape entries of trainable layers.
pub open spec fn tape_count<A, B>(tape: Seq<DerivativedLayer<A, B>>) -> nat
    decreases tape.len(),
{
    if tape.len() == 0 {
        0
    } else {
        tape_count(tape.drop_last()) + if tape.last() is CurryingMorphism {
            1nat
        } else {
            0nat
        }
    }
}

pub proof fn lemma_count_step<C, M>(layers: Seq<Layer<C, M>>, k: int)
    requires
        0 <= k < layers.len(),
    ensures
        count_currying(layers.take(k + 1)) == count_currying(layers.take(k)) + if layers[k] is CurryingMorphism {
            1nat
        } else {
            0nat
        },
{
    assert(layers.take(k + 1).drop_last() =~= layers.take(k));
}

pub proof fn lemma_count_bounded<C, M>(layers: Seq<Layer<C, M>>, k: int)
    requires
        0 <= k <= layers.len(),
    ensures
        count_currying(layers.take(k)) <= count_currying(layers),
        k < layers.len() && layers[k] is CurryingMorphism ==> count_currying(layers.take(k))
            < count_currying(layers),
    decreases layers.len() - k,
{
    if k == layers.len() {
        assert(layers.take(k) =~= layers);
    } else {
        lemma_count_step(layers, k);
        lemma_count_bounded(layers, k + 1);
    }
}

/// `p` is what `layer` may draw on `device` when it is trainable.
pub open spec fn drew<P, D, C: LayerShape<P, D>, M>(layer: Layer<C, M>, device: D, p: P) -> bool {
    match layer {
        Layer::CurryingMorphism(c) => c.init_rel(device, Ok(p)),
        Layer::Morphism(_) => true,
    }
}

/// `params` holds, in order, what the trainable layers among the first `k`
/// of `layers` drew on `device`.
pub open spec fn inits_ok<P, D, C: LayerShape<P, D>, M>(
    layers: Seq<Layer<C, M>>,
    k: int,
    device: D,
    params: Seq<P>,
) -> bool {
    &&& params.len() == count_currying(layers.take(k))
    &&& forall|i: int|
        0 <= i < k ==> #[trigger] drew(layers[i], device, params[count_currying(layers.take(i)) as int])
}

/// One forward step: `layer` (with parameters `p` when trainable) maps `x`
/// to `y`, and `entry` is the backward morphism it recorded for a clone of
/// `x`.
pub open spec fn step_rel<P, V: Clone, C, M>(
    layer: Layer<C, M>,
    p: P,
    x: V,
    y: CategoryResult<V>,
    entry: TapeEntry<C, M>,
) -> bool where
    C: LayerImpl<P, V, V, V, V, (P, V)>,
    M: DerivatibleMorphism<V, V, V, V, V>,
 {
    match layer {
        Layer::CurryingMorphism(c) => match entry {
            DerivativedLayer::CurryingMorphism(d) => curry_step_rel::<P, V, C, M>(c, p, x, y, d),
            DerivativedLayer::Morphism(_) => false,
        },
        Layer::Morphism(mm) => match entry {
            DerivativedLayer::Morphism(d) => plain_step_rel::<P, V, C, M>(mm, x, y, d),
            DerivativedLayer::CurryingMorphism(_) => false,
        },
    }
}

/// A trainable layer curried with `p` maps `x` to `y`, and `d` is the
/// derivative of the curried morphism at a clone of `x`.
pub open spec fn curry_step_rel<P, V: Clone, C, M>(
    c: Rc<C>,
    p: P,
    x: V,
    y: CategoryResult<V>,
    d: Rc<<<C as DerivatibleCurryingMorphism>::Curried as DerivativeMorphism>::Derivative>,
) -> bool where
    C: LayerImpl<P, V, V, V, V, (P, V)>,
    M: DerivatibleMorphism<V, V, V, V, V>,
 {
    exists|m: <C as DerivatibleCurryingMorphism>::Curried, x2: V|
        #![trigger c.curry_rel(p, m), m.derivative_rel(x2, *d)]
        c.curry_rel(p, m) && m.derivative_rel(x2, *d) && cloned(x, x2) && m.apply_rel(x, y)
}

/// A fixed layer maps `x` to `y`, and `d` is its derivative at a clone of
/// `x`.
pub open spec fn plain_step_rel<P, V: Clone, C, M>(
    mm: Rc<M>,
    x: V,
    y: CategoryResult<V>,
    d: Rc<<M as DerivativeMorphism>::Derivative>,
) -> bool where
    C: LayerImpl<P, V, V, V, V, (P, V)>,
    M: DerivatibleMorphism<V, V, V, V, V>,
 {
    exists|x2: V| #[trigger] mm.derivative_rel(x2, *d) && cloned(x, x2) && mm.apply_rel(x, y)
}


/// The first `k` layers ran: `xs[i]` went into layer `i` and `xs[i + 1]`
/// came out; trainable layers take the parameters in order.
pub open spec fn run_rel<P, V: Clone, C, M>(
    layers: Seq<Layer<C, M>>,
    k: int,
    params: Seq<P>,
    xs: Seq<V>,
    tape: Seq<TapeEntry<C, M>>,
) -> bool where
    C: LayerImpl<P, V, V, V, V, (P, V)>,
    M: DerivatibleMorphism<V, V, V, V, V>,
 {
    &&& 0 <= k <= layers.len()
    &&& xs.len() == k + 1
    &&& tape.len() == k
    &&& forall|i: int|
        0 <= i < k ==> #[trigger] step_rel(
            layers[i],
            params[count_currying(layers.take(i)) as int],
            xs[i],
            Ok(xs[i + 1]),
            tape[i],
        )
}

/// Every layer ran on `input`, ending in `output`, recording `tape`.
pub open spec fn forward_ok_rel<P, V: Clone, C, M>(
    layers: Seq<Layer<C, M>>,
    params: Seq<P>,
    input: V,
    output: V,
    tape: Seq<TapeEntry<C, M>>,
) -> bool where
    C: LayerImpl<P, V, V, V, V, (P, V)>,
    M: DerivatibleMorphism<V, V, V, V, V>,
 {
    exists|xs: Seq<V>|
        #[trigger] run_rel(layers, layers.len() as int, params, xs, tape) && xs[0] == input
            && xs[layers.len() as int] == output
}

/// The layers before some layer ran on `input`, and that layer failed
/// with `e`.
pub open spec fn forward_err_rel<P, V: Clone, C, M>(
    layers: Seq<Layer<C, M>>,
    params: Seq<P>,
    input: V,
    e: CategoryError,
) -> bool where
    C: LayerImpl<P, V, V, V, V, (P, V)>,
    M: DerivatibleMorphism<V, V, V, V, V>,
 {
    exists|xs: Seq<V>, tape: Seq<TapeEntry<C, M>>, entry: TapeEntry<C, M>|
        #![trigger run_rel(layers, xs.len() - 1, params, xs, tape), step_rel(layers[xs.len() - 1], params[count_currying(layers.take(xs.len() - 1)) as int], xs[xs.len() - 1], Err(e), entry)]
        run_rel(layers, xs.len() - 1, params, xs, tape) && xs.len() - 1 < layers.len() && xs[0]
            == input && step_rel(
            layers[xs.len() - 1],
            params[count_currying(layers.take(xs.len() - 1)) as int],
            xs[xs.len() - 1],
            Err(e),
            entry,
        )
}

/// One backward step through `entry`: gradient `g` in, `g_prev` out, and
/// for a trainable layer the parameter gradient `pg`.
pub open spec fn back_step_rel<P, V, A, B>(
    entry: DerivativedLayer<A, B>,
    g: V,
    g_prev: V,
    pg: P,
) -> bool where A: Morphism<Input = V, Output = (P, V)>, B: Morphism<Input = V, Output = V> {
    match entry {
        DerivativedLayer::CurryingMorphism(d) => d.apply_rel(g, Ok((pg, g_prev))),
        DerivativedLayer::Morphism(d) => d.apply_rel(g, Ok(g_prev)),
    }
}

/// The backward morphism of `entry` failed on `g` with `e`.
pub open spec fn back_fail_rel<P, V, A, B>(entry: DerivativedLayer<A, B>, g: V, e: CategoryError) -> bool where
    A: Morphism<Input = V, Output = (P, V)>,
    B: Morphism<Input = V, Output = V>,
 {
    match entry {
        DerivativedLayer::CurryingMorphism(d) => d.apply_rel(g, Err(e)),
        DerivativedLayer::Morphism(d) => d.apply_rel(g, Err(e)),
    }
}

/// Entries `k..` of the tape ran backwards: `gs[i + 1]` went into entry `i`
/// and `gs[i]` came out, with parameter gradient `pgs[i]`.
pub open spec fn back_run_rel<P, V, A, B>(
    tape: Seq<DerivativedLayer<A, B>>,
    k: int,
    gs: Seq<V>,
    pgs: Seq<P>,
) -> bool where A: Morphism<Input = V, Output = (P, V)>, B: Morphism<Input = V, Output = V> {
    &&& 0 <= k <= tape.len()
    &&& gs.len() == tape.len() + 1
    &&& pgs.len() == tape.len()
    &&& forall|i: int| k <= i < tape.len() ==> #[trigger] back_step_rel(tape[i], gs[i + 1], gs[i], pgs[i])
}

/// The parameter gradients of the trainable entries, in tape order.
pub open spec fn collect_grads<P, A, B>(tape: Seq<DerivativedLayer<A, B>>, pgs: Seq<P>) -> Seq<P>
    decreases tape.len(),
{
    if tape.len() == 0 {
        Seq::empty()
    } else {
        (if tape[0] is CurryingMorphism {
            seq![pgs[0]]
        } else {
            Seq::empty()
        }) + collect_grads(tape.drop_first(), pgs.drop_first())
    }
}

/// The whole tape ran backwards from `grad`, giving `grads`.
pub open spec fn backward_ok_rel<P, V, A, B>(
    tape: Seq<DerivativedLayer<A, B>>,
    grad: V,
    grads: Seq<P>,
) -> bool where A: Morphism<Input = V, Output = (P, V)>, B: Morphism<Input = V, Output = V> {
    exists|gs: Seq<V>, pgs: Seq<P>|
        #[trigger] back_run_rel(tape, 0, gs, pgs) && gs[tape.len() as int] == grad && grads
            == collect_grads(tape, pgs)
}

/// The entries after some entry ran backwards from `grad`, and that entry
/// failed with `e`.
pub open spec fn backward_err_rel<P, V, A, B>(
    tape: Seq<DerivativedLayer<A, B>>,
    grad: V,
    e: CategoryError,
) -> bool where A: Morphism<Input = V, Output = (P, V)>, B: Morphism<Input = V, Output = V> {
    exists|k: int, gs: Seq<V>, pgs: Seq<P>|
        #[trigger] back_run_rel(tape, k + 1, gs, pgs) && 0 <= k && gs[tape.len() as int] == grad
            && back_fail_rel(tape[k], gs[k + 1], e)
}

} // verus!

verus! {

/// A network that runs its layers one after the other, keeping the tape of
/// its last forward pass for the backward pass.
pub struct Sequential<P, V, C, M> where
    C: LayerImpl<P, V, V, V, V, (P, V)>,
    M: DerivatibleMorphism<V, V, V, V, V>,
 {
    layers: Vec<Layer<C, M>>,
    derivative_dense: Vec<TapeEntry<C, M>>,
    params: Vec<P>,
    _values: std::marker::PhantomData<V>,
}

impl<P, V: Clone, C, M> Sequential<P, V, C, M> where
    C: LayerImpl<P, V, V, V, V, (P, V)>,
    M: DerivatibleMorphism<V, V, V, V, V>,
 {
    pub closed spec fn layers_view(&self) -> Seq<Layer<C, M>> {
        self.layers@
    }

    pub closed spec fn params_view(&self) -> Seq<P> {
        self.params@
    }

    pub closed spec fn tape_view(&self) -> Seq<TapeEntry<C, M>> {
        self.derivative_dense@
    }

    pub fn new(layers: &[Layer<C, M>]) -> (r: Self)
        ensures
            r.layers_view() == layers@,
            r.params_view() == Seq::<P>::empty(),
            r.tape_view() == Seq::<TapeEntry<C, M>>::empty(),
    {
        let mut copied: Vec<Layer<C, M>> = Vec::with_capacity(layers.len());
        let mut i: usize = 0;
        while i < layers.len()
            invariant
                i <= layers.len(),
                copied@ == layers@.subrange(0, i as int),
            decreases layers.len() - i,
        {
            copied.push(layers[i].clone());
            i += 1;
        }
        Self {
            layers: copied,
            derivative_dense: Vec::with_capacity(layers.len()),
            params: Vec::with_capacity(layers.len()),
            _values: std::marker::PhantomData,
        }
    }

    /// Draws fresh parameters for every trainable layer, in order.
    pub fn init_params<D>(&mut self, device: &D) -> (r: CategoryResult<()>) where
        C: LayerShape<P, D>,
        ensures
            final(self).layers_view() == old(self).layers_view(),
            final(self).tape_view() == old(self).tape_view(),
            r is Ok ==> final(self).params_view().len() == count_currying(old(self).layers_view())
                && inits_ok(
                old(self).layers_view(),
                old(self).layers_view().len() as int,
                *device,
                final(self).params_view(),
            ),
            r is Err ==> final(self).params_view().len() < count_currying(old(self).layers_view()),
            r matches Err(e) ==> exists|k: int|
                0 <= k < old(self).layers_view().len() && (#[trigger] old(self).layers_view()[k] matches Layer::CurryingMorphism(
                    c,
                ) && c.init_rel(*device, Err(e))) && inits_ok(
                    old(self).layers_view(),
                    k,
                    *device,
                    final(self).params_view(),
                ),
    {
        self.params.clear();
        let mut k: usize = 0;
        proof {
            assert(self.params@.len() == count_currying(self.layers@.take(0)));
        }
        while k < self.layers.len()
            invariant
                k <= self.layers@.len(),
                self.layers@ == old(self).layers@,
                self.derivative_dense@ == old(self).derivative_dense@,
                inits_ok(self.layers@, k as int, *device, self.params@),
            decreases self.layers@.len() - k,
        {
            proof {
                lemma_count_step(self.layers@, k as int);
            }
            let ghost before = self.params@;
            if let Layer::CurryingMorphism(currying) = &self.layers[k] {
                match currying.init_params(device) {
                    Ok(p) => {
                        self.params.push(p);
                        proof {
                            assert forall|i: int| 0 <= i < k + 1 implies #[trigger] drew(
                                self.layers@[i],
                                *device,
                                self.params@[count_currying(self.layers@.take(i)) as int],
                            ) by {
                                if i < k {
                                    assert(drew(
                                        self.layers@[i],
                                        *device,
                                        before[count_currying(self.layers@.take(i)) as int],
                                    ));
                                    if self.layers@[i] is CurryingMorphism {
                                        lemma_count_bounded(self.layers@.take(k as int), i);
                                        assert(self.layers@.take(k as int).take(i) =~= self.layers@.take(i));
                                    }
                                }
                            }
                        }
                    },
                    Err(e) => {
                        proof {
                            lemma_count_bounded(self.layers@, k as int);
                            assert(old(self).layers_view()[k as int] matches Layer::CurryingMorphism(c)
                                && c.init_rel(*device, Err(e)));
                            assert(inits_ok(old(self).layers_view(), k as int, *device, self.params@));
                        }
                        return Err(e);
                    },
                }
            } else {
                proof {
                    assert forall|i: int| 0 <= i < k + 1 implies #[trigger] drew(
                        self.layers@[i],
                        *device,
                        self.params@[count_currying(self.layers@.take(i)) as int],
                    ) by {
                        if i < k {
                            assert(drew(
                                self.layers@[i],
                                *device,
                                before[count_currying(self.layers@.take(i)) as int],
                            ));
                        }
                    }
                }
            }
            k += 1;
        }
        proof {
            assert(self.layers@.take(k as int) =~= self.layers@);
        }
        Ok(())
    }

    pub fn params(&self) -> (r: &[P])
        ensures
            r@ == self.params_view(),
    {
        self.params.as_slice()
    }

    /// The number of trainable layers: `forward` needs at least this many
    /// parameter sets.
    pub fn trainable_count(&self) -> (r: usize)
        ensures
            r == count_currying(self.layers_view()),
    {
        let mut count: usize = 0;
        let mut k: usize = 0;
        while k < self.layers.len()
            invariant
                k <= self.layers@.len(),
                count == count_currying(self.layers@.take(k as int)),
                count <= k,
            decreases self.layers@.len() - k,
        {
            proof {
                lemma_count_step(self.layers@, k as int);
            }
            if self.layers[k].is_currying_morphism() {
                count += 1;
            }
            k += 1;
        }
        proof {
            assert(self.layers@.take(k as int) =~= self.layers@);
        }
        count
    }

    /// Replaces the parameters and forgets the tape.
    pub fn set_params(&mut self, new_params: Vec<P>)
        requires
            new_params@.len() == old(self).params_view().len(),
        ensures
            final(self).params_view() == new_params@,
            final(self).layers_view() == old(self).layers_view(),
            final(self).tape_view() == Seq::<TapeEntry<C, M>>::empty(),
    {
        self.params = new_params;
        self.derivative_dense.clear();
    }

    /// Runs every layer on `input`, recording for each layer the backward
    /// morphism of what it saw.
    pub fn forward_with_tape(&mut self, input: V) -> (r: CategoryResult<(V, Vec<TapeEntry<C, M>>)>)
        requires
            count_currying(old(self).layers_view()) <= old(self).params_view().len(),
        ensures
            *final(self) == *old(self),
            match r {
                Ok((out, tape)) => forward_ok_rel(
                    old(self).layers_view(),
                    old(self).params_view(),
                    input,
                    out,
                    tape@,
                ),
                Err(e) => forward_err_rel(old(self).layers_view(), old(self).params_view(), input, e),
            },
    {
        let mut tape: Vec<TapeEntry<C, M>> = Vec::with_capacity(self.layers.len());
        let mut output = input;
        let mut j: usize = 0;
        let mut k: usize = 0;
        let ghost mut xs: Seq<V> = seq![input];
        let n_params = self.params.len();
        while k < self.layers.len()
            invariant
                n_params == self.params@.len(),
                k <= self.layers@.len(),
                j == count_currying(self.layers@.take(k as int)),
                count_currying(self.layers@) <= self.params@.len(),
                xs[0] == input,
                xs[k as int] == output,
                run_rel(self.layers@, k as int, self.params@, xs, tape@),
            decreases self.layers@.len() - k,
        {
            proof {
                lemma_count_step(self.layers@, k as int);
                lemma_count_bounded(self.layers@, k as int);
            }
            let ghost old_xs = xs;
            let ghost old_tape = tape@;
            match &self.layers[k] {
                Layer::CurryingMorphism(currying) => {
                    assert(j < self.params@.len());
                    let morphism = currying.curry(&self.params[j]);
                    let layer_input = output;
                    let copy = layer_input.clone();
                    let ghost copy_g = copy;
                    let derivative = morphism.derivative(copy);
                    let ghost d_rc = derivative;
                    let entry: TapeEntry<C, M> = DerivativedLayer::CurryingMorphism(derivative);
                    let ghost entry_g = entry;
                    tape.push(entry);
                    let applied = morphism.apply(layer_input);
                    let ghost applied_g = applied;
                    assert(currying.curry_rel(self.params@[j as int], *morphism) && (
                    *morphism).derivative_rel(copy_g, *d_rc) && cloned(layer_input, copy_g)
                        && (*morphism).apply_rel(layer_input, applied_g));
                    assert(self.layers@[k as int] == Layer::<C, M>::CurryingMorphism(*currying));
                    assert(entry_g == TapeEntry::<C, M>::CurryingMorphism(d_rc));
                    assert(step_rel(self.layers@[k as int], self.params@[j as int], layer_input, applied_g, entry_g));
                    match applied {
                        Ok(o) => {
                            output = o;
                        },
                        Err(e) => {
                            assert(run_rel(self.layers@, k as int, self.params@, old_xs, old_tape));
                            assert(forward_err_rel(self.layers@, self.params@, input, e));
                            return Err(e);
                        },
                    }
                    assert(j < self.params@.len());
                    j += 1;
                },
                Layer::Morphism(morphism) => {
                    let layer_input = output;
                    let copy = layer_input.clone();
                    let ghost copy_g = copy;
                    let derivative = morphism.derivative(copy);
                    let ghost d_rc = derivative;
                    let entry: TapeEntry<C, M> = DerivativedLayer::Morphism(derivative);
                    let ghost entry_g = entry;
                    tape.push(entry);
                    let applied = morphism.apply(layer_input);
                    let ghost applied_g = applied;
                    assert((**morphism).derivative_rel(copy_g, *d_rc) && cloned(layer_input, copy_g)
                        && (**morphism).apply_rel(layer_input, applied_g));
                    assert(step_rel(self.layers@[k as int], self.params@[j as int], layer_input, applied_g, entry_g));
                    match applied {
                        Ok(o) => {
                            output = o;
                        },
                        Err(e) => {
                            assert(run_rel(self.layers@, k as int, self.params@, old_xs, old_tape));
                            assert(forward_err_rel(self.layers@, self.params@, input, e));
                            return Err(e);
                        },
                    }
                },
            }
            proof {
                xs = old_xs.push(output);
                assert forall|i: int| 0 <= i < k + 1 implies #[trigger] step_rel(
                    self.layers@[i],
                    self.params@[count_currying(self.layers@.take(i)) as int],
                    xs[i],
                    Ok(xs[i + 1]),
                    tape@[i],
                ) by {
                    if i < k {
                        assert(step_rel(
                            self.layers@[i],
                            self.params@[count_currying(self.layers@.take(i)) as int],
                            old_xs[i],
                            Ok(old_xs[i + 1]),
                            old_tape[i],
                        ));
                    }
                }
            }
            k += 1;
        }
        assert(forward_ok_rel(self.layers@, self.params@, input, output, tape@));
        Ok((output, tape))
    }

    /// Runs the tape backwards from `grad`, collecting the parameter
    /// gradients of the trainable layers in layer order.
    pub fn backward_with_tape(&mut self, tape: Vec<TapeEntry<C, M>>, grad: V) -> (r: CategoryResult<
        Vec<P>,
    >)
        ensures
            *final(self) == *old(self),
            match r {
                Ok(grads) => backward_ok_rel(tape@, grad, grads@),
                Err(e) => backward_err_rel::<P, V, _, _>(tape@, grad, e),
            },
    {
        let ghost tape0 = tape@;
        let n = tape.len();
        let mut rest = tape;
        let mut g = grad;
        let mut reversed: Vec<P> = Vec::new();
        let ghost mut gs: Seq<V> = Seq::new((n + 1) as nat, |i: int| grad);
        let ghost mut pgs: Seq<P> = Seq::new(n as nat, |i: int| arbitrary());
        while rest.len() > 0
            invariant
                n == tape0.len(),
                tape0 == tape@,
                rest@ == tape0.subrange(0, rest.len() as int),
                gs.len() == n + 1,
                pgs.len() == n,
                gs[n as int] == grad,
                gs[rest.len() as int] == g,
                back_run_rel(tape0, rest.len() as int, gs, pgs),
                reversed@.len() == collect_grads(
                    tape0.subrange(rest.len() as int, n as int),
                    pgs.subrange(rest.len() as int, n as int),
                ).len(),
                forall|i: int|
                    0 <= i < reversed@.len() ==> #[trigger] reversed@[i] == collect_grads(
                        tape0.subrange(rest.len() as int, n as int),
                        pgs.subrange(rest.len() as int, n as int),
                    )[reversed@.len() - 1 - i],
            decreases rest.len(),
        {
            let k = rest.len();
            let ghost old_gs = gs;
            let ghost old_pgs = pgs;
            let ghost old_c = collect_grads(
                tape0.subrange(k as int, n as int),
                pgs.subrange(k as int, n as int),
            );
            let entry = rest.pop().unwrap();
            assert(entry == tape0[k - 1]);
            match entry {
                DerivativedLayer::CurryingMorphism(d) => {
                    let res = d.apply(g);
                    match res {
                        Ok((pg, gp)) => {
                            proof {
                                gs = old_gs.update(k - 1, gp);
                                pgs = old_pgs.update(k - 1, pg);
                            }
                            reversed.push(pg);
                            g = gp;
                        },
                        Err(e) => {
                            assert(back_fail_rel::<P, V, _, _>(tape0[k - 1], old_gs[k as int], e));
                            assert(back_run_rel(tape0, k - 1 + 1, old_gs, old_pgs));
                            assert(backward_err_rel::<P, V, _, _>(tape0, grad, e));
                            return Err(e);
                        },
                    }
                },
                DerivativedLayer::Morphism(d) => {
                    let res = d.apply(g);
                    match res {
                        Ok(gp) => {
                            proof {
                                gs = old_gs.update(k - 1, gp);
                            }
                            g = gp;
                        },
                        Err(e) => {
                            assert(back_fail_rel::<P, V, _, _>(tape0[k - 1], old_gs[k as int], e));
                            assert(back_run_rel(tape0, k - 1 + 1, old_gs, old_pgs));
                            assert(backward_err_rel::<P, V, _, _>(tape0, grad, e));
                            return Err(e);
                        },
                    }
                },
            }
            proof {
                assert(back_step_rel(tape0[k - 1], gs[k as int], gs[k - 1], pgs[k - 1]));
                assert forall|i: int| k - 1 <= i < n implies #[trigger] back_step_rel(
                    tape0[i],
                    gs[i + 1],
                    gs[i],
                    pgs[i],
                ) by {
                    if i >= k {
                        assert(back_step_rel(tape0[i], old_gs[i + 1], old_gs[i], old_pgs[i]));
                    }
                }
                let sub_t = tape0.subrange(k - 1, n as int);
                let sub_p = pgs.subrange(k - 1, n as int);
                assert(sub_t.drop_first() =~= tape0.subrange(k as int, n as int));
                assert(sub_p.drop_first() =~= old_pgs.subrange(k as int, n as int));
                assert(sub_t[0] == tape0[k - 1]);
                assert(sub_p[0] == pgs[k - 1]);
                let new_c = collect_grads(sub_t, sub_p);
                assert(new_c == (if sub_t[0] is CurryingMorphism {
                    seq![sub_p[0]]
                } else {
                    Seq::<P>::empty()
                }) + old_c);
            }
        }
        let ghost c = collect_grads(tape0, pgs);
        assert(tape0.subrange(0, n as int) =~= tape0);
        assert(pgs.subrange(0, n as int) =~= pgs);
        let mut gradients: Vec<P> = Vec::new();
        while reversed.len() > 0
            invariant
                reversed@.len() + gradients@.len() == c.len(),
                forall|i: int|
                    0 <= i < reversed@.len() ==> #[trigger] reversed@[i] == c[c.len() - 1 - i],
                forall|i: int| 0 <= i < gradients@.len() ==> #[trigger] gradients@[i] == c[i],
            decreases reversed.len(),
        {
            let x = reversed.pop().unwrap();
            gradients.push(x);
        }
        assert(gradients@ =~= c);
        assert(back_run_rel(tape0, 0, gs, pgs));
        Ok(gradients)
    }

    /// Runs the network forward and keeps its tape for `backward`; on an
    /// error the kept tape is left as it was.
    pub fn forward(&mut self, input: V) -> (r: CategoryResult<V>)
        requires
            count_currying(old(self).layers_view()) <= old(self).params_view().len(),
        ensures
            final(self).layers_view() == old(self).layers_view(),
            final(self).params_view() == old(self).params_view(),
            match r {
                Ok(out) => forward_ok_rel(
                    old(self).layers_view(),
                    old(self).params_view(),
                    input,
                    out,
                    final(self).tape_view(),
                ),
                Err(e) => forward_err_rel(old(self).layers_view(), old(self).params_view(), input, e)
                    && final(self).tape_view() == old(self).tape_view(),
            },
    {
        let (output, tape) = self.forward_with_tape(input)?;
        self.derivative_dense = tape;
        Ok(output)
    }

    /// Runs the kept tape backwards from `grad` and forgets it.
    pub fn backward(&mut self, grad: V) -> (r: CategoryResult<Vec<P>>)
        ensures
            final(self).layers_view() == old(self).layers_view(),
            final(self).params_view() == old(self).params_view(),
            final(self).tape_view() == Seq::<TapeEntry<C, M>>::empty(),
            match r {
                Ok(grads) => backward_ok_rel(old(self).tape_view(), grad, grads@),
                Err(e) => backward_err_rel::<P, V, _, _>(old(self).tape_view(), grad, e),
            },
    {
        let mut tapes: Vec<TapeEntry<C, M>> = Vec::new();
        std::mem::swap(&mut tapes, &mut self.derivative_dense);
        self.backward_with_tape(tapes, grad)
    }
}

} // verus!

verus! {

/// `pr` holds clones of the parameters `pa` followed by clones of `pb`.
pub open spec fn combined_params<P: Clone>(pa: Seq<P>, pb: Seq<P>, pr: Seq<P>) -> bool {
    &&& pr.len() == pa.len() + pb.len()
    &&& forall|i: int| 0 <= i < pa.len() ==> #[trigger] cloned(pa[i], pr[i])
    &&& forall|i: int| 0 <= i < pb.len() ==> #[trigger] cloned(pb[i], pr[pa.len() + i])
}

/// Cloning a `P` gives back an equal value.
pub open spec fn clone_exact<P: Clone>() -> bool {
    forall|x: P, y: P| #[trigger] cloned(x, y) ==> x == y
}

impl<P: Clone, V: Clone, C, M> Sequential<P, V, C, M> where
    C: LayerImpl<P, V, V, V, V, (P, V)>,
    M: DerivatibleMorphism<V, V, V, V, V>,
 {
    /// `r` runs the layers of `self`, then those of `other`, with clones of
    /// their parameters in the same order.
    pub open spec fn combined(&self, other: &Self, r: &Self) -> bool {
        &&& r.layers_view() == self.layers_view() + other.layers_view()
        &&& combined_params(self.params_view(), other.params_view(), r.params_view())
    }
}

/// Copies `src` onto the end of `dst`, each element by `clone`.
fn extend_cloned<T: Clone>(dst: &mut Vec<T>, src: &Vec<T>)
    ensures
        final(dst)@.len() == old(dst)@.len() + src@.len(),
        forall|i: int| 0 <= i < old(dst)@.len() ==> #[trigger] final(dst)@[i] == old(dst)@[i],
        forall|i: int|
            old(dst)@.len() <= i < final(dst)@.len() ==> #[trigger] cloned(
                src@[i - old(dst)@.len()],
                final(dst)@[i],
            ),
{
    let ghost start = dst@;
    let mut i: usize = 0;
    while i < src.len()
        invariant
            i <= src@.len(),
            dst@.len() == start.len() + i,
            forall|j: int| 0 <= j < start.len() ==> #[trigger] dst@[j] == start[j],
            forall|j: int|
                start.len() <= j < dst@.len() ==> #[trigger] cloned(src@[j - start.len()], dst@[j]),
        decreases src.len() - i,
    {
        let x = src[i].clone();
        dst.push(x);
        i += 1;
    }
}

impl<P: Clone, V: Clone, C, M> Monoid for Sequential<P, V, C, M> where
    C: LayerImpl<P, V, V, V, V, (P, V)>,
    M: DerivatibleMorphism<V, V, V, V, V>,
 {
    fn empty() -> (r: Self)
        ensures
            r.layers_view() == Seq::<Layer<C, M>>::empty(),
            r.params_view() == Seq::<P>::empty(),
            r.tape_view() == Seq::<TapeEntry<C, M>>::empty(),
    {
        Self {
            layers: Vec::new(),
            derivative_dense: Vec::new(),
            params: Vec::new(),
            _values: std::marker::PhantomData,
        }
    }

    /// Runs `self`'s layers, then `other`'s; the parameters are cloned.
    fn combine(&self, other: &Self) -> (r: Self)
        ensures
            self.combined(other, &r),
            r.tape_view() == Seq::<TapeEntry<C, M>>::empty(),
    {
        let mut layers: Vec<Layer<C, M>> = Vec::new();
        let mut i: usize = 0;
        while i < self.layers.len()
            invariant
                i <= self.layers@.len(),
                layers@ == self.layers@.subrange(0, i as int),
            decreases self.layers@.len() - i,
        {
            layers.push(self.layers[i].clone());
            i += 1;
        }
        let mut j: usize = 0;
        while j < other.layers.len()
            invariant
                j <= other.layers@.len(),
                layers@ == self.layers@ + other.layers@.subrange(0, j as int),
            decreases other.layers@.len() - j,
        {
            layers.push(other.layers[j].clone());
            j += 1;
        }
        let mut params: Vec<P> = Vec::new();
        extend_cloned(&mut params, &self.params);
        let ghost first = params@;
        extend_cloned(&mut params, &other.params);
        assert forall|i: int| 0 <= i < self.params@.len() implies #[trigger] cloned(
            self.params@[i],
            params@[i],
        ) by {
            assert(cloned(self.params@[i - 0], first[i]));
            assert(params@[i] == first[i]);
        }
        assert forall|i: int| 0 <= i < other.params@.len() implies #[trigger] cloned(
            other.params@[i],
            params@[self.params@.len() + i],
        ) by {
            let k = self.params@.len() + i;
            assert(cloned(other.params@[k - self.params@.len()], params@[k]));
        }
        assert(combined_params(self.params@, other.params@, params@));
        assert(layers@ =~= self.layers@ + other.layers@);
        Self { layers, derivative_dense: Vec::new(), params, _values: std::marker::PhantomData }
    }
}


/// Combining networks is a monoid: the empty network is a unit on both
/// sides, and `(a . b) . c` has the layers and, where cloning a parameter
/// gives an equal value, the parameters of `a . (b . c)`, namely those of
/// `a`, `b` and `c` in turn.
pub proof fn lemma_combine_monoid<P: Clone, V: Clone, C, M>(
    a: Sequential<P, V, C, M>,
    b: Sequential<P, V, C, M>,
    c: Sequential<P, V, C, M>,
    ab: Sequential<P, V, C, M>,
    ab_c: Sequential<P, V, C, M>,
    bc: Sequential<P, V, C, M>,
    a_bc: Sequential<P, V, C, M>,
    e: Sequential<P, V, C, M>,
    ea: Sequential<P, V, C, M>,
    ae: Sequential<P, V, C, M>,
) where
    C: LayerImpl<P, V, V, V, V, (P, V)>,
    M: DerivatibleMorphism<V, V, V, V, V>,

    requires
        clone_exact::<P>(),
        a.combined(&b, &ab),
        ab.combined(&c, &ab_c),
        b.combined(&c, &bc),
        a.combined(&bc, &a_bc),
        e.layers_view() == Seq::<Layer<C, M>>::empty(),
        e.params_view() == Seq::<P>::empty(),
        e.combined(&a, &ea),
        a.combined(&e, &ae),
    ensures
        ab_c.layers_view() == a_bc.layers_view(),
        ab_c.params_view() == a_bc.params_view(),
        ab_c.params_view() == a.params_view() + b.params_view() + c.params_view(),
        ea.layers_view() == a.layers_view(),
        ea.params_view() == a.params_view(),
        ae.layers_view() == a.layers_view(),
        ae.params_view() == a.params_view(),
{
    lemma_exact_combined(a.params_view(), b.params_view(), ab.params_view());
    lemma_exact_combined(ab.params_view(), c.params_view(), ab_c.params_view());
    lemma_exact_combined(b.params_view(), c.params_view(), bc.params_view());
    lemma_exact_combined(a.params_view(), bc.params_view(), a_bc.params_view());
    lemma_exact_combined(e.params_view(), a.params_view(), ea.params_view());
    lemma_exact_combined(a.params_view(), e.params_view(), ae.params_view());
    assert(ab_c.layers_view() =~= a_bc.layers_view());
    assert(ab_c.params_view() =~= a_bc.params_view());
    assert(ea.layers_view() =~= a.layers_view());
    assert(ea.params_view() =~= a.params_view());
    assert(ae.layers_view() =~= a.layers_view());
    assert(ae.params_view() =~= a.params_view());
}

/// With exact clones, combined parameters are the concatenation.
proof fn lemma_exact_combined<P: Clone>(pa: Seq<P>, pb: Seq<P>, pr: Seq<P>)
    requires
        clone_exact::<P>(),
        combined_params(pa, pb, pr),
    ensures
        pr == pa + pb,
{
    assert forall|i: int| 0 <= i < pr.len() implies pr[i] == (pa + pb)[i] by {
        if i < pa.len() {
            assert(cloned(pa[i], pr[i]));
        } else {
            assert(cloned(pb[i - pa.len()], pr[pa.len() + (i - pa.len())]));
        }
    }
    assert(pr =~= pa + pb);
}

} // verus!


verus! {

proof fn lemma_tape_count_first<A, B>(t: Seq<DerivativedLayer<A, B>>)
    requires
        t.len() > 0,
    ensures
        tape_count(t) == (if t[0] is CurryingMorphism {
            1nat
        } else {
            0nat
        }) + tape_count(t.drop_first()),
    decreases t.len(),
{
    if t.len() > 1 {
        assert(t.drop_last().drop_first() =~= t.drop_first().drop_last());
        lemma_tape_count_first(t.drop_last());
    } else {
        assert(t.drop_first() =~= Seq::<DerivativedLayer<A, B>>::empty());
        assert(t.drop_last() =~= Seq::<DerivativedLayer<A, B>>::empty());
    }
}

proof fn lemma_collect_len<P, A, B>(t: Seq<DerivativedLayer<A, B>>, p: Seq<P>)
    requires
        p.len() == t.len(),
    ensures
        collect_grads(t, p).len() == tape_count(t),
    decreases t.len(),
{
    if t.len() > 0 {
        lemma_tape_count_first(t);
        lemma_collect_len(t.drop_first(), p.drop_first());
    }
}

proof fn lemma_kinds_count<C, M, A, B>(layers: Seq<Layer<C, M>>, tape: Seq<DerivativedLayer<A, B>>)
    requires
        layers.len() == tape.len(),
        forall|i: int|
            0 <= i < layers.len() ==> (#[trigger] layers[i] is CurryingMorphism <==> tape[i] is CurryingMorphism),
    ensures
        count_currying(layers) == tape_count(tape),
    decreases layers.len(),
{
    if layers.len() > 0 {
        lemma_kinds_count(layers.drop_last(), tape.drop_last());
    }
}

/// A forward pass records one tape entry per layer, and as many entries of
/// trainable layers as there are trainable layers.
pub proof fn lemma_forward_tape_count<P, V: Clone, C, M>(
    layers: Seq<Layer<C, M>>,
    params: Seq<P>,
    input: V,
    output: V,
    tape: Seq<TapeEntry<C, M>>,
) where
    C: LayerImpl<P, V, V, V, V, (P, V)>,
    M: DerivatibleMorphism<V, V, V, V, V>,

    requires
        forward_ok_rel(layers, params, input, output, tape),
    ensures
        tape.len() == layers.len(),
        tape_count(tape) == count_currying(layers),
{
    let xs = choose|xs: Seq<V>|
        #[trigger] run_rel(layers, layers.len() as int, params, xs, tape) && xs[0] == input
            && xs[layers.len() as int] == output;
    assert forall|i: int| 0 <= i < layers.len() implies (#[trigger] layers[i] is CurryingMorphism
        <==> tape[i] is CurryingMorphism) by {
        assert(step_rel(
            layers[i],
            params[count_currying(layers.take(i)) as int],
            xs[i],
            Ok(xs[i + 1]),
            tape[i],
        ));
    }
    lemma_kinds_count(layers, tape);
}

/// A backward pass gives one parameter gradient per tape entry of a
/// trainable layer.
pub proof fn lemma_backward_grad_count<P, V, A, B>(
    tape: Seq<DerivativedLayer<A, B>>,
    grad: V,
    grads: Seq<P>,
) where A: Morphism<Input = V, Output = (P, V)>, B: Morphism<Input = V, Output = V>
    requires
        backward_ok_rel(tape, grad, grads),
    ensures
        grads.len() == tape_count(tape),
{
    let (gs, pgs) = choose|gs: Seq<V>, pgs: Seq<P>|
        #[trigger] back_run_rel(tape, 0, gs, pgs) && gs[tape.len() as int] == grad && grads
            == collect_grads(tape, pgs);
    lemma_collect_len(tape, pgs);
}

/// `layer` (with parameters `p` when trainable) gives at most one result on
/// each input: all morphisms that currying it with `p` may build agree.
pub open spec fn layer_functional<P, V: Clone, C, M>(layer: Layer<C, M>, p: P) -> bool where
    C: LayerImpl<P, V, V, V, V, (P, V)>,
    M: DerivatibleMorphism<V, V, V, V, V>,
 {
    match layer {
        Layer::CurryingMorphism(c) => forall|
            m1: <C as DerivatibleCurryingMorphism>::Curried,
            m2: <C as DerivatibleCurryingMorphism>::Curried,
            x: V,
            r1: CategoryResult<V>,
            r2: CategoryResult<V>,
        |
            #![trigger c.curry_rel(p, m1), c.curry_rel(p, m2), m1.apply_rel(x, r1), m2.apply_rel(x, r2)]
            c.curry_rel(p, m1) && c.curry_rel(p, m2) && m1.apply_rel(x, r1) && m2.apply_rel(x, r2)
                ==> r1 == r2,
        Layer::Morphism(mm) => forall|x: V, r1: CategoryResult<V>, r2: CategoryResult<V>|
            #![trigger mm.apply_rel(x, r1), mm.apply_rel(x, r2)]
            mm.apply_rel(x, r1) && mm.apply_rel(x, r2) ==> r1 == r2,
    }
}

/// Two forward steps of a functional layer on one input have one result.
proof fn lemma_step_agree<P, V: Clone, C, M>(
    layer: Layer<C, M>,
    p: P,
    x: V,
    r1: CategoryResult<V>,
    r2: CategoryResult<V>,
    en1: TapeEntry<C, M>,
    en2: TapeEntry<C, M>,
) where
    C: LayerImpl<P, V, V, V, V, (P, V)>,
    M: DerivatibleMorphism<V, V, V, V, V>,

    requires
        layer_functional::<P, V, C, M>(layer, p),
        step_rel(layer, p, x, r1, en1),
        step_rel(layer, p, x, r2, en2),
    ensures
        r1 == r2,
{
    match layer {
        Layer::CurryingMorphism(c) => {
            let d1 = en1->CurryingMorphism_0;
            let d2 = en2->CurryingMorphism_0;
            let (m1, y1) = choose|m: <C as DerivatibleCurryingMorphism>::Curried, x2: V|
                #![trigger c.curry_rel(p, m), m.derivative_rel(x2, *d1)]
                c.curry_rel(p, m) && m.derivative_rel(x2, *d1) && cloned(x, x2) && m.apply_rel(x, r1);
            let (m2, y2) = choose|m: <C as DerivatibleCurryingMorphism>::Curried, x2: V|
                #![trigger c.curry_rel(p, m), m.derivative_rel(x2, *d2)]
                c.curry_rel(p, m) && m.derivative_rel(x2, *d2) && cloned(x, x2) && m.apply_rel(x, r2);
            assert(c.curry_rel(p, m1) && c.curry_rel(p, m2) && m1.apply_rel(x, r1) && m2.apply_rel(x, r2));
        },
        Layer::Morphism(mm) => {
            let d1 = en1->Morphism_0;
            let d2 = en2->Morphism_0;
            let y1 = choose|x2: V| #[trigger] mm.derivative_rel(x2, *d1) && cloned(x, x2) && mm.apply_rel(x, r1);
            let y2 = choose|x2: V| #[trigger] mm.derivative_rel(x2, *d2) && cloned(x, x2) && mm.apply_rel(x, r2);
            assert(mm.apply_rel(x, r1) && mm.apply_rel(x, r2));
        },
    }
}

/// Two forward runs of functional layers from one input pass the same
/// values as far as both went.
proof fn lemma_runs_agree<P, V: Clone, C, M>(
    layers: Seq<Layer<C, M>>,
    params: Seq<P>,
    k1: int,
    xs1: Seq<V>,
    t1: Seq<TapeEntry<C, M>>,
    k2: int,
    xs2: Seq<V>,
    t2: Seq<TapeEntry<C, M>>,
    i: int,
) where
    C: LayerImpl<P, V, V, V, V, (P, V)>,
    M: DerivatibleMorphism<V, V, V, V, V>,

    requires
        forall|j: int|
            0 <= j < layers.len() ==> #[trigger] layer_functional::<P, V, C, M>(
                layers[j],
                params[count_currying(layers.take(j)) as int],
            ),
        run_rel(layers, k1, params, xs1, t1),
        run_rel(layers, k2, params, xs2, t2),
        xs1[0] == xs2[0],
        0 <= i <= k1,
        i <= k2,
    ensures
        xs1[i] == xs2[i],
    decreases i,
{
    if i > 0 {
        let k = i - 1;
        lemma_runs_agree(layers, params, k1, xs1, t1, k2, xs2, t2, k);
        let p = params[count_currying(layers.take(k)) as int];
        assert(step_rel(layers[k], p, xs1[k], Ok(xs1[k + 1]), t1[k]));
        assert(step_rel(layers[k], p, xs2[k], Ok(xs2[k + 1]), t2[k]));
        assert(layer_functional::<P, V, C, M>(layers[k], p));
        lemma_step_agree(layers[k], p, xs1[k], Ok(xs1[k + 1]), Ok(xs2[k + 1]), t1[k], t2[k]);
    }
}

/// Where every layer gives at most one result per input, a forward pass
/// over given parameters has one outcome: one output, or one error, never
/// both.
pub proof fn lemma_forward_deterministic<P, V: Clone, C, M>(
    layers: Seq<Layer<C, M>>,
    params: Seq<P>,
    input: V,
    o1: V,
    o2: V,
    t1: Seq<TapeEntry<C, M>>,
    t2: Seq<TapeEntry<C, M>>,
    e1: CategoryError,
    e2: CategoryError,
) where
    C: LayerImpl<P, V, V, V, V, (P, V)>,
    M: DerivatibleMorphism<V, V, V, V, V>,

    requires
        forall|j: int|
            0 <= j < layers.len() ==> #[trigger] layer_functional::<P, V, C, M>(
                layers[j],
                params[count_currying(layers.take(j)) as int],
            ),
    ensures
        forward_ok_rel(layers, params, input, o1, t1) && forward_ok_rel(layers, params, input, o2, t2)
            ==> o1 == o2,
        forward_err_rel(layers, params, input, e1) && forward_err_rel(layers, params, input, e2) ==> e1
            == e2,
        !(forward_ok_rel(layers, params, input, o1, t1) && forward_err_rel(layers, params, input, e1)),
{
    let n = layers.len() as int;
    if forward_ok_rel(layers, params, input, o1, t1) && forward_ok_rel(layers, params, input, o2, t2) {
        let xs1 = choose|xs: Seq<V>|
            #[trigger] run_rel(layers, n, params, xs, t1) && xs[0] == input && xs[n] == o1;
        let xs2 = choose|xs: Seq<V>|
            #[trigger] run_rel(layers, n, params, xs, t2) && xs[0] == input && xs[n] == o2;
        lemma_runs_agree(layers, params, n, xs1, t1, n, xs2, t2, n);
    }
    if forward_err_rel(layers, params, input, e1) && forward_err_rel(layers, params, input, e2) {
        let (xs1, ta1, en1) = choose|xs: Seq<V>, tape: Seq<TapeEntry<C, M>>, entry: TapeEntry<C, M>|
            #![trigger run_rel(layers, xs.len() - 1, params, xs, tape), step_rel(layers[xs.len() - 1], params[count_currying(layers.take(xs.len() - 1)) as int], xs[xs.len() - 1], Err(e1), entry)]
            run_rel(layers, xs.len() - 1, params, xs, tape) && xs.len() - 1 < layers.len() && xs[0]
                == input && step_rel(
                layers[xs.len() - 1],
                params[count_currying(layers.take(xs.len() - 1)) as int],
                xs[xs.len() - 1],
                Err(e1),
                entry,
            );
        let (xs2, ta2, en2) = choose|xs: Seq<V>, tape: Seq<TapeEntry<C, M>>, entry: TapeEntry<C, M>|
            #![trigger run_rel(layers, xs.len() - 1, params, xs, tape), step_rel(layers[xs.len() - 1], params[count_currying(layers.take(xs.len() - 1)) as int], xs[xs.len() - 1], Err(e2), entry)]
            run_rel(layers, xs.len() - 1, params, xs, tape) && xs.len() - 1 < layers.len() && xs[0]
                == input && step_rel(
                layers[xs.len() - 1],
                params[count_currying(layers.take(xs.len() - 1)) as int],
                xs[xs.len() - 1],
                Err(e2),
                entry,
            );
        let j1 = xs1.len() - 1;
        let j2 = xs2.len() - 1;
        lemma_fail_not_before(layers, params, j1, xs1, ta1, en1, e1, j2, xs2, ta2);
        lemma_fail_not_before(layers, params, j2, xs2, ta2, en2, e2, j1, xs1, ta1);
        lemma_runs_agree(layers, params, j1, xs1, ta1, j2, xs2, ta2, j1);
        let p = params[count_currying(layers.take(j1)) as int];
        assert(layer_functional::<P, V, C, M>(layers[j1], p));
        lemma_step_agree(layers[j1], p, xs1[j1], Err(e1), Err(e2), en1, en2);
    }
    if forward_ok_rel(layers, params, input, o1, t1) && forward_err_rel(layers, params, input, e1) {
        let xs1 = choose|xs: Seq<V>|
            #[trigger] run_rel(layers, n, params, xs, t1) && xs[0] == input && xs[n] == o1;
        let (xs2, ta2, en2) = choose|xs: Seq<V>, tape: Seq<TapeEntry<C, M>>, entry: TapeEntry<C, M>|
            #![trigger run_rel(layers, xs.len() - 1, params, xs, tape), step_rel(layers[xs.len() - 1], params[count_currying(layers.take(xs.len() - 1)) as int], xs[xs.len() - 1], Err(e1), entry)]
            run_rel(layers, xs.len() - 1, params, xs, tape) && xs.len() - 1 < layers.len() && xs[0]
                == input && step_rel(
                layers[xs.len() - 1],
                params[count_currying(layers.take(xs.len() - 1)) as int],
                xs[xs.len() - 1],
                Err(e1),
                entry,
            );
        let j = xs2.len() - 1;
        lemma_fail_not_before(layers, params, j, xs2, ta2, en2, e1, n, xs1, t1);
    }
}

/// A run of functional layers that fails at layer `j` does not come from a
/// run that got past layer `j` from the same input: `j >= k`.
proof fn lemma_fail_not_before<P, V: Clone, C, M>(
    layers: Seq<Layer<C, M>>,
    params: Seq<P>,
    j: int,
    xs1: Seq<V>,
    t1: Seq<TapeEntry<C, M>>,
    en1: TapeEntry<C, M>,
    e: CategoryError,
    k: int,
    xs2: Seq<V>,
    t2: Seq<TapeEntry<C, M>>,
) where
    C: LayerImpl<P, V, V, V, V, (P, V)>,
    M: DerivatibleMorphism<V, V, V, V, V>,

    requires
        forall|i: int|
            0 <= i < layers.len() ==> #[trigger] layer_functional::<P, V, C, M>(
                layers[i],
                params[count_currying(layers.take(i)) as int],
            ),
        run_rel(layers, j, params, xs1, t1),
        j < layers.len(),
        step_rel(layers[j], params[count_currying(layers.take(j)) as int], xs1[j], Err(e), en1),
        run_rel(layers, k, params, xs2, t2),
        xs1[0] == xs2[0],
    ensures
        j >= k,
{
    if j < k {
        lemma_runs_agree(layers, params, j, xs1, t1, k, xs2, t2, j);
        let p = params[count_currying(layers.take(j)) as int];
        assert(step_rel(layers[j], p, xs2[j], Ok(xs2[j + 1]), t2[j]));
        assert(layer_functional::<P, V, C, M>(layers[j], p));
        lemma_step_agree(layers[j], p, xs1[j], Err(e), Ok(xs2[j + 1]), en1, t2[j]);
    }
}

/// The backward morphism of `entry` gives at most one result on each
/// gradient.
pub open spec fn entry_functional<P, V, A, B>(entry: DerivativedLayer<A, B>) -> bool where
    A: Morphism<Input = V, Output = (P, V)>,
    B: Morphism<Input = V, Output = V>,
 {
    match entry {
        DerivativedLayer::CurryingMorphism(d) => forall|
            g: V,
            r1: CategoryResult<(P, V)>,
            r2: CategoryResult<(P, V)>,
        |
            #![trigger d.apply_rel(g, r1), d.apply_rel(g, r2)]
            d.apply_rel(g, r1) && d.apply_rel(g, r2) ==> r1 == r2,
        DerivativedLayer::Morphism(d) => forall|g: V, r1: CategoryResult<V>, r2: CategoryResult<V>|
            #![trigger d.apply_rel(g, r1), d.apply_rel(g, r2)]
            d.apply_rel(g, r1) && d.apply_rel(g, r2) ==> r1 == r2,
    }
}

/// Two backward runs of a tape of functional entries that start from the
/// same gradient agree on every entry from `k` on.
proof fn lemma_back_runs_agree<P, V, A, B>(
    tape: Seq<DerivativedLayer<A, B>>,
    k0: int,
    gs1: Seq<V>,
    pgs1: Seq<P>,
    gs2: Seq<V>,
    pgs2: Seq<P>,
    k: int,
) where A: Morphism<Input = V, Output = (P, V)>, B: Morphism<Input = V, Output = V>
    requires
        forall|i: int| 0 <= i < tape.len() ==> #[trigger] entry_functional::<P, V, A, B>(tape[i]),
        back_run_rel(tape, k0, gs1, pgs1),
        back_run_rel(tape, k0, gs2, pgs2),
        gs1[tape.len() as int] == gs2[tape.len() as int],
        k0 <= k <= tape.len(),
    ensures
        forall|i: int| k <= i <= tape.len() ==> gs1[i] == gs2[i],
        forall|i: int| k <= i < tape.len() && tape[i] is CurryingMorphism ==> pgs1[i] == pgs2[i],
    decreases tape.len() - k,
{
    if k < tape.len() {
        lemma_back_runs_agree(tape, k0, gs1, pgs1, gs2, pgs2, k + 1);
        assert(back_step_rel(tape[k], gs1[k + 1], gs1[k], pgs1[k]));
        assert(back_step_rel(tape[k], gs2[k + 1], gs2[k], pgs2[k]));
        assert(entry_functional::<P, V, A, B>(tape[k]));
        match tape[k] {
            DerivativedLayer::CurryingMorphism(d) => {
                assert(d.apply_rel(gs1[k + 1], Ok((pgs1[k], gs1[k]))));
                assert(d.apply_rel(gs1[k + 1], Ok((pgs2[k], gs2[k]))));
            },
            DerivativedLayer::Morphism(d) => {
                assert(d.apply_rel(gs1[k + 1], Ok::<V, CategoryError>(gs1[k])));
                assert(d.apply_rel(gs1[k + 1], Ok::<V, CategoryError>(gs2[k])));
            },
        }
    }
}

/// Where every backward morphism of a tape gives at most one result per
/// gradient, running the tape backwards from a gradient has one outcome:
/// one list of parameter gradients, or one error, never both. So the
/// gradients that `backward` gives after `forward` are those that
/// `backward_with_tape` gives on the tape that the forward pass kept.
pub proof fn lemma_backward_deterministic<P, V, A, B>(
    tape: Seq<DerivativedLayer<A, B>>,
    grad: V,
    grads1: Seq<P>,
    grads2: Seq<P>,
    e1: CategoryError,
    e2: CategoryError,
) where A: Morphism<Input = V, Output = (P, V)>, B: Morphism<Input = V, Output = V>
    requires
        forall|i: int| 0 <= i < tape.len() ==> #[trigger] entry_functional::<P, V, A, B>(tape[i]),
    ensures
        backward_ok_rel(tape, grad, grads1) && backward_ok_rel(tape, grad, grads2) ==> grads1 == grads2,
        backward_err_rel::<P, V, A, B>(tape, grad, e1) && backward_err_rel::<P, V, A, B>(tape, grad, e2) ==> e1 == e2,
        !(backward_ok_rel(tape, grad, grads1) && backward_err_rel::<P, V, A, B>(tape, grad, e1)),
{
    if backward_ok_rel(tape, grad, grads1) && backward_ok_rel(tape, grad, grads2) {
        let (gs1, pgs1) = choose|gs: Seq<V>, pgs: Seq<P>|
            #[trigger] back_run_rel(tape, 0, gs, pgs) && gs[tape.len() as int] == grad && grads1
                == collect_grads(tape, pgs);
        let (gs2, pgs2) = choose|gs: Seq<V>, pgs: Seq<P>|
            #[trigger] back_run_rel(tape, 0, gs, pgs) && gs[tape.len() as int] == grad && grads2
                == collect_grads(tape, pgs);
        lemma_back_runs_agree(tape, 0, gs1, pgs1, gs2, pgs2, 0);
        lemma_collect_agree(tape, pgs1, pgs2);
    }
    if backward_err_rel::<P, V, A, B>(tape, grad, e1) && backward_err_rel::<P, V, A, B>(tape, grad, e2) {
        let (k1, gs1, pgs1) = choose|k: int, gs: Seq<V>, pgs: Seq<P>|
            #[trigger] back_run_rel(tape, k + 1, gs, pgs) && 0 <= k && gs[tape.len() as int] == grad
                && back_fail_rel::<P, V, A, B>(tape[k], gs[k + 1], e1);
        let (k2, gs2, pgs2) = choose|k: int, gs: Seq<V>, pgs: Seq<P>|
            #[trigger] back_run_rel(tape, k + 1, gs, pgs) && 0 <= k && gs[tape.len() as int] == grad
                && back_fail_rel::<P, V, A, B>(tape[k], gs[k + 1], e2);
        lemma_err_runs_agree(tape, grad, k1, gs1, pgs1, e1, k2, gs2, pgs2, e2);
        lemma_err_runs_agree(tape, grad, k2, gs2, pgs2, e2, k1, gs1, pgs1, e1);
        if k1 == k2 {
            lemma_back_runs_agree(tape, k1 + 1, gs1, pgs1, gs2, pgs2, k1 + 1);
            assert(entry_functional::<P, V, A, B>(tape[k1]));
            match tape[k1] {
                DerivativedLayer::CurryingMorphism(d) => {
                    assert(d.apply_rel(gs1[k1 + 1], Err::<(P, V), CategoryError>(e1)));
                    assert(d.apply_rel(gs1[k1 + 1], Err::<(P, V), CategoryError>(e2)));
                },
                DerivativedLayer::Morphism(d) => {
                    assert(d.apply_rel(gs1[k1 + 1], Err::<V, CategoryError>(e1)));
                    assert(d.apply_rel(gs1[k1 + 1], Err::<V, CategoryError>(e2)));
                },
            }
        }
    }
    if backward_ok_rel(tape, grad, grads1) && backward_err_rel::<P, V, A, B>(tape, grad, e1) {
        let (gs1, pgs1) = choose|gs: Seq<V>, pgs: Seq<P>|
            #[trigger] back_run_rel(tape, 0, gs, pgs) && gs[tape.len() as int] == grad && grads1
                == collect_grads(tape, pgs);
        let (k2, gs2, pgs2) = choose|k: int, gs: Seq<V>, pgs: Seq<P>|
            #[trigger] back_run_rel(tape, k + 1, gs, pgs) && 0 <= k && gs[tape.len() as int] == grad
                && back_fail_rel::<P, V, A, B>(tape[k], gs[k + 1], e1);
        assert(back_run_rel(tape, k2 + 1, gs1, pgs1));
        lemma_back_runs_agree(tape, k2 + 1, gs1, pgs1, gs2, pgs2, k2 + 1);
        lemma_step_not_both(tape[k2], gs1[k2 + 1], gs1[k2], pgs1[k2], e1);
    }
}

/// Parameter gradients that agree on the trainable entries collect alike.
proof fn lemma_collect_agree<P, A, B>(tape: Seq<DerivativedLayer<A, B>>, p1: Seq<P>, p2: Seq<P>)
    requires
        p1.len() == tape.len(),
        p2.len() == tape.len(),
        forall|i: int| 0 <= i < tape.len() && tape[i] is CurryingMorphism ==> p1[i] == p2[i],
    ensures
        collect_grads(tape, p1) == collect_grads(tape, p2),
    decreases tape.len(),
{
    if tape.len() > 0 {
        assert forall|i: int|
            0 <= i < tape.drop_first().len() && tape.drop_first()[i] is CurryingMorphism implies p1.drop_first()[i]
                == p2.drop_first()[i] by {
            assert(tape.drop_first()[i] == tape[i + 1]);
        }
        lemma_collect_agree(tape.drop_first(), p1.drop_first(), p2.drop_first());
    }
}

/// A functional entry does not both succeed and fail on one gradient.
proof fn lemma_step_not_both<P, V, A, B>(entry: DerivativedLayer<A, B>, g: V, g_prev: V, pg: P, e: CategoryError) where
    A: Morphism<Input = V, Output = (P, V)>,
    B: Morphism<Input = V, Output = V>,
    requires
        entry_functional::<P, V, A, B>(entry),
        back_step_rel(entry, g, g_prev, pg),
    ensures
        !back_fail_rel::<P, V, A, B>(entry, g, e),
{
    match entry {
        DerivativedLayer::CurryingMorphism(d) => {
            if d.apply_rel(g, Err::<(P, V), CategoryError>(e)) {
                assert(d.apply_rel(g, Ok((pg, g_prev))));
            }
        },
        DerivativedLayer::Morphism(d) => {
            if d.apply_rel(g, Err::<V, CategoryError>(e)) {
                assert(d.apply_rel(g, Ok::<V, CategoryError>(g_prev)));
            }
        },
    }
}

/// Of two failing backward runs, the one that fails at `k1` does not fail
/// earlier than the other: `k1 >= k2`.
proof fn lemma_err_runs_agree<P, V, A, B>(
    tape: Seq<DerivativedLayer<A, B>>,
    grad: V,
    k1: int,
    gs1: Seq<V>,
    pgs1: Seq<P>,
    e1: CategoryError,
    k2: int,
    gs2: Seq<V>,
    pgs2: Seq<P>,
    e2: CategoryError,
) where A: Morphism<Input = V, Output = (P, V)>, B: Morphism<Input = V, Output = V>
    requires
        forall|i: int| 0 <= i < tape.len() ==> #[trigger] entry_functional::<P, V, A, B>(tape[i]),
        back_run_rel(tape, k1 + 1, gs1, pgs1),
        0 <= k1,
        gs1[tape.len() as int] == grad,
        back_fail_rel::<P, V, A, B>(tape[k1], gs1[k1 + 1], e1),
        back_run_rel(tape, k2 + 1, gs2, pgs2),
        0 <= k2,
        gs2[tape.len() as int] == grad,
        back_fail_rel::<P, V, A, B>(tape[k2], gs2[k2 + 1], e2),
    ensures
        k1 >= k2,
{
    if k1 < k2 {
        assert(back_run_rel(tape, k2 + 1, gs1, pgs1));
        lemma_back_runs_agree(tape, k2 + 1, gs1, pgs1, gs2, pgs2, k2 + 1);
        assert(back_step_rel(tape[k2], gs1[k2 + 1], gs1[k2], pgs1[k2]));
        assert(entry_functional::<P, V, A, B>(tape[k2]));
        lemma_step_not_both(tape[k2], gs1[k2 + 1], gs1[k2], pgs1[k2], e2);
    }
}

/// Putting sequential networks side by side is associative, with the empty
/// network as unit, on their layers and on their parameters.
pub proof fn lemma_sequential_monoid<C, M, P>(
    la: Seq<Layer<C, M>>,
    lb: Seq<Layer<C, M>>,
    lc: Seq<Layer<C, M>>,
    pa: Seq<P>,
    pb: Seq<P>,
    pc: Seq<P>,
)
    ensures
        (la + lb) + lc == la + (lb + lc),
        (pa + pb) + pc == pa + (pb + pc),
        Seq::<Layer<C, M>>::empty() + la == la,
        la + Seq::<Layer<C, M>>::empty() == la,
        Seq::<P>::empty() + pa == pa,
        pa + Seq::<P>::empty() == pa,
        count_currying(la + lb) == count_currying(la) + count_currying(lb),
    decreases lb.len(),
{
    assert((la + lb) + lc =~= la + (lb + lc));
    assert((pa + pb) + pc =~= pa + (pb + pc));
    assert(Seq::<Layer<C, M>>::empty() + la =~= la);
    assert(la + Seq::<Layer<C, M>>::empty() =~= la);
    assert(Seq::<P>::empty() + pa =~= pa);
    assert(pa + Seq::<P>::empty() =~= pa);
    if lb.len() == 0 {
        assert(la + lb =~= la);
    } else {
        assert((la + lb).drop_last() =~= la + lb.drop_last());
        lemma_sequential_monoid(la, lb.drop_last(), lc, pa, pb, pc);
    }
}

} // verus!

verus! {

proof fn lemma_count_prefix<C, M>(la: Seq<Layer<C, M>>, lb: Seq<Layer<C, M>>, i: int)
    requires
        0 <= i <= la.len(),
    ensures
        count_currying((la + lb).take(i)) == count_currying(la.take(i)),
{
    assert((la + lb).take(i) =~= la.take(i));
}

proof fn lemma_count_suffix<C, M>(la: Seq<Layer<C, M>>, lb: Seq<Layer<C, M>>, j: int)
    requires
        0 <= j <= lb.len(),
    ensures
        count_currying((la + lb).take(la.len() + j)) == count_currying(la) + count_currying(
            lb.take(j),
        ),
    decreases j,
{
    if j == 0 {
        assert((la + lb).take(la.len() as int) =~= la);
        assert(lb.take(0) =~= Seq::<Layer<C, M>>::empty());
    } else {
        lemma_count_suffix(la, lb, j - 1);
        lemma_count_step(la + lb, la.len() + j - 1);
        lemma_count_step(lb, j - 1);
    }
}

/// Running the layers of `a` followed by those of `b` is running `a` and
/// then `b` on its output: the tape splits at the end of `a`'s layers.
/// `a` must own exactly its parameters, and `b` enough for its trainable
/// layers.
pub proof fn lemma_forward_concat<P, V: Clone, C, M>(
    la: Seq<Layer<C, M>>,
    lb: Seq<Layer<C, M>>,
    pa: Seq<P>,
    pb: Seq<P>,
    input: V,
    output: V,
    tape: Seq<TapeEntry<C, M>>,
) where
    C: LayerImpl<P, V, V, V, V, (P, V)>,
    M: DerivatibleMorphism<V, V, V, V, V>,

    requires
        pa.len() == count_currying(la),
        pb.len() >= count_currying(lb),
    ensures
        forward_ok_rel(la + lb, pa + pb, input, output, tape) <==> (tape.len() == la.len()
            + lb.len() && exists|mid: V|
            #[trigger] forward_ok_rel(la, pa, input, mid, tape.take(la.len() as int))
                && forward_ok_rel(lb, pb, mid, output, tape.skip(la.len() as int))),
{
    let l = la + lb;
    let p = pa + pb;
    let na = la.len() as int;
    let nb = lb.len() as int;
    lemma_count_bounded(la, 0);
    lemma_count_bounded(lb, 0);
    // The step of layer `i` of the whole is the step of its part.
    assert forall|i: int, x: V, y: V, e: TapeEntry<C, M>| 0 <= i < na implies (#[trigger] step_rel(
        l[i],
        p[count_currying(l.take(i)) as int],
        x,
        Ok(y),
        e,
    ) <==> step_rel(la[i], pa[count_currying(la.take(i)) as int], x, Ok(y), e)) by {
        lemma_count_prefix(la, lb, i);
        lemma_count_bounded(la, i);
        assert(l[i] == la[i]);
    }
    assert forall|j: int, x: V, y: V, e: TapeEntry<C, M>| 0 <= j < nb implies (#[trigger] step_rel(
        l[na + j],
        p[count_currying(l.take(na + j)) as int],
        x,
        Ok(y),
        e,
    ) <==> step_rel(lb[j], pb[count_currying(lb.take(j)) as int], x, Ok(y), e)) by {
        lemma_count_suffix(la, lb, j);
        lemma_count_bounded(lb, j);
        assert(l[na + j] == lb[j]);
    }
    if forward_ok_rel(l, p, input, output, tape) {
        let xs = choose|xs: Seq<V>|
            #[trigger] run_rel(l, l.len() as int, p, xs, tape) && xs[0] == input && xs[l.len() as int]
                == output;
        let xa = xs.take(na + 1);
        let xb = xs.skip(na);
        let ta = tape.take(na);
        let tb = tape.skip(na);
        assert forall|i: int| 0 <= i < na implies #[trigger] step_rel(
            la[i],
            pa[count_currying(la.take(i)) as int],
            xa[i],
            Ok(xa[i + 1]),
            ta[i],
        ) by {
            assert(step_rel(
                l[i],
                p[count_currying(l.take(i)) as int],
                xs[i],
                Ok(xs[i + 1]),
                tape[i],
            ));
        }
        assert(run_rel(la, na, pa, xa, ta));
        assert forall|j: int| 0 <= j < nb implies #[trigger] step_rel(
            lb[j],
            pb[count_currying(lb.take(j)) as int],
            xb[j],
            Ok(xb[j + 1]),
            tb[j],
        ) by {
            assert(step_rel(
                l[na + j],
                p[count_currying(l.take(na + j)) as int],
                xs[na + j],
                Ok(xs[na + j + 1]),
                tape[na + j],
            ));
        }
        assert(run_rel(lb, nb, pb, xb, tb));
        assert(forward_ok_rel(la, pa, input, xs[na], ta));
        assert(forward_ok_rel(lb, pb, xs[na], output, tb));
    }
    if tape.len() == na + nb && exists|mid: V|
        #[trigger] forward_ok_rel(la, pa, input, mid, tape.take(na)) && forward_ok_rel(
            lb,
            pb,
            mid,
            output,
            tape.skip(na),
        ) {
        let mid = choose|mid: V|
            #[trigger] forward_ok_rel(la, pa, input, mid, tape.take(na)) && forward_ok_rel(
                lb,
                pb,
                mid,
                output,
                tape.skip(na),
            );
        let ta = tape.take(na);
        let tb = tape.skip(na);
        let xa = choose|xs: Seq<V>| #[trigger] run_rel(la, na, pa, xs, ta) && xs[0] == input && xs[na] == mid;
        let xb = choose|xs: Seq<V>| #[trigger] run_rel(lb, nb, pb, xs, tb) && xs[0] == mid && xs[nb] == output;
        let xs = xa + xb.skip(1);
        assert forall|i: int| 0 <= i < na + nb implies #[trigger] step_rel(
            l[i],
            p[count_currying(l.take(i)) as int],
            xs[i],
            Ok(xs[i + 1]),
            tape[i],
        ) by {
            if i < na {
                assert(step_rel(la[i], pa[count_currying(la.take(i)) as int], xa[i], Ok(xa[i + 1]), ta[i]));
            } else {
                let j = i - na;
                assert(step_rel(lb[j], pb[count_currying(lb.take(j)) as int], xb[j], Ok(xb[j + 1]), tb[j]));
                assert(step_rel(
                    l[na + j],
                    p[count_currying(l.take(na + j)) as int],
                    xb[j],
                    Ok(xb[j + 1]),
                    tape[na + j],
                ));
            }
        }
        assert(run_rel(l, l.len() as int, p, xs, tape));
    }
}

} // verus!
