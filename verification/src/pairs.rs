use vstd::prelude::*;
use crate::dataset::{indices_of, lemma_indices_of, DataSet};

verus! {

/// What the pair sampler needs next.
pub enum PairAction {
    /// A uniformly random number in `0 .. n`.
    Draw(usize),
    /// All pairs are drawn.
    Done,
}

/// Where the sampler is within the current pair.
pub enum PairStage {
    AnchorClass,
    AnchorIndex { class: usize },
    SameCandidate { class: usize, anchor: usize },
    OtherClass { class: usize, anchor: usize },
    OtherIndex { class: usize, other: usize, anchor: usize },
    Finished,
}

/// Draws `batch_size` pairs of items from a data set: pair `i` is made of
/// two items of one class when `i` is even (two different items unless the
/// class has only one), and of two items of different classes when `i` is
/// odd. Each random number it needs is asked for by `next_action` and
/// handed back to `step`.
pub struct PairSampler {
    classes: Vec<u8>,
    pools: Vec<Vec<usize>>,
    batch_size: usize,
    stage: PairStage,
    left: Vec<usize>,
    right: Vec<usize>,
    same: Vec<bool>,
    labels: Ghost<Seq<u8>>,
}

/// Pair `k` fits its position: same class for even `k`, different classes
/// for odd `k`.
pub open spec fn pair_ok(labels: Seq<u8>, k: int, left: usize, right: usize, same: bool) -> bool {
    &&& same == (k % 2 == 0)
    &&& left < labels.len()
    &&& right < labels.len()
    &&& same ==> labels[left as int] == labels[right as int] && (left != right || indices_of(
        labels,
        labels[left as int],
    ).len() == 1)
    &&& !same ==> labels[left as int] != labels[right as int]
}

/// The labels hold what `batch_size` pairs need: some item for a first
/// pair, and two items of different classes for the different-class pair
/// that comes second.
pub open spec fn enough_classes(labels: Seq<u8>, batch_size: nat) -> bool {
    &&& batch_size >= 1 ==> labels.len() > 0
    &&& batch_size >= 2 ==> exists|i: int, j: int|
        0 <= i < labels.len() && 0 <= j < labels.len() && #[trigger] labels[i] != #[trigger] labels[j]
}

impl PairSampler {
    pub closed spec fn label_seq(&self) -> Seq<u8> {
        self.labels@
    }

    pub closed spec fn done(&self) -> nat {
        self.left@.len()
    }

    pub closed spec fn batch(&self) -> nat {
        self.batch_size as nat
    }

    pub closed spec fn class_count(&self) -> nat {
        self.classes@.len()
    }

    pub closed spec fn pool_len(&self, c: int) -> nat {
        self.pools@[c]@.len()
    }

    /// The labels that occur, in increasing order.
    pub closed spec fn classes(&self) -> Seq<u8> {
        self.classes@
    }

    /// The positions of the items of class `c`.
    pub closed spec fn pool(&self, c: int) -> Seq<usize> {
        self.pools@[c]@
    }

    pub closed spec fn stage(&self) -> PairStage {
        self.stage
    }

    /// Left items of the pairs drawn so far.
    pub closed spec fn lefts(&self) -> Seq<usize> {
        self.left@
    }

    /// Right items of the pairs drawn so far.
    pub closed spec fn rights(&self) -> Seq<usize> {
        self.right@
    }

    /// Whether each pair drawn so far is of one class.
    pub closed spec fn sames(&self) -> Seq<bool> {
        self.same@
    }

    /// `next` has the pairs of `self`, the stage `stage`, and the same
    /// classes and pools.
    pub open spec fn kept(&self, next: &Self, stage: PairStage) -> bool {
        &&& next.lefts() == self.lefts()
        &&& next.rights() == self.rights()
        &&& next.sames() == self.sames()
        &&& next.stage() == stage
    }

    /// `next` has the pairs of `self` followed by `(a, b, same)`, and asks
    /// for the next pair unless the batch is full.
    pub open spec fn recorded(&self, next: &Self, a: usize, b: usize, same: bool) -> bool {
        &&& next.lefts() == self.lefts().push(a)
        &&& next.rights() == self.rights().push(b)
        &&& next.sames() == self.sames().push(same)
        &&& next.stage() == if self.done() + 1 < self.batch() {
            PairStage::AnchorClass
        } else {
            PairStage::Finished
        }
    }

    /// What `step(r)` makes of `self`: pick the anchor's class, then the
    /// anchor; for an even pair, draw a candidate of the anchor's class
    /// until it differs from the anchor (or the class has one item); for an
    /// odd pair, draw a class until it differs from the anchor's, then an
    /// item of it.
    pub open spec fn step_spec(&self, next: &Self, r: usize) -> bool {
        match self.stage() {
            PairStage::AnchorClass => self.kept(next, PairStage::AnchorIndex { class: r }),
            PairStage::AnchorIndex { class } => {
                let anchor = self.pool(class as int)[r as int];
                self.kept(
                    next,
                    if self.done() % 2 == 0 {
                        PairStage::SameCandidate { class, anchor }
                    } else {
                        PairStage::OtherClass { class, anchor }
                    },
                )
            },
            PairStage::SameCandidate { class, anchor } => {
                let cand = self.pool(class as int)[r as int];
                if cand != anchor || self.pool_len(class as int) == 1 {
                    self.recorded(next, anchor, cand, true)
                } else {
                    self.kept(next, self.stage())
                }
            },
            PairStage::OtherClass { class, anchor } => {
                if r != class {
                    self.kept(next, PairStage::OtherIndex { class, other: r, anchor })
                } else {
                    self.kept(next, self.stage())
                }
            },
            PairStage::OtherIndex { class, other, anchor } => {
                self.recorded(next, anchor, self.pool(other as int)[r as int], false)
            },
            PairStage::Finished => false,
        }
    }

    /// The number that `next_action` asks for lies below this.
    pub open spec fn bound(&self) -> nat {
        match self.stage() {
            PairStage::AnchorClass => self.class_count(),
            PairStage::AnchorIndex { class } => self.pool_len(class as int),
            PairStage::SameCandidate { class, anchor } => self.pool_len(class as int),
            PairStage::OtherClass { class, anchor } => self.class_count(),
            PairStage::OtherIndex { class, other, anchor } => self.pool_len(other as int),
            PairStage::Finished => 0,
        }
    }

    pub open spec fn is_finished(&self) -> bool {
        self.stage() is Finished
    }

    pub closed spec fn wf(&self) -> bool {
        let labels = self.labels@;
        let n = self.classes@.len();
        &&& labels.len() <= usize::MAX
        &&& self.pools@.len() == n
        &&& forall|c: int| 0 <= c < n ==> #[trigger] self.pools@[c]@ == indices_of(labels, self.classes@[c])
        &&& forall|c: int| 0 <= c < n ==> #[trigger] self.pools@[c]@.len() > 0
        &&& forall|c: int, d: int| 0 <= c < n && 0 <= d < n && c != d ==> #[trigger] self.classes@[c] != #[trigger] self.classes@[d]
        &&& self.right@.len() == self.left@.len()
        &&& self.same@.len() == self.left@.len()
        &&& self.left@.len() <= self.batch_size
        &&& forall|k: int|
            0 <= k < self.left@.len() ==> #[trigger] pair_ok(labels, k, self.left@[k], self.right@[k], self.same@[k])
        &&& match self.stage {
            PairStage::AnchorClass => self.left@.len() < self.batch_size,
            PairStage::AnchorIndex { class } => self.left@.len() < self.batch_size && class < n,
            PairStage::SameCandidate { class, anchor } => {
                &&& self.left@.len() < self.batch_size
                &&& self.left@.len() % 2 == 0
                &&& class < n
                &&& anchor < labels.len()
                &&& labels[anchor as int] == self.classes@[class as int]
            },
            PairStage::OtherClass { class, anchor } => {
                &&& self.left@.len() < self.batch_size
                &&& self.left@.len() % 2 == 1
                &&& class < n
                &&& anchor < labels.len()
                &&& labels[anchor as int] == self.classes@[class as int]
            },
            PairStage::OtherIndex { class, other, anchor } => {
                &&& self.left@.len() < self.batch_size
                &&& self.left@.len() % 2 == 1
                &&& class < n
                &&& other < n
                &&& other != class
                &&& anchor < labels.len()
                &&& labels[anchor as int] == self.classes@[class as int]
            },
            PairStage::Finished => self.left@.len() == self.batch_size,
        }
    }

    /// A sampler for `batch_size` pairs of `data`.
    pub fn new(data: &DataSet, batch_size: usize) -> (r: PairSampler)
        requires
            data.wf(),
            enough_classes(data.label_seq(), batch_size as nat),
        ensures
            r.wf(),
            r.label_seq() == data.label_seq(),
            r.done() == 0,
            r.batch() == batch_size,
            r.stage() == if batch_size == 0 {
                PairStage::Finished
            } else {
                PairStage::AnchorClass
            },
            forall|x: u8|
                #![trigger r.classes().contains(x)]
                r.classes().contains(x) <==> indices_of(data.label_seq(), x).len() > 0,
            forall|c: int, d: int|
                0 <= c < d < r.class_count() ==> #[trigger] r.classes()[c] < #[trigger] r.classes()[d],
            r.class_count() == r.classes().len(),
            batch_size >= 1 ==> r.class_count() >= 1,
            batch_size >= 2 ==> r.class_count() >= 2,
            forall|c: int|
                0 <= c < r.class_count() ==> #[trigger] r.pool(c) == indices_of(data.label_seq(), r.classes()[c]),
    {
        proof {
            data.lemma_wf();
        }
        let n = data.len();
        let ghost labels = data.label_seq();
        let mut classes: Vec<u8> = Vec::new();
        let mut pools: Vec<Vec<usize>> = Vec::new();
        let mut l: u16 = 0;
        while l < 256
            invariant
                l <= 256,
                data.wf(),
                labels == data.label_seq(),
                n == labels.len(),
                forall|x: u8| #![trigger data.positions_of(x)] data.positions_of(x) == if indices_of(labels, x).len() > 0 {
                    Some(indices_of(labels, x))
                } else {
                    None::<Seq<usize>>
                },
                pools@.len() == classes@.len(),
                forall|c: int| 0 <= c < classes@.len() ==> #[trigger] classes@[c] < l,
                forall|c: int| 0 <= c < classes@.len() ==> #[trigger] pools@[c]@ == indices_of(labels, classes@[c]),
                forall|c: int| 0 <= c < classes@.len() ==> #[trigger] pools@[c]@.len() > 0,
                forall|c: int, d: int| 0 <= c < d < classes@.len() ==> #[trigger] classes@[c] < #[trigger] classes@[d],
                forall|x: u8|
                    #![trigger classes@.contains(x)]
                    x < l ==> (classes@.contains(x) <==> indices_of(labels, x).len() > 0),
                forall|x: u8| #![trigger classes@.contains(x)] x >= l ==> !classes@.contains(x),
            decreases 256 - l,
        {
            let label = l as u8;
            assert(data.positions_of(label) == data.positions_of(label));
            let ghost before = classes@;
            match data.positions(label) {
                Some(v) => {
                    classes.push(label);
                    pools.push(v);
                },
                None => {},
            }
            proof {
                assert forall|x: u8| #![trigger classes@.contains(x)] x <= label implies (classes@.contains(
                    x,
                ) <==> indices_of(labels, x).len() > 0) by {
                    if x < label {
                        if classes@.contains(x) {
                            let c = choose|c: int| 0 <= c < classes@.len() && classes@[c] == x;
                            if c < before.len() {
                                assert(before[c] == x);
                                assert(before.contains(x));
                            }
                        }
                        if before.contains(x) {
                            let c = choose|c: int| 0 <= c < before.len() && before[c] == x;
                            assert(classes@[c] == x);
                        }
                    } else {
                        if before.contains(x) {
                            let c = choose|c: int| 0 <= c < before.len() && before[c] == x;
                            assert(before[c] < l);
                        }
                        if classes@.contains(x) && !before.contains(x) {
                            let c = choose|c: int| 0 <= c < classes@.len() && classes@[c] == x;
                            assert(c >= before.len());
                        }
                        if indices_of(labels, x).len() > 0 {
                            assert(classes@[classes@.len() - 1] == x);
                        }
                    }
                }
                assert forall|x: u8| #![trigger classes@.contains(x)] x > label implies !classes@.contains(x) by {
                    if classes@.contains(x) {
                        let c = choose|c: int| 0 <= c < classes@.len() && classes@[c] == x;
                        if c < before.len() {
                            assert(before[c] == x);
                            assert(before.contains(x));
                        }
                    }
                }
            }
            l += 1;
        }
        proof {
            lemma_indices_of(labels, 0);
            if batch_size >= 1 {
                let x = labels[0];
                lemma_indices_of(labels, x);
                assert(labels[0int] == x);
                assert(indices_of(labels, x).contains(0int as usize));
                assert(classes@.contains(x));
            }
            if batch_size >= 2 {
                let (i, j) = choose|i: int, j: int|
                    0 <= i < labels.len() && 0 <= j < labels.len() && #[trigger] labels[i] != #[trigger] labels[j];
                let x = labels[i];
                let y = labels[j];
                lemma_indices_of(labels, x);
                lemma_indices_of(labels, y);
                assert(indices_of(labels, x).contains(i as usize));
                assert(indices_of(labels, y).contains(j as usize));
                assert(classes@.contains(x));
                assert(classes@.contains(y));
                if classes@.len() < 2 {
                    let cx = choose|c: int| 0 <= c < classes@.len() && classes@[c] == x;
                    let cy = choose|c: int| 0 <= c < classes@.len() && classes@[c] == y;
                    assert(cx == cy);
                }
            }
        }
        let stage = if batch_size == 0 {
            PairStage::Finished
        } else {
            PairStage::AnchorClass
        };
        PairSampler {
            classes,
            pools,
            batch_size,
            stage,
            left: Vec::new(),
            right: Vec::new(),
            same: Vec::new(),
            labels: Ghost(labels),
        }
    }

    /// What the sampler needs next: a random number below some bound, or
    /// nothing once all pairs are drawn.
    pub fn next_action(&self) -> (r: PairAction)
        requires
            self.wf(),
        ensures
            match r {
                PairAction::Draw(b) => !self.is_finished() && b == self.bound(),
                PairAction::Done => self.is_finished(),
            },
    {
        match &self.stage {
            PairStage::AnchorClass => PairAction::Draw(self.classes.len()),
            PairStage::AnchorIndex { class } => PairAction::Draw(self.pools[*class].len()),
            PairStage::SameCandidate { class, anchor } => PairAction::Draw(self.pools[*class].len()),
            PairStage::OtherClass { class, anchor } => PairAction::Draw(self.classes.len()),
            PairStage::OtherIndex { class, other, anchor } => PairAction::Draw(self.pools[*other].len()),
            PairStage::Finished => PairAction::Done,
        }
    }

    fn record(&mut self, a: usize, b: usize, same: bool)
        requires
            old(self).left@.len() < old(self).batch_size,
            old(self).right@.len() == old(self).left@.len(),
            old(self).same@.len() == old(self).left@.len(),
        ensures
            final(self).left@ == old(self).left@.push(a),
            final(self).right@ == old(self).right@.push(b),
            final(self).same@ == old(self).same@.push(same),
            final(self).classes == old(self).classes,
            final(self).pools == old(self).pools,
            final(self).batch_size == old(self).batch_size,
            final(self).labels == old(self).labels,
            final(self).stage == (if old(self).left@.len() + 1 < old(self).batch_size {
                PairStage::AnchorClass
            } else {
                PairStage::Finished
            }),
    {
        self.left.push(a);
        self.right.push(b);
        self.same.push(same);
        if self.left.len() < self.batch_size {
            self.stage = PairStage::AnchorClass;
        } else {
            self.stage = PairStage::Finished;
        }
    }

    /// Takes the random number `r` that `next_action` asked for.
    pub fn step(&mut self, r: usize)
        requires
            old(self).wf(),
            !old(self).is_finished(),
            r < old(self).bound(),
        ensures
            final(self).wf(),
            final(self).label_seq() == old(self).label_seq(),
            final(self).batch() == old(self).batch(),
            final(self).classes() == old(self).classes(),
            forall|c: int| #[trigger] final(self).pool(c) == old(self).pool(c),
            old(self).step_spec(&*final(self), r),
            old(self).stage() matches PairStage::AnchorIndex { class } ==> final(self).lefts()
                == old(self).lefts() && final(self).stage() == if old(self).done() % 2 == 0 {
                PairStage::SameCandidate {
                    class,
                    anchor: indices_of(old(self).label_seq(), old(self).classes()[class as int])[r as int],
                }
            } else {
                PairStage::OtherClass {
                    class,
                    anchor: indices_of(old(self).label_seq(), old(self).classes()[class as int])[r as int],
                }
            },
            old(self).stage() matches PairStage::SameCandidate { class, anchor } ==> ({
                let pool = indices_of(old(self).label_seq(), old(self).classes()[class as int]);
                if pool[r as int] != anchor || pool.len() == 1 {
                    &&& final(self).lefts() == old(self).lefts().push(anchor)
                    &&& final(self).rights() == old(self).rights().push(pool[r as int])
                    &&& final(self).sames() == old(self).sames().push(true)
                } else {
                    final(self).lefts() == old(self).lefts() && final(self).stage() == old(self).stage()
                }
            }),
            old(self).stage() matches PairStage::OtherIndex { class, other, anchor } ==> {
                &&& final(self).lefts() == old(self).lefts().push(anchor)
                &&& final(self).rights() == old(self).rights().push(
                    indices_of(old(self).label_seq(), old(self).classes()[other as int])[r as int],
                )
                &&& final(self).sames() == old(self).sames().push(false)
            },
    {
        let ghost labels = self.labels@;
        proof {
            lemma_indices_of(labels, 0);
        }
        match self.stage {
            PairStage::AnchorClass => {
                self.stage = PairStage::AnchorIndex { class: r };
            },
            PairStage::AnchorIndex { class } => {
                let a = self.pools[class][r];
                proof {
                    lemma_indices_of(labels, self.classes@[class as int]);
                }
                if self.left.len() % 2 == 0 {
                    self.stage = PairStage::SameCandidate { class, anchor: a };
                } else {
                    self.stage = PairStage::OtherClass { class, anchor: a };
                }
            },
            PairStage::SameCandidate { class, anchor } => {
                let cand = self.pools[class][r];
                let pool_len = self.pools[class].len();
                proof {
                    lemma_indices_of(labels, self.classes@[class as int]);
                }
                if cand != anchor || pool_len == 1 {
                    let ghost k = self.left@.len() as int;
                    self.record(anchor, cand, true);
                    proof {
                        assert(pair_ok(labels, k, anchor, cand, true));
                        assert forall|j: int|
                            0 <= j < self.left@.len() implies #[trigger] pair_ok(labels, j, self.left@[j], self.right@[j], self.same@[j]) by {
                            if j < k {
                                assert(pair_ok(labels, j, old(self).left@[j], old(self).right@[j], old(self).same@[j]));
                            }
                        }
                    }
                }
            },
            PairStage::OtherClass { class, anchor } => {
                if r != class {
                    self.stage = PairStage::OtherIndex { class, other: r, anchor };
                }
            },
            PairStage::OtherIndex { class, other, anchor } => {
                let b = self.pools[other][r];
                proof {
                    lemma_indices_of(labels, self.classes@[other as int]);
                    assert(self.classes@[other as int] != self.classes@[class as int]);
                }
                let ghost k = self.left@.len() as int;
                self.record(anchor, b, false);
                proof {
                    assert(pair_ok(labels, k, anchor, b, false));
                    assert forall|j: int|
                        0 <= j < self.left@.len() implies #[trigger] pair_ok(labels, j, self.left@[j], self.right@[j], self.same@[j]) by {
                        if j < k {
                            assert(pair_ok(labels, j, old(self).left@[j], old(self).right@[j], old(self).same@[j]));
                        }
                    }
                }
            },
            PairStage::Finished => {},
        }
        proof {
            Self::lemma_step_draws(*old(self), *self, r);
        }
    }

    /// What a step does with the draw `r`, in terms of the labels: the
    /// anchor is item `r` of its class; the candidate of a same-class pair
    /// is item `r` of the anchor's class, kept unless it is the anchor in a
    /// class of more items; and the partner of a different-class pair is
    /// item `r` of the class drawn before.
    pub proof fn lemma_step_draws(old_s: PairSampler, new_s: PairSampler, r: usize)
        requires
            old_s.wf(),
            !old_s.is_finished(),
            r < old_s.bound(),
            old_s.step_spec(&new_s, r),
        ensures
            old_s.stage() matches PairStage::AnchorIndex { class } ==> new_s.lefts() == old_s.lefts()
                && new_s.stage() == if old_s.done() % 2 == 0 {
                PairStage::SameCandidate {
                    class,
                    anchor: indices_of(old_s.label_seq(), old_s.classes()[class as int])[r as int],
                }
            } else {
                PairStage::OtherClass {
                    class,
                    anchor: indices_of(old_s.label_seq(), old_s.classes()[class as int])[r as int],
                }
            },
            old_s.stage() matches PairStage::SameCandidate { class, anchor } ==> ({
                let pool = indices_of(old_s.label_seq(), old_s.classes()[class as int]);
                if pool[r as int] != anchor || pool.len() == 1 {
                    &&& new_s.lefts() == old_s.lefts().push(anchor)
                    &&& new_s.rights() == old_s.rights().push(pool[r as int])
                    &&& new_s.sames() == old_s.sames().push(true)
                } else {
                    new_s.lefts() == old_s.lefts() && new_s.stage() == old_s.stage()
                }
            }),
            old_s.stage() matches PairStage::OtherIndex { class, other, anchor } ==> {
                &&& new_s.lefts() == old_s.lefts().push(anchor)
                &&& new_s.rights() == old_s.rights().push(
                    indices_of(old_s.label_seq(), old_s.classes()[other as int])[r as int],
                )
                &&& new_s.sames() == old_s.sames().push(false)
            },
    {
        match old_s.stage {
            PairStage::AnchorIndex { class } => {
                assert(old_s.pool(class as int) == indices_of(old_s.label_seq(), old_s.classes()[class as int]));
            },
            PairStage::SameCandidate { class, anchor } => {
                assert(old_s.pool(class as int) == indices_of(old_s.label_seq(), old_s.classes()[class as int]));
            },
            PairStage::OtherIndex { class, other, anchor } => {
                assert(old_s.pool(other as int) == indices_of(old_s.label_seq(), old_s.classes()[other as int]));
            },
            _ => {},
        }
    }

    /// The pairs drawn: left items, right items, and whether each pair is
    /// of one class.
    pub fn into_pairs(self) -> (r: (Vec<usize>, Vec<usize>, Vec<bool>))
        requires
            self.wf(),
            self.is_finished(),
        ensures
            r.0@.len() == self.batch(),
            r.1@.len() == self.batch(),
            r.2@.len() == self.batch(),
            r.0@ == self.lefts(),
            r.1@ == self.rights(),
            r.2@ == self.sames(),
            forall|k: int|
                0 <= k < self.batch() ==> #[trigger] pair_ok(self.label_seq(), k, r.0@[k], r.1@[k], r.2@[k]),
    {
        (self.left, self.right, self.same)
    }
}

} // verus!
