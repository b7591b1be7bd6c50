use vstd::prelude::*;
use std::collections::HashMap;
use crate::augment::cut_image;
use crate::idx::{
    be_u32,
    image_file_counts, image_file_ok, image_file_pixels, label_file_labels, label_file_ok,
    parse_image_file, parse_label_file,
};
use crate::ndarray_specs::{
    image_array_clone, image_array_dim, image_array_from_shape_vec, image_array_row,
    image_array_select_rows, image_dims, image_elems, label_array_clone, label_array_from_vec,
    label_array_get, label_array_len, label_elems, ImageArray, LabelArray,
};

verus! {

broadcast use vstd::std_specs::hash::group_hash_axioms;

/// The positions in `labels` that hold `label`, in increasing order.
pub open spec fn indices_of(labels: Seq<u8>, label: u8) -> Seq<usize>
    decreases labels.len(),
{
    if labels.len() == 0 {
        Seq::empty()
    } else {
        indices_of(labels.drop_last(), label) + if labels.last() == label {
            seq![(labels.len() - 1) as usize]
        } else {
            Seq::empty()
        }
    }
}

/// `by_label` maps each label that occurs to the positions that hold it.
pub open spec fn groups_labels(by_label: Map<u8, Vec<usize>>, labels: Seq<u8>) -> bool {
    forall|l: u8|
        #![trigger by_label.contains_key(l)]
        #![trigger indices_of(labels, l)]
        (by_label.contains_key(l) <==> indices_of(labels, l).len() > 0) && (by_label.contains_key(l)
            ==> by_label[l]@ == indices_of(labels, l))
}

/// Groups the positions of the labels by label.
pub fn build_by_label(labels: &LabelArray) -> (r: HashMap<u8, Vec<usize>>)
    ensures
        groups_labels(r@, label_elems(*labels)),
{
    let ghost s = label_elems(*labels);
    let n = label_array_len(labels);
    let mut by_label: HashMap<u8, Vec<usize>> = HashMap::new();
    let mut i: usize = 0;
    while i < n
        invariant
            n == s.len(),
            s == label_elems(*labels),
            i <= n,
            groups_labels(by_label@, s.take(i as int)),
        decreases n - i,
    {
        let l = label_array_get(labels, i);
        assert(s.take(i + 1).drop_last() =~= s.take(i as int));
        let mut positions = match by_label.remove(&l) {
            Some(v) => v,
            None => Vec::new(),
        };
        positions.push(i);
        by_label.insert(l, positions);
        assert forall|k: u8| #![trigger by_label@.contains_key(k)] #![trigger indices_of(s.take(i + 1), k)]
            (by_label@.contains_key(k) <==> indices_of(s.take(i + 1), k).len() > 0) && (
            by_label@.contains_key(k) ==> by_label@[k]@ == indices_of(s.take(i + 1), k)) by {
            assert(indices_of(s.take(i + 1), k) == indices_of(s.take(i as int), k) + if k == l {
                seq![i]
            } else {
                Seq::<usize>::empty()
            });
            if k != l {
                assert(indices_of(s.take(i as int), k) =~= indices_of(s.take(i + 1), k));
            }
        }
        i += 1;
    }
    assert(s.take(n as int) =~= s);
    by_label
}

} // verus!

verus! {

/// A labelled image set: `images` has one row of pixels per label.
pub struct DataSet {
    pub labels: LabelArray,
    pub images: ImageArray,
    /// (rows, columns) of one image.
    pub image_shape: (usize, usize),
    pub by_label: HashMap<u8, Vec<usize>>,
}

/// The images and labels of one batch, copied out of a data set.
pub struct BatchView {
    /// The pixels, one image after the other.
    pub images: Vec<u8>,
    pub labels: Vec<u8>,
    /// The number of pixels of one image.
    pub image_size: usize,
}

/// The number of batches of `batch_size` that cover `n` items.
pub open spec fn num_batches(n: nat, batch_size: nat) -> nat {
    if batch_size == 0 {
        0
    } else {
        ((n + batch_size - 1) / batch_size as int) as nat
    }
}

/// Batch `b` covers items `b * batch_size` up to (not including) this.
pub open spec fn batch_end(b: nat, batch_size: nat, n: nat) -> nat {
    if (b + 1) * batch_size < n {
        ((b + 1) * batch_size) as nat
    } else {
        n
    }
}

impl DataSet {
    /// The labels, the image rows and the grouping by label agree.
    pub closed spec fn wf(&self) -> bool {
        &&& label_elems(self.labels).len() == image_dims(self.images).0
        &&& image_dims(self.images).1 == self.image_shape.0 * self.image_shape.1
        &&& image_elems(self.images).len() == image_dims(self.images).0 * image_dims(self.images).1
        &&& groups_labels(self.by_label@, label_elems(self.labels))
    }

    pub closed spec fn label_seq(&self) -> Seq<u8> {
        label_elems(self.labels)
    }

    pub closed spec fn pixel_seq(&self) -> Seq<u8> {
        image_elems(self.images)
    }

    /// The number of pixels of one image.
    pub closed spec fn image_size(&self) -> nat {
        image_dims(self.images).1 as nat
    }

    /// The positions that hold `label`, where it occurs.
    pub closed spec fn positions_of(&self, label: u8) -> Option<Seq<usize>> {
        if self.by_label@.contains_key(label) {
            Some(self.by_label@[label]@)
        } else {
            None
        }
    }

    /// Facts that hold of every well-formed data set.
    pub proof fn lemma_wf(&self)
        requires
            self.wf(),
        ensures
            self.pixel_seq().len() == self.label_seq().len() * self.image_size(),
            self.image_size() == self.image_shape.0 * self.image_shape.1,
            forall|l: u8|
                #![trigger self.positions_of(l)]
                self.positions_of(l) == if indices_of(self.label_seq(), l).len() > 0 {
                    Some(indices_of(self.label_seq(), l))
                } else {
                    None::<Seq<usize>>
                },
    {
        assert forall|l: u8| #![trigger self.positions_of(l)] self.positions_of(l) == if indices_of(
            self.label_seq(),
            l,
        ).len() > 0 {
            Some(indices_of(self.label_seq(), l))
        } else {
            None::<Seq<usize>>
        } by {
            assert(self.by_label@.contains_key(l) <==> indices_of(self.label_seq(), l).len() > 0);
        }
    }

    /// Builds a data set from the bytes of an IDX image file and an IDX
    /// label file that hold the same number of items.
    pub fn from_idx_bytes(image_buf: &Vec<u8>, label_buf: &Vec<u8>) -> (r: DataSet)
        requires
            image_file_ok(image_buf@),
            label_file_ok(label_buf@),
            image_file_counts(image_buf@).0 == label_file_labels(label_buf@).len(),
        ensures
            r.wf(),
            r.label_seq() == label_file_labels(label_buf@),
            r.pixel_seq() == image_file_pixels(image_buf@),
            r.image_shape == (image_file_counts(image_buf@).1 as usize, image_file_counts(
                image_buf@,
            ).2 as usize),
            r.image_size() == image_file_counts(image_buf@).1 * image_file_counts(image_buf@).2,
            r.image_shape.0 == be_u32(image_buf@, 8),
            r.image_shape.1 == be_u32(image_buf@, 12),
    {
        let (pixels, num, rows, cols) = parse_image_file(image_buf);
        let labels = label_array_from_vec(parse_label_file(label_buf));
        let images = match image_array_from_shape_vec(num, rows * cols, pixels) {
            Ok(a) => a,
            Err(_) => vstd::pervasive::unreached(),
        };
        let by_label = build_by_label(&labels);
        DataSet { labels, images, image_shape: (rows, cols), by_label }
    }
}

} // verus!

verus! {

proof fn lemma_row_step(i: int, size: int, rows: int)
    requires
        0 <= i < rows,
        0 <= size,
    ensures
        i * size + size == (i + 1) * size,
        (i + 1) * size <= rows * size,
        0 <= i * size,
{
    assert(i * size + size == (i + 1) * size) by (nonlinear_arith);
    assert((i + 1) * size <= rows * size) by (nonlinear_arith)
        requires
            i + 1 <= rows,
            0 <= size,
    ;
    assert(0 <= i * size) by (nonlinear_arith)
        requires
            0 <= i,
            0 <= size,
    ;
}

proof fn lemma_num_batches(n: nat, bs: nat, b: nat)
    requires
        bs > 0,
        b * bs >= n,
        b == 0 || (b - 1) * bs < n,
    ensures
        num_batches(n, bs) == b,
{
    if b == 0 {
        assert(n == 0) by (nonlinear_arith)
            requires
                b * bs >= n,
                b == 0,
        ;
        assert((n + bs - 1) / bs as int == 0) by (nonlinear_arith)
            requires
                n == 0,
                bs > 0,
        ;
    } else {
        assert((n + bs - 1) / bs as int == b) by (nonlinear_arith)
            requires
                bs > 0,
                b * bs >= n,
                (b - 1) * bs < n,
                b >= 1,
        ;
    }
}

impl DataSet {
    /// The number of items.
    pub fn len(&self) -> (r: usize)
        ensures
            r == self.label_seq().len(),
    {
        label_array_len(&self.labels)
    }

    /// The label of item `i`.
    pub fn label_at(&self, i: usize) -> (r: u8)
        requires
            i < self.label_seq().len(),
        ensures
            r == self.label_seq()[i as int],
    {
        label_array_get(&self.labels, i)
    }

    /// The labels of items `start .. end`.
    pub fn copy_labels(&self, start: usize, end: usize) -> (r: Vec<u8>)
        requires
            start <= end <= self.label_seq().len(),
        ensures
            r@ == self.label_seq().subrange(start as int, end as int),
    {
        let mut out: Vec<u8> = Vec::new();
        let mut i = start;
        while i < end
            invariant
                start <= i <= end,
                end <= self.label_seq().len(),
                out@ == self.label_seq().subrange(start as int, i as int),
            decreases end - i,
        {
            out.push(label_array_get(&self.labels, i));
            i += 1;
        }
        out
    }

    /// The pixels of items `start .. end`, one image after the other.
    pub fn copy_images(&self, start: usize, end: usize) -> (r: Vec<u8>)
        requires
            self.wf(),
            start <= end <= self.label_seq().len(),
        ensures
            r@ == self.pixel_seq().subrange(
                start * self.image_size(),
                end * self.image_size(),
            ),
    {
        let ghost size = self.image_size() as int;
        let ghost rows = self.label_seq().len() as int;
        let mut out: Vec<u8> = Vec::new();
        let mut i = start;
        proof {
            if start < rows {
                lemma_row_step(start as int, size, rows);
            } else {
                assert(start * size == rows * size);
            }
            assert(self.pixel_seq().subrange(start * size, start * size) =~= Seq::<u8>::empty());
        }
        while i < end
            invariant
                start <= i <= end,
                end <= rows,
                rows == self.label_seq().len(),
                size == self.image_size(),
                self.wf(),
                0 <= start * size <= i * size <= self.pixel_seq().len(),
                self.pixel_seq().len() == rows * size,
                out@ == self.pixel_seq().subrange(start * size, i * size),
            decreases end - i,
        {
            proof {
                lemma_row_step(i as int, size, rows);
            }
            let row = image_array_row(&self.images, i);
            let mut k: usize = 0;
            let ghost before = out@;
            while k < row.len()
                invariant
                    k <= row@.len(),
                    row@.len() == size,
                    out@ == before + row@.subrange(0, k as int),
                decreases row@.len() - k,
            {
                out.push(row[k]);
                k += 1;
            }
            assert(out@ =~= self.pixel_seq().subrange(start * size, (i + 1) * size));
            i += 1;
        }
        out
    }

    /// Cuts the first `min(len, limit)` items into consecutive batches of
    /// `batch_size` (the last one may be shorter).
    pub fn batch_view_iter(&self, batch_size: usize, limit: usize) -> (r: Vec<BatchView>)
        requires
            self.wf(),
            batch_size > 0,
            num_batches(
                if self.label_seq().len() < limit {
                    self.label_seq().len()
                } else {
                    limit as nat
                },
                batch_size as nat,
            ) * batch_size <= usize::MAX,
        ensures
            ({
                let n = if self.label_seq().len() < limit {
                    self.label_seq().len()
                } else {
                    limit as nat
                };
                &&& r@.len() == num_batches(n, batch_size as nat)
                &&& forall|b: int|
                    #![trigger r@[b]]
                    0 <= b < r@.len() ==> {
                        &&& r@[b].labels@ == self.label_seq().subrange(
                            b * batch_size,
                            batch_end(b as nat, batch_size as nat, n) as int,
                        )
                        &&& r@[b].images@ == self.pixel_seq().subrange(
                            b * batch_size * self.image_size(),
                            (batch_end(b as nat, batch_size as nat, n) * self.image_size()) as int,
                        )
                        &&& r@[b].image_size == self.image_size()
                    }
            }),
    {
        let total = label_array_len(&self.labels);
        let n = if total < limit {
            total
        } else {
            limit
        };
        let (_, size) = image_array_dim(&self.images);
        let mut out: Vec<BatchView> = Vec::new();
        let mut start: usize = 0;
        let ghost mut b: nat = 0;
        while start < n
            invariant
                self.wf(),
                n <= self.label_seq().len(),
                size == self.image_size(),
                batch_size > 0,
                n == (if self.label_seq().len() < limit {
                    self.label_seq().len()
                } else {
                    limit as nat
                }),
                num_batches(n as nat, batch_size as nat) * batch_size <= usize::MAX,
                start == b * batch_size,
                b == 0 || (b - 1) * batch_size < n,
                b * batch_size <= num_batches(n as nat, batch_size as nat) * batch_size,
                out@.len() == b,
                forall|c: int|
                    #![trigger out@[c]]
                    0 <= c < out@.len() ==> {
                        &&& out@[c].labels@ == self.label_seq().subrange(
                            c * batch_size,
                            batch_end(c as nat, batch_size as nat, n as nat) as int,
                        )
                        &&& out@[c].images@ == self.pixel_seq().subrange(
                            c * batch_size * self.image_size(),
                            (batch_end(c as nat, batch_size as nat, n as nat) * self.image_size()) as int,
                        )
                        &&& out@[c].image_size == self.image_size()
                    },
            decreases n + batch_size - start,
        {
            proof {
                assert(b * batch_size < n);
                assert((b + 1) * batch_size == b * batch_size + batch_size) by (nonlinear_arith);
                assert((b + 1) * batch_size <= num_batches(n as nat, batch_size as nat) * batch_size) by {
                    if (b + 1) * batch_size > num_batches(n as nat, batch_size as nat) * batch_size {
                        assert(b + 1 > num_batches(n as nat, batch_size as nat)) by (nonlinear_arith)
                            requires
                                (b + 1) * batch_size > num_batches(n as nat, batch_size as nat)
                                    * batch_size,
                                batch_size > 0,
                        ;
                        assert(b >= num_batches(n as nat, batch_size as nat));
                        assert(b * batch_size >= num_batches(n as nat, batch_size as nat) * batch_size)
                            by (nonlinear_arith)
                            requires
                                b >= num_batches(n as nat, batch_size as nat),
                                batch_size > 0,
                        ;
                        assert((n + batch_size - 1) / batch_size as int * batch_size >= n) by (nonlinear_arith)
                            requires batch_size > 0, n >= 0;
                    }
                }
            }
            let end = if start + batch_size < n {
                start + batch_size
            } else {
                n
            };
            let labels = self.copy_labels(start, end);
            let images = self.copy_images(start, end);
            let view = BatchView { images, labels, image_size: size };
            proof {
                assert(end == batch_end(b, batch_size as nat, n as nat));
            }
            out.push(view);
            start = start + batch_size;
            proof {
                b = b + 1;
            }
        }
        proof {
            lemma_num_batches(n as nat, batch_size as nat, b);
        }
        out
    }
}

} // verus!

verus! {

impl BatchView {
    /// Where the ones of the one-hot label rows go in a `labels.len() x 10`
    /// buffer: position `i * 10 + labels[i]` for each item `i`.
    pub fn label_one_hot_positions(&self) -> (r: Vec<usize>)
        requires
            self.labels@.len() * 10 <= usize::MAX,
            forall|i: int|
                0 <= i < self.labels@.len() ==> i * 10 + #[trigger] self.labels@[i] < self.labels@.len()
                    * 10,
        ensures
            r@.len() == self.labels@.len(),
            forall|i: int| 0 <= i < r@.len() ==> #[trigger] r@[i] == i * 10 + self.labels@[i],
    {
        let mut out: Vec<usize> = Vec::new();
        let mut i: usize = 0;
        while i < self.labels.len()
            invariant
                i <= self.labels@.len(),
                out@.len() == i,
                self.labels@.len() * 10 <= usize::MAX,
                forall|j: int|
                    0 <= j < self.labels@.len() ==> j * 10 + #[trigger] self.labels@[j]
                        < self.labels@.len() * 10,
                forall|j: int| 0 <= j < i ==> #[trigger] out@[j] == j * 10 + self.labels@[j],
            decreases self.labels@.len() - i,
        {
            let l = self.labels[i];
            assert(i * 10 + l < self.labels@.len() * 10);
            out.push(i * 10 + l as usize);
            i += 1;
        }
        out
    }

    /// The labels widened to `u32`.
    pub fn labels_u32(&self) -> (r: Vec<u32>)
        ensures
            r@.len() == self.labels@.len(),
            forall|i: int| 0 <= i < r@.len() ==> #[trigger] r@[i] == self.labels@[i] as u32,
    {
        let mut out: Vec<u32> = Vec::new();
        let mut i: usize = 0;
        while i < self.labels.len()
            invariant
                i <= self.labels@.len(),
                out@.len() == i,
                forall|j: int| 0 <= j < i ==> #[trigger] out@[j] == self.labels@[j] as u32,
            decreases self.labels@.len() - i,
        {
            out.push(self.labels[i] as u32);
            i += 1;
        }
        out
    }
}

/// `new` holds the items of `old` in the order `perm`: item `k` of `new`
/// is item `perm[k]` of `old`, image and label together.
pub open spec fn reordered(old: &DataSet, new: &DataSet, perm: Seq<usize>) -> bool {
    &&& perm.len() == old.label_seq().len()
    &&& new.label_seq().len() == perm.len()
    &&& new.image_shape == old.image_shape
    &&& new.image_size() == old.image_size()
    &&& forall|k: int| 0 <= k < perm.len() ==> #[trigger] perm[k] < old.label_seq().len()
    &&& forall|k: int| 0 <= k < perm.len() ==> new.label_seq()[k] == old.label_seq()[#[trigger] perm[k] as int]
    &&& forall|k: int, c: int|
        0 <= k < perm.len() && 0 <= c < old.image_size() ==> #[trigger] new.pixel_seq()[k
            * old.image_size() + c] == old.pixel_seq()[perm[k] * old.image_size() + c]
}

/// `perm` lists each of `0 .. n` once.
pub open spec fn is_permutation(perm: Seq<usize>, n: nat) -> bool {
    perm.len() == n && perm.to_multiset() == Seq::new(n, |i: int| i as usize).to_multiset()
}

fn identity_order(n: usize) -> (r: Vec<usize>)
    ensures
        r@ == Seq::new(n as nat, |i: int| i as usize),
{
    let mut v: Vec<usize> = Vec::new();
    let mut i: usize = 0;
    while i < n
        invariant
            i <= n,
            v@ == Seq::new(i as nat, |j: int| j as usize),
        decreases n - i,
    {
        v.push(i);
        i += 1;
        assert(v@ =~= Seq::new(i as nat, |j: int| j as usize));
    }
    v
}

proof fn lemma_permutation_in_range(perm: Seq<usize>, n: nat)
    requires
        is_permutation(perm, n),
    ensures
        forall|k: int| 0 <= k < perm.len() ==> #[trigger] perm[k] < n,
{
    let id = Seq::new(n, |i: int| i as usize);
    assert forall|k: int| 0 <= k < perm.len() implies #[trigger] perm[k] < n by {
        assert(perm.to_multiset().count(perm[k]) > 0) by {
            perm.to_multiset_ensures();
        }
        id.to_multiset_ensures();
        assert(id.contains(perm[k]));
    }
}

impl DataSet {
    /// Puts the items in the order `perm` (item `k` becomes item `perm[k]`)
    /// and regroups the labels.
    pub fn reorder(&mut self, perm: Vec<usize>)
        requires
            old(self).wf(),
            perm@.len() == old(self).label_seq().len(),
            forall|k: int| 0 <= k < perm@.len() ==> #[trigger] perm@[k] < old(self).label_seq().len(),
        ensures
            final(self).wf(),
            reordered(old(self), final(self), perm@),
    {
        let n = perm.len();
        let mut new_labels: Vec<u8> = Vec::new();
        let mut i: usize = 0;
        while i < n
            invariant
                n == perm@.len(),
                i <= n,
                n == self.label_seq().len(),
                forall|k: int| 0 <= k < perm@.len() ==> #[trigger] perm@[k] < self.label_seq().len(),
                new_labels@.len() == i,
                forall|k: int| 0 <= k < i ==> new_labels@[k] == self.label_seq()[#[trigger] perm@[k] as int],
            decreases n - i,
        {
            new_labels.push(label_array_get(&self.labels, perm[i]));
            i += 1;
        }
        let ghost old_self = *self;
        let images = image_array_select_rows(&self.images, perm.as_slice());
        let labels = label_array_from_vec(new_labels);
        let by_label = build_by_label(&labels);
        self.images = images;
        self.labels = labels;
        self.by_label = by_label;
        proof {
            assert(image_dims(self.images).1 == old_self.image_size());
        }
    }

    /// Shuffles the items with the thread-local generator; every image
    /// keeps its label.
    pub fn shuffle(&mut self)
        requires
            old(self).wf(),
        ensures
            final(self).wf(),
            exists|perm: Seq<usize>|
                is_permutation(perm, old(self).label_seq().len()) && #[trigger] reordered(
                    old(self),
                    final(self),
                    perm,
                ),
    {
        let mut rng = crate::rand_specs::thread_rng();
        let n = self.len();
        let mut idx = identity_order(n);
        crate::rand_specs::shuffle_with_thread_rng(&mut idx, &mut rng);
        proof {
            lemma_permutation_in_range(idx@, n as nat);
        }
        let ghost perm = idx@;
        self.reorder(idx);
        assert(is_permutation(perm, n as nat) && reordered(old(self), self, perm));
    }

    /// Shuffles the items with a generator seeded by `seed`; every image
    /// keeps its label.
    pub fn shuffle_with_seed(&mut self, seed: u64)
        requires
            old(self).wf(),
        ensures
            final(self).wf(),
            exists|perm: Seq<usize>|
                is_permutation(perm, old(self).label_seq().len()) && #[trigger] reordered(
                    old(self),
                    final(self),
                    perm,
                ),
    {
        let mut rng = crate::rand_specs::seeded_rng(seed);
        let n = self.len();
        let mut idx = identity_order(n);
        crate::rand_specs::shuffle_with_std_rng(&mut idx, &mut rng);
        proof {
            lemma_permutation_in_range(idx@, n as nat);
        }
        let ghost perm = idx@;
        self.reorder(idx);
        assert(is_permutation(perm, n as nat) && reordered(old(self), self, perm));
    }
}

} // verus!

verus! {

impl DataSet {
    /// The pixels of image `i`.
    pub open spec fn image_of(&self, i: int) -> Seq<u8> {
        self.pixel_seq().subrange(i * self.image_size(), (i + 1) * self.image_size())
    }

    /// Block `j` of `buf` is image `index` with a `cut_h x cut_w`
    /// rectangle cleared somewhere inside it.
    pub closed spec fn is_cut_block(&self, buf: Seq<u8>, j: int, index: int, cut_h: int, cut_w: int) -> bool {
        let size = self.image_size() as int;
        exists|oy: int, ox: int|
            0 <= oy <= self.image_shape.0 - cut_h && 0 <= ox <= self.image_shape.1 - cut_w && buf.subrange(j * size, (j + 1) * size)
                == #[trigger] cut_image(self.image_of(index), self.image_shape.1 as int, cut_h, cut_w, oy, ox)
    }

    /// Block `j` is a cut image exactly when some placement of the
    /// rectangle inside the image gives it.
    pub proof fn lemma_is_cut_block(&self, buf: Seq<u8>, j: int, index: int, cut_h: int, cut_w: int)
        ensures
            self.is_cut_block(buf, j, index, cut_h, cut_w) <==> exists|oy: int, ox: int|
                0 <= oy <= self.image_shape.0 - cut_h && 0 <= ox <= self.image_shape.1 - cut_w && buf.subrange(
                    j * self.image_size(),
                    (j + 1) * self.image_size(),
                ) == #[trigger] cut_image(self.image_of(index), self.image_shape.1 as int, cut_h, cut_w, oy, ox),
    {
    }

    /// The images at `indices`, one after the other, each with a
    /// `cut_shape` rectangle cleared at a random place inside the image.
    pub fn cutout_images_by_index(&self, indices: &[usize], cut_shape: (usize, usize)) -> (r: Vec<u8>)
        requires
            self.wf(),
            cut_shape.0 <= self.image_shape.0,
            cut_shape.1 <= self.image_shape.1,
            indices@.len() * self.image_size() <= usize::MAX,
            forall|k: int| 0 <= k < indices@.len() ==> #[trigger] indices@[k] < self.label_seq().len(),
        ensures
            r@.len() == indices@.len() * self.image_size(),
            forall|k: int|
                0 <= k < indices@.len() ==> #[trigger] self.is_cut_block(r@, k, indices@[k] as int, cut_shape.0 as int, cut_shape.1 as int),
    {
        let (img_h, img_w) = self.image_shape;
        let (cut_h, cut_w) = cut_shape;
        let max_y = img_h - cut_h;
        let max_x = img_w - cut_w;
        let ghost size = self.image_size() as int;
        let mut rng = crate::rand_specs::thread_rng();
        let mut buf: Vec<u8> = Vec::new();
        let mut k: usize = 0;
        while k < indices.len()
            invariant
                self.wf(),
                (img_h, img_w) == self.image_shape,
                (cut_h, cut_w) == cut_shape,
                size == self.image_size(),
                size == img_h * img_w,
                cut_h <= img_h,
                cut_w <= img_w,
                max_y == img_h - cut_h,
                max_x == img_w - cut_w,
                k <= indices@.len(),
                forall|j: int| 0 <= j < indices@.len() ==> #[trigger] indices@[j] < self.label_seq().len(),
                buf@.len() == k * size,
                forall|j: int|
                    0 <= j < k ==> #[trigger] self.is_cut_block(buf@, j, indices@[j] as int, cut_h as int, cut_w as int),
            decreases indices@.len() - k,
        {
            let idx = indices[k];
            proof {
                lemma_row_step(idx as int, size, self.label_seq().len() as int);
            }
            let mut img = image_array_row(&self.images, idx);
            assert(img@ == self.image_of(idx as int));
            let off_y = if max_y == 0 {
                0
            } else {
                crate::rand_specs::random_at_most(&mut rng, max_y)
            };
            let off_x = if max_x == 0 {
                0
            } else {
                crate::rand_specs::random_at_most(&mut rng, max_x)
            };
            crate::augment::cutout(&mut img, img_h, img_w, cut_h, cut_w, off_y, off_x);
            let ghost before = buf@;
            let mut t: usize = 0;
            while t < img.len()
                invariant
                    t <= img@.len(),
                    buf@ == before + img@.subrange(0, t as int),
                decreases img@.len() - t,
            {
                buf.push(img[t]);
                t += 1;
            }
            proof {
                assert(img@.len() == size);
                assert(before.len() == k * size);
                assert(buf@.len() == k * size + size);
                assert(k * size + size == (k + 1) * size) by (nonlinear_arith);
                assert(buf@.subrange(k * size, (k + 1) * size) =~= img@);
                assert forall|j: int|
                    0 <= j < k + 1 implies #[trigger] self.is_cut_block(buf@, j, indices@[j] as int, cut_h as int, cut_w as int) by {
                    if j < k {
                        assert((j + 1) * size <= k * size) by (nonlinear_arith)
                            requires j + 1 <= k, 0 <= size;
                        assert(j * size <= (j + 1) * size) by (nonlinear_arith)
                            requires 0 <= size;
                        assert(0 <= j * size) by (nonlinear_arith)
                            requires 0 <= j, 0 <= size;
                        assert(buf@.subrange(j * size, (j + 1) * size) =~= before.subrange(j * size, (j + 1) * size));
                        assert(self.is_cut_block(before, j, indices@[j] as int, cut_h as int, cut_w as int));
                        let (oy, ox) = choose|oy: int, ox: int|
                            0 <= oy <= self.image_shape.0 - cut_h && 0 <= ox <= self.image_shape.1 - cut_w && before.subrange(j * size, (j + 1) * size)
                                == #[trigger] cut_image(self.image_of(indices@[j] as int), self.image_shape.1 as int, cut_h as int, cut_w as int, oy, ox);
                        assert(buf@.subrange(j * size, (j + 1) * size) == cut_image(self.image_of(indices@[j] as int), self.image_shape.1 as int, cut_h as int, cut_w as int, oy, ox));
                    } else {
                        assert(buf@.subrange(j * size, (j + 1) * size) == cut_image(self.image_of(indices@[j] as int), img_w as int, cut_h as int, cut_w as int, off_y as int, off_x as int));
                    }
                }
            }
            k += 1;
        }
        buf
    }
}

impl Clone for DataSet {
    /// A data set with the same items and grouping.
    fn clone(&self) -> (r: Self)
        ensures
            r.label_seq() == self.label_seq(),
            r.pixel_seq() == self.pixel_seq(),
            r.image_size() == self.image_size(),
            r.image_shape == self.image_shape,
            self.wf() ==> r.wf(),
    {
        DataSet {
            labels: label_array_clone(&self.labels),
            images: image_array_clone(&self.images),
            image_shape: self.image_shape,
            by_label: self.by_label.clone(),
        }
    }
}

} // verus!

verus! {

impl DataSet {
    /// The positions of `label`, if it occurs.
    pub fn positions(&self, label: u8) -> (r: Option<Vec<usize>>)
        ensures
            match r {
                Some(v) => self.positions_of(label) == Some(v@),
                None => self.positions_of(label) is None,
            },
    {
        match self.by_label.get(&label) {
            Some(v) => {
                let mut out: Vec<usize> = Vec::new();
                let mut i: usize = 0;
                while i < v.len()
                    invariant
                        i <= v@.len(),
                        out@ == v@.subrange(0, i as int),
                    decreases v@.len() - i,
                {
                    out.push(v[i]);
                    i += 1;
                }
                assert(out@ =~= v@);
                Some(out)
            },
            None => None,
        }
    }
}

} // verus!

verus! {

/// Every position listed for `label` is in range and holds `label`, and
/// every such position is listed.
pub proof fn lemma_indices_of(labels: Seq<u8>, label: u8)
    requires
        labels.len() <= usize::MAX,
    ensures
        forall|k: int|
            0 <= k < indices_of(labels, label).len() ==> #[trigger] indices_of(labels, label)[k]
                < labels.len() && labels[indices_of(labels, label)[k] as int] == label,
        forall|x: int|
            0 <= x < labels.len() && labels[x] == label ==> #[trigger] indices_of(labels, label).contains(
                x as usize,
            ),
    decreases labels.len(),
{
    if labels.len() > 0 {
        let prev = labels.drop_last();
        lemma_indices_of(prev, label);
        let s = indices_of(labels, label);
        assert forall|k: int| 0 <= k < s.len() implies #[trigger] s[k] < labels.len() && labels[s[k] as int]
            == label by {
            if k < indices_of(prev, label).len() {
                assert(s[k] == indices_of(prev, label)[k]);
                assert(prev[s[k] as int] == labels[s[k] as int]);
            }
        }
        assert forall|x: int| 0 <= x < labels.len() && labels[x] == label implies #[trigger] s.contains(
            x as usize,
        ) by {
            if x < labels.len() - 1 {
                assert(prev[x] == label);
                assert(indices_of(prev, label).contains(x as usize));
                let k = choose|k: int| 0 <= k < indices_of(prev, label).len() && indices_of(prev, label)[k] == x as usize;
                assert(s[k] == x as usize);
            } else {
                assert(s[s.len() - 1] == x as usize);
            }
        }
    }
}

} // verus!
