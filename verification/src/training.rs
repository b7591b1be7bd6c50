use vstd::prelude::*;
use vstd::string::StringExecFns;
use crate::errors::{decimal, push_decimal, CategoryError, CategoryResult};

verus! {

/// The error for two layer lists of different lengths: `prefix`, then
/// `{a} vs {b}`.
pub fn count_mismatch(prefix: &str, a: usize, b: usize) -> (r: CategoryError)
    ensures
        r matches CategoryError::InvalidInput(msg) && msg@ == prefix@ + decimal(a as nat) + " vs "@
            + decimal(b as nat),
{
    let mut msg = String::from_str(prefix);
    push_decimal(&mut msg, a);
    msg.append(" vs ");
    push_decimal(&mut msg, b);
    CategoryError::InvalidInput(msg)
}

/// The same error, as a result of another type.
pub open spec fn same_error<A, B>(r: CategoryResult<A>) -> CategoryResult<B> {
    match r {
        Err(e) => Err(e),
        Ok(_) => arbitrary(),
    }
}

/// `f` may succeed on `x` and `y`.
pub open spec fn succeeds_on<P, F: Fn(&P, &P) -> CategoryResult<P>>(f: F, x: &P, y: &P) -> bool {
    exists|p: P| #[trigger] f.ensures((x, y), Ok::<P, CategoryError>(p))
}

/// Combines two layer lists layer by layer with `f`: a length mismatch is
/// reported with `prefix`, and the first failing layer's error stops it.
pub fn zip_layers<P, F: Fn(&P, &P) -> CategoryResult<P>>(
    a: &[P],
    b: &[P],
    f: F,
    prefix: &str,
) -> (r: CategoryResult<Vec<P>>)
    requires
        forall|x: &P, y: &P| f.requires((x, y)),
    ensures
        a@.len() != b@.len() ==> (r matches Err(CategoryError::InvalidInput(msg)) && msg@ == prefix@
            + decimal(a@.len()) + " vs "@ + decimal(b@.len())),
        r matches Ok(v) ==> a@.len() == b@.len() && v@.len() == a@.len() && forall|i: int|
            0 <= i < a@.len() ==> f.ensures((&a@[i], &b@[i]), Ok::<P, CategoryError>(#[trigger] v@[i])),
        a@.len() == b@.len() && r is Err ==> exists|k: int|
            0 <= k < a@.len() && #[trigger] f.ensures((&a@[k], &b@[k]), same_error::<Vec<P>, P>(r))
                && forall|i: int| 0 <= i < k ==> #[trigger] succeeds_on(f, &a@[i], &b@[i]),
{
    if a.len() != b.len() {
        return Err(count_mismatch(prefix, a.len(), b.len()));
    }
    let mut out: Vec<P> = Vec::new();
    let mut i: usize = 0;
    while i < a.len()
        invariant
            a@.len() == b@.len(),
            i <= a@.len(),
            out@.len() == i,
            forall|x: &P, y: &P| f.requires((x, y)),
            forall|j: int|
                0 <= j < i ==> f.ensures((&a@[j], &b@[j]), Ok::<P, CategoryError>(#[trigger] out@[j])),
        decreases a@.len() - i,
    {
        match f(&a[i], &b[i]) {
            Ok(p) => {
                out.push(p);
            },
            Err(e) => {
                let r: CategoryResult<Vec<P>> = Err(e);
                assert(same_error::<Vec<P>, P>(r) == Err::<P, CategoryError>(e));
                assert forall|j: int| 0 <= j < i implies #[trigger] succeeds_on(f, &a@[j], &b@[j]) by {
                    assert(f.ensures((&a@[j], &b@[j]), Ok::<P, CategoryError>(out@[j])));
                }
                return r;
            },
        }
        i += 1;
    }
    Ok(out)
}

/// The number of positions `i` where `predicted[i]` is `Some(labels[i])`.
pub open spec fn correct_count(predicted: Seq<Option<u8>>, labels: Seq<u8>) -> nat
    decreases predicted.len(),
{
    if predicted.len() == 0 {
        0
    } else {
        correct_count(predicted.drop_last(), labels.drop_last()) + if predicted.last() == Some(
            labels[predicted.len() - 1],
        ) {
            1nat
        } else {
            0nat
        }
    }
}

/// Whether the prediction at position `i` is `Some` of the label there.
spec fn hit(predicted: Seq<Option<u8>>, labels: Seq<u8>) -> spec_fn(int) -> bool {
    |i: int| predicted[i] == Some(labels[i])
}

proof fn lemma_count_prefix(predicted: Seq<Option<u8>>, labels: Seq<u8>, k: int)
    requires
        predicted.len() == labels.len(),
        0 <= k <= predicted.len(),
    ensures
        correct_count(predicted.take(k), labels.take(k)) == Seq::new(k as nat, |i: int| i).filter(
            hit(predicted, labels),
        ).len(),
    decreases k,
{
    let idx = Seq::new(k as nat, |i: int| i);
    if k == 0 {
        idx.lemma_filter_len(hit(predicted, labels));
    } else {
        lemma_count_prefix(predicted, labels, k - 1);
        let prev = Seq::new((k - 1) as nat, |i: int| i);
        assert(predicted.take(k).drop_last() =~= predicted.take(k - 1));
        assert(labels.take(k).drop_last() =~= labels.take(k - 1));
        assert(idx =~= prev.push(k - 1));
        prev.lemma_filter_len_push(hit(predicted, labels), k - 1);
        assert(predicted.take(k).last() == predicted[k - 1]);
        assert(labels.take(k)[predicted.take(k).len() - 1] == labels[k - 1]);
    }
}

/// The count of correct predictions is the number of positions whose
/// prediction is `Some` of the label there.
pub proof fn lemma_correct_count_counts_hits(predicted: Seq<Option<u8>>, labels: Seq<u8>)
    requires
        predicted.len() == labels.len(),
    ensures
        correct_count(predicted, labels) == Seq::new(predicted.len(), |i: int| i).filter(
            |i: int| predicted[i] == Some(labels[i]),
        ).len(),
{
    lemma_count_prefix(predicted, labels, predicted.len() as int);
    assert(predicted.take(predicted.len() as int) =~= predicted);
    assert(labels.take(labels.len() as int) =~= labels);
    assert((|i: int| predicted[i] == Some(labels[i])) =~= hit(predicted, labels));
}

/// Counts the items whose predicted label is their label; an item without a
/// prediction counts as wrong.
pub fn count_correct(predicted: &[Option<u8>], labels: &[u8]) -> (r: usize)
    requires
        predicted@.len() == labels@.len(),
    ensures
        r == correct_count(predicted@, labels@),
        r == Seq::new(predicted@.len(), |i: int| i).filter(
            |i: int| predicted@[i] == Some(labels@[i]),
        ).len(),
        r <= labels@.len(),
{
    proof {
        lemma_correct_count_counts_hits(predicted@, labels@);
    }
    let mut count: usize = 0;
    let mut i: usize = 0;
    while i < predicted.len()
        invariant
            predicted@.len() == labels@.len(),
            i <= predicted@.len(),
            count <= i,
            count == correct_count(predicted@.take(i as int), labels@.take(i as int)),
        decreases predicted@.len() - i,
    {
        assert(predicted@.take(i + 1).drop_last() =~= predicted@.take(i as int));
        assert(labels@.take(i + 1).drop_last() =~= labels@.take(i as int));
        if predicted[i] == Some(labels[i]) {
            count += 1;
        }
        i += 1;
    }
    assert(predicted@.take(predicted@.len() as int) =~= predicted@);
    assert(labels@.take(labels@.len() as int) =~= labels@);
    count
}

/// For a batch of `b` pairs laid out as `2b` rows (left views, then right
/// views), the position in a `2b x 2b` matrix of each row's positive: row
/// `i` pairs with row `(i + b) mod 2b`.
pub fn positive_positions(b: usize) -> (r: Vec<usize>)
    requires
        2 * b * (2 * b) <= usize::MAX,
    ensures
        r@.len() == 2 * b,
        forall|i: int| 0 <= i < 2 * b ==> #[trigger] r@[i] == i * (2 * b) + (i + b) % (2 * b),
{
    assert(2 * b <= 2 * b * (2 * b) && 3 * b <= 2 * b * (2 * b)) by (nonlinear_arith);
    let two_b = 2 * b;
    let mut out: Vec<usize> = Vec::new();
    let mut i: usize = 0;
    while i < two_b
        invariant
            two_b == 2 * b,
            two_b * two_b <= usize::MAX,
            3 * b <= two_b * two_b,
            i <= two_b,
            out@.len() == i,
            forall|j: int| 0 <= j < i ==> #[trigger] out@[j] == j * two_b + (j + b) % (two_b as int),
        decreases two_b - i,
    {
        assert(i * two_b + two_b <= two_b * two_b) by (nonlinear_arith)
            requires
                i < two_b,
        ;
        let col = (i + b) % two_b;
        out.push(i * two_b + col);
        i += 1;
    }
    out
}

/// Pairing rows with their positives is an involution without fixed
/// points: the positive of row `i`'s positive is `i`, and no row is its own
/// positive.
pub proof fn lemma_positive_pairing(b: nat, i: int)
    requires
        b > 0,
        0 <= i < 2 * b,
    ensures
        ((i + b) % (2 * b) as int + b) % (2 * b) as int == i,
        (i + b) % (2 * b) as int != i,
{
    let n = (2 * b) as int;
    if i < b {
        vstd::arithmetic::div_mod::lemma_small_mod((i + b) as nat, n as nat);
        vstd::arithmetic::div_mod::lemma_mod_add_multiples_vanish(i, n);
        vstd::arithmetic::div_mod::lemma_small_mod(i as nat, n as nat);
        assert(i + b + b == n + i);
    } else {
        vstd::arithmetic::div_mod::lemma_mod_add_multiples_vanish(i - b, n);
        vstd::arithmetic::div_mod::lemma_small_mod((i - b) as nat, n as nat);
        assert(i + b == n + (i - b));
        vstd::arithmetic::div_mod::lemma_small_mod(i as nat, n as nat);
        assert(i - b + b == i);
    }
}

} // verus!
