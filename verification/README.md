# category_nn

Neural-network building blocks seen as morphisms, with the MNIST data
handling around them, verified with Verus.

- `src/` is the verified library:
  - `morphism`, `derivative`, `currying_morphism`, `monoid`, `functors`: the
    arrows, their composition (associative), derivatives, the collection
    functor (which preserves composition) and the monoid of derivative lists;
  - `sequential`: a network that runs its layers in order, records a tape on
    the forward pass and runs it backwards; networks combine as a monoid, and
    running a combined network is running one part after the other;
  - `layers`: the shapes of convolution, pooling, flattening and linear
    layers;
  - `idx`, `dataset`, `augment`, `pairs`, `training`: IDX file parsing, the
    labelled image set (batches, shuffles that keep every image with its
    label, cut-out augmentation), the pair sampler as a state machine, and the
    bookkeeping of training (layer-wise combination, positives of a
    contrastive batch, counting correct predictions);
  - `errors`: the error type and its messages;
  - `ndarray_specs`, `rand_specs`: the trusted boundary to `ndarray` and
    `rand`.
- `app/` is the training program: tensors (`candle_core`), file I/O, images,
  and everything in floating point.
- `tests/` runs the library on concrete values.
