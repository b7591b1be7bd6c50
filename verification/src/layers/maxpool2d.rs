use vstd::prelude::*;

verus! {

/// Two-dimensional max pooling over square windows.
pub struct MaxPool2dLayer {
    pub kernel_size: usize,
    pub stride: usize,
}

/// The number of window positions along a side of length `len`.
pub open spec fn pooled_len(len: nat, kernel: nat, stride: nat) -> nat {
    ((len - kernel) / stride as int + 1) as nat
}

impl MaxPool2dLayer {
    /// Windows of `kernel_size` that do not overlap.
    pub fn new(kernel_size: usize) -> (r: Self)
        ensures
            r.kernel_size == kernel_size,
            r.stride == kernel_size,
    {
        Self { kernel_size, stride: kernel_size }
    }

    /// The shape of the pooled output of an `(n, c, h, w)` input.
    pub fn output_dims(&self, dims: (usize, usize, usize, usize)) -> (r: (usize, usize, usize, usize))
        requires
            self.stride > 0,
            self.kernel_size <= dims.2,
            self.kernel_size <= dims.3,
            (dims.2 - self.kernel_size) / (self.stride as int) < usize::MAX,
            (dims.3 - self.kernel_size) / (self.stride as int) < usize::MAX,
        ensures
            r.0 == dims.0,
            r.1 == dims.1,
            r.2 == pooled_len(dims.2 as nat, self.kernel_size as nat, self.stride as nat),
            r.3 == pooled_len(dims.3 as nat, self.kernel_size as nat, self.stride as nat),
    {
        let (n, c, h, w) = dims;
        let k = self.kernel_size;
        let s = self.stride;
        let ho = (h - k) / s + 1;
        let wo = (w - k) / s + 1;
        (n, c, ho, wo)
    }

    /// The number of elements of one window.
    pub fn window_len(&self) -> (r: usize)
        requires
            self.kernel_size * self.kernel_size <= usize::MAX,
        ensures
            r == self.kernel_size * self.kernel_size,
    {
        self.kernel_size * self.kernel_size
    }
}

} // verus!
