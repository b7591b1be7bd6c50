use vstd::prelude::*;
use crate::layers::layer::Layer;

verus! {

/// The settings of a two-dimensional convolution.
#[derive(Clone, Copy, Debug)]
pub struct Conv2dConfig {
    pub in_channels: usize,
    pub out_channels: usize,
    pub kernel_size: usize,
    pub stride: usize,
    pub padding: usize,
    pub groups: usize,
}

impl Conv2dConfig {
    /// A convolution with one group.
    pub fn new(
        in_channels: usize,
        out_channels: usize,
        kernel_size: usize,
        stride: usize,
        padding: usize,
    ) -> (r: Self)
        ensures
            r == (Conv2dConfig { in_channels, out_channels, kernel_size, stride, padding, groups: 1 }),
    {
        Self { in_channels, out_channels, kernel_size, stride, padding, groups: 1 }
    }
}

/// A convolution layer.
pub struct Conv2dLayer {
    pub config: Conv2dConfig,
}

impl Conv2dLayer {
    pub fn new(config: Conv2dConfig) -> (r: Self)
        ensures
            r.config == config,
    {
        Self { config }
    }

    /// The number of inputs that feed one output: the input channels of a
    /// group times the kernel area.
    pub fn fan_in(&self) -> (r: usize)
        requires
            self.config.groups > 0,
            (self.config.in_channels / self.config.groups) * self.config.kernel_size
                * self.config.kernel_size <= usize::MAX,
        ensures
            r == (self.config.in_channels / self.config.groups) * self.config.kernel_size
                * self.config.kernel_size,
    {
        let k = self.config.kernel_size;
        let per_group = self.config.in_channels / self.config.groups;
        assert(per_group * k <= per_group * k * k || k == 0) by (nonlinear_arith);
        per_group * k * k
    }

    /// The shape of the kernel tensor: output channels, input channels of a
    /// group, kernel rows, kernel columns.
    pub fn weight_dims(&self) -> (r: [usize; 4])
        requires
            self.config.groups > 0,
        ensures
            r@ == seq![
                self.config.out_channels,
                self.config.in_channels / self.config.groups,
                self.config.kernel_size,
                self.config.kernel_size,
            ],
    {
        let r = [
            self.config.out_channels,
            self.config.in_channels / self.config.groups,
            self.config.kernel_size,
            self.config.kernel_size,
        ];
        assert(r@ =~= seq![
            self.config.out_channels,
            self.config.in_channels / self.config.groups,
            self.config.kernel_size,
            self.config.kernel_size,
        ]);
        r
    }

    /// The shape the bias takes to be added to every position of an output
    /// batch.
    pub fn bias_dims(&self) -> (r: (usize, usize, usize, usize))
        ensures
            r == (1usize, self.config.out_channels, 1usize, 1usize),
    {
        (1, self.config.out_channels, 1, 1)
    }
}

impl Layer for Conv2dLayer {
    fn features(&self) -> (r: (usize, usize))
        ensures
            r == (self.config.in_channels, self.config.out_channels),
    {
        (self.config.in_channels, self.config.out_channels)
    }
}

} // verus!
