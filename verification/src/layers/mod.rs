pub mod conv2d;
pub mod flatten;
pub mod layer;
pub mod linear;
pub mod maxpool2d;
