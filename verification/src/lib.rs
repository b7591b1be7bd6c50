//! Neural-network building blocks organised as morphisms: composable
//! layers, a sequential container with a forward tape and a backward pass,
//! and the MNIST data handling around them.

pub mod errors;
pub mod morphism;
pub mod monoid;
pub mod derivative;
pub mod currying_morphism;
pub mod functors;
pub mod layers;
pub mod sequential;
pub mod ndarray_specs;
pub mod rand_specs;
pub mod idx;
pub mod dataset;
pub mod augment;
pub mod pairs;
pub mod training;
