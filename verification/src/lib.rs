//! A feedforward neural network trained by hand-derived backpropagation,
//! built on a dense fixed-point matrix algebra.
//!
//! All numeric state is kept in a signed fixed-point representation with
//! nine fractional decimal digits (one unit is 1e-9), so that every
//! arithmetic step has an exact, machine-checked contract.

pub mod activation;
pub mod emnist;
pub mod fixed;
pub mod laws;
pub mod layer;
pub mod matrix;
pub mod network;
pub mod sampling;

pub use activation::Activation;
pub use layer::{Gradient, Layer};
pub use network::NeuralNetwork;
pub use fixed::{FX_EPSILON, FX_MAX, FX_SCALE};
pub use matrix::{Matrix, DIM_LIMIT};
