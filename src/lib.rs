//! A small feed-forward neural network over a dense matrix type.
//!
//! The matrix is generic over its element type: the algorithms and their
//! contracts speak of the element operations only through what the `Add`,
//! `Sub`, `Mul` and `Default` impls of that type return.
pub mod activation;
pub mod error;
pub mod matrix;
pub mod neural_network;
pub mod utils;
