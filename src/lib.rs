//! A small dense feed-forward network trained by backpropagation, built on a
//! generic two-dimensional matrix type.
//!
//! The element type and its arithmetic are supplied by the caller through
//! `Scalar`, and the nonlinearity through `Activation`. The library proves
//! the shape discipline of every operation, which entries each result entry
//! is computed from and in what order, and that forward passes, backward
//! passes and whole training runs are determined by their inputs wherever the
//! supplied arithmetic is.

pub mod matrix;
pub mod network;
pub mod determinism;
