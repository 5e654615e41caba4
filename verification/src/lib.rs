//! A small multilayer perceptron for grayscale-image classification.
//!
//! Network parameters and activations are stored as IEEE-754 single-precision
//! bit patterns (`u32` codes); the arithmetic on codes is done by a software
//! floating-point library behind a few trusted wrappers, and everything else
//! — topology construction, forward propagation, backpropagation with
//! per-sample gradient descent, snapshot persistence, classification — is
//! verified against exact contracts over those codes.

pub mod classify;
pub mod codec;
pub mod driver;
pub mod label;
pub mod net;
pub mod scalar;

use vstd::prelude::*;


verus! {

/// The errors the library surfaces instead of panicking.
#[derive(Debug, Clone, Copy, PartialEq, Eq, Structural)]
pub enum NetError {
    /// An input, target or weight vector has the wrong length.
    DimensionMismatch,
    /// A persisted snapshot is missing, unreadable or structurally invalid.
    PersistenceError,
    /// An image could not be decoded into a brightness vector.
    ImageDecodeError,
    /// A filename does not carry a numeric label prefix.
    LabelParseError,
}

} // verus!
