//! A fully-connected feedforward network with one hidden layer, trained by
//! per-example delta-rule backpropagation over sigmoid activations.
//!
//! The network is generic over its scalar arithmetic: the caller supplies an
//! implementation of [`network::Scalar`] (ordinarily floating point, which is
//! why it lives outside this crate), and the crate verifies everything that
//! does not depend on the scalar values themselves: matrix shapes, the wiring
//! of the forward and backward passes, weight-state encoding and decoding,
//! and the evaluation bookkeeping (argmax, score counting).

pub mod codec;
pub mod metrics;
pub mod network;
