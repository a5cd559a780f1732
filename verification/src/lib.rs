//! Verified core of a paged key/value cache engine for autoregressive
//! inference serving.
//!
//! The engine manages fixed-size cache blocks that hold attention key/value
//! entries, moves data between blocks (same device, host to device), and
//! prepares the launch configurations of the device kernels that scatter
//! per-token activations into the block-paged layout and that apply rotary
//! positional embeddings.
//!
//! Tensors are modelled as plain values: an ordered list of dimension sizes,
//! an element dtype, a device placement, and the element contents as raw
//! bit patterns. Every operation validates its dtype and device
//! preconditions in order, applies the data movement to the modelled
//! contents, and returns the launch description a device dispatcher would
//! use.

pub mod cache;
pub mod error;
pub mod layers;
pub mod layout;
pub mod plan;
pub mod pointer;
pub mod registry;
pub mod tensor;
