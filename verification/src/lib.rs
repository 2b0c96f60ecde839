//! Host-side planning and execution logic of an inference engine.
//!
//! - [`exec`]: the residency contract and the op walk that every graph executor shares, over the
//!   graphs of [`graph`] and the handles of [`tensor`].
//! - [`dsv4_plan`]: the per-ubatch compressor plan of DeepSeek V4, defined in [`dsv4_spec`].
//! - [`dsv4_tiers`]: which compression tiers of DeepSeek V4 generate.
//! - [`chat`]: the SYCL chat model.
//!
//! Nothing here touches a device: each function is a computation over plain data, with its
//! behaviour stated in its contract. What holds across functions and across calls stands in
//! [`exec_laws`], [`dsv4_laws`] and [`dsv4_ring`]. What each call gives, said of its arguments and
//! its result alone, stands in [`exec_calls`], [`dsv4_calls`] and [`text_calls`].

pub mod chat;
pub mod dsv4_calls;
pub mod dsv4_laws;
pub mod dsv4_plan;
pub mod dsv4_ring;
pub mod dsv4_spec;
pub mod dsv4_tiers;
pub mod error;
pub mod exec;
pub mod exec_calls;
pub mod exec_laws;
pub mod graph;
pub mod tensor;
pub mod text_calls;
