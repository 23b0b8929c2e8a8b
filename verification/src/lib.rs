//! Identity interning and sample aggregation for a sampling profiler.
//!
//! A [`callable::Callable`] names a call site. The
//! [`registry::CallableRegistry`] gives every distinct call site a small
//! integer id, in the order in which the sites are first seen, and counts for
//! each how often it was sampled as the running frame and how often anywhere
//! on the stack.
pub mod callable;
pub mod model;
pub mod registry;
pub mod laws;
