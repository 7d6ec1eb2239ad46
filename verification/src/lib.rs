//! A verified core for Booth's multiplication algorithm: the step-by-step
//! state machine that, from two bounded signed integers and a bit-width,
//! derives the full trace of partial products the algorithm passes through,
//! ending in their exact product.

pub mod arith;
pub mod engine;
pub mod helpers;
pub mod laws;
pub mod model;
pub mod recoding;
pub mod trace;
