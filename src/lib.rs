//! Timelines: the evolution of a value across time, kept as a sparse set of
//! timestamped keyframes and sampled at any instant by interpolating between
//! them or extrapolating beyond them.
pub mod keyframes;
pub mod interface;
pub mod containers;
pub mod samplers;
pub mod timelines;
pub mod laws;
