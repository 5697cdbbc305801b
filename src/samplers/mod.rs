//! Sampling strategies: how a value at an instant is estimated from the
//! keyframes around it.
pub mod step;
pub mod constant;
pub mod lerp;

pub use self::step::StepSampler;
pub use self::constant::ConstSampler;
pub use self::lerp::{Lerp, LerpSampler};
