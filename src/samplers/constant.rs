//! Hold the last known value, under the name of a constant sampler.
use vstd::prelude::*;
use crate::interface::{DataSampler, KeySeq};

verus! {

/// Returns the latest keyframe value before the instant, whatever comes
/// after it; fails only when there is none.
pub struct ConstSampler;

impl<V: Copy> DataSampler<V> for ConstSampler {
    open spec fn sample_spec(past: Seq<(i64, V)>, future: Seq<(i64, V)>, time: i64) -> Option<V> {
        if past.len() > 0 {
            Some(past[0].1)
        } else {
            None
        }
    }

    fn sample<'a>(past: &mut KeySeq<'a, V>, future: &mut KeySeq<'a, V>, time: i64) -> (r: Option<
        V,
    >) {
        match past.next() {
            Some((_, v)) => Some(v),
            None => None,
        }
    }
}

} // verus!
