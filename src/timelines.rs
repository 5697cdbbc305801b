//! A timeline made of a keyframe store and a sampling strategy.
use vstd::prelude::*;
use crate::containers::KeyframeStore;
use crate::interface::{DataContainer, DataSampler, TimeLine};
use crate::keyframes::{sorted, past_of, future_of, value_at};
use crate::samplers::LerpSampler;

verus! {

/// Keyframes kept in a `KeyframeStore`, sampled with the strategy `S`.
pub struct Timeline<V, S> {
    inner: KeyframeStore<V>,
    strategy: core::marker::PhantomData<S>,
}

/// A timeline that interpolates and extrapolates linearly.
pub type LerpBtreeTimeline<V> = Timeline<V, LerpSampler>;

impl<V: Copy, S: DataSampler<V>> Timeline<V, S> {
    /// A timeline over the keyframes of `store`.
    pub fn new(store: KeyframeStore<V>) -> (r: Self)
        requires
            sorted(store@),
        ensures
            r.keyframes() == store@,
    {
        Timeline { inner: store, strategy: core::marker::PhantomData }
    }

    /// The keyframe store underneath.
    pub fn store(&self) -> (r: &KeyframeStore<V>)
        ensures
            r@ == self.keyframes(),
    {
        &self.inner
    }

    /// The value stored at `time`, if any: a keyframe, not an estimate.
    pub fn keyframe(&self, time: i64) -> (r: Option<V>)
        requires
            sorted(self.keyframes()),
        ensures
            r == value_at(self.keyframes(), time),
    {
        self.inner.get(time)
    }
}

impl<V: Copy, S: DataSampler<V>> TimeLine for Timeline<V, S> {
    type Item = V;

    closed spec fn keyframes(&self) -> Seq<(i64, V)> {
        self.inner@
    }

    open spec fn sample_of(keys: Seq<(i64, V)>, time: i64) -> Option<V> {
        S::sample_spec(past_of(keys, time), future_of(keys, time), time)
    }

    fn get_sample(&self, time: i64) -> (r: Option<V>) {
        let (mut past, mut future) = self.inner.split_at(time);
        S::sample(&mut past, &mut future, time)
    }

    fn set_key(&mut self, time: i64, value: V) {
        self.inner.set(time, value);
    }

    fn remove_key(&mut self, time: i64) -> (r: Option<V>) {
        self.inner.remove(time)
    }
}

} // verus!
