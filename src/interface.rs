//! The pieces a timeline is made of: a keyframe container that splits itself
//! at an instant, a sampling strategy that turns the two halves into a value,
//! and the timeline interface with its smooth correction.
use vstd::prelude::*;
use crate::keyframes::{sorted, past_of, future_of, insert_key, remove_key, value_at};
use crate::keyframes::{lemma_insert_sorted, lemma_remove_sorted, lemma_remove_after_insert};

verus! {

/// A single-pass cursor over a run of keyframes, walked soonest-first or
/// latest-first. Its view is what is still to come, in the order it comes.
pub struct KeySeq<'a, V> {
    entries: &'a Vec<(i64, V)>,
    lo: usize,
    hi: usize,
    descending: bool,
}

impl<'a, V: Copy> View for KeySeq<'a, V> {
    type V = Seq<(i64, V)>;

    closed spec fn view(&self) -> Seq<(i64, V)> {
        if self.lo <= self.hi && self.hi <= self.entries@.len() {
            let run = self.entries@.subrange(self.lo as int, self.hi as int);
            if self.descending {
                run.reverse()
            } else {
                run
            }
        } else {
            Seq::empty()
        }
    }
}

impl<'a, V: Copy> KeySeq<'a, V> {
    /// Walks all of `entries` in their order.
    pub fn new(entries: &'a Vec<(i64, V)>) -> (r: Self)
        ensures
            r@ == entries@,
    {
        let r = KeySeq { entries, lo: 0, hi: entries.len(), descending: false };
        assert(r@ =~= entries@);
        r
    }

    /// Walks `entries[from..]`, first to last.
    pub fn ascending(entries: &'a Vec<(i64, V)>, from: usize) -> (r: Self)
        requires
            from <= entries@.len(),
        ensures
            r@ == entries@.subrange(from as int, entries@.len() as int),
    {
        KeySeq { entries, lo: from, hi: entries.len(), descending: false }
    }

    /// Walks `entries[..upto]`, last to first.
    pub fn descending(entries: &'a Vec<(i64, V)>, upto: usize) -> (r: Self)
        requires
            upto <= entries@.len(),
        ensures
            r@ == entries@.subrange(0, upto as int).reverse(),
    {
        KeySeq { entries, lo: 0, hi: upto, descending: true }
    }

    /// Takes the next keyframe, or `None` once the run is used up.
    pub fn next(&mut self) -> (r: Option<(i64, V)>)
        ensures
            old(self)@.len() == 0 ==> r is None && final(self)@ == old(self)@,
            old(self)@.len() > 0 ==> r == Some(old(self)@[0]) && final(self)@ == old(
                self,
            )@.drop_first(),
    {
        if self.lo >= self.hi || self.hi > self.entries.len() {
            return None;
        }
        let ghost before = self@;
        if self.descending {
            self.hi = self.hi - 1;
            let e = self.entries[self.hi];
            assert(self@ =~= before.drop_first());
            Some(e)
        } else {
            let e = self.entries[self.lo];
            self.lo = self.lo + 1;
            assert(self@ =~= before.drop_first());
            Some(e)
        }
    }
}

/// A keyframe collection that can split itself at an instant into the
/// keyframes before it (latest first) and those at or after it (soonest first).
pub trait DataContainer<V: Copy> {
    /// The stored keyframes, in ascending time.
    spec fn keyframes(&self) -> Seq<(i64, V)>;

    fn split_at<'a>(&'a self, time: i64) -> (r: (KeySeq<'a, V>, KeySeq<'a, V>))
        requires
            sorted(self.keyframes()),
        ensures
            r.0@ == past_of(self.keyframes(), time),
            r.1@ == future_of(self.keyframes(), time),
    ;
}

/// A strategy that estimates the value at `time` from the keyframes before it
/// (latest first) and those at or after it (soonest first), or fails for want
/// of data.
pub trait DataSampler<V: Copy> {
    /// What `sample` returns on these two runs.
    spec fn sample_spec(past: Seq<(i64, V)>, future: Seq<(i64, V)>, time: i64) -> Option<V>;

    fn sample<'a>(past: &mut KeySeq<'a, V>, future: &mut KeySeq<'a, V>, time: i64) -> (r:
        Option<V>)
        ensures
            r == Self::sample_spec(old(past)@, old(future)@, time),
    ;
}

/// The evolution of a value across time: keyframes that can be set and
/// removed, and a value for any instant estimated from them.
pub trait TimeLine: Sized {
    type Item: Copy;

    /// The stored keyframes, in ascending time.
    spec fn keyframes(&self) -> Seq<(i64, Self::Item)>;

    /// The value `get_sample` estimates at `time` from these keyframes.
    spec fn sample_of(keys: Seq<(i64, Self::Item)>, time: i64) -> Option<Self::Item>;

    /// Estimates the value at `time`.
    fn get_sample(&self, time: i64) -> (r: Option<Self::Item>)
        requires
            sorted(self.keyframes()),
        ensures
            r == Self::sample_of(self.keyframes(), time),
    ;

    /// Sets the keyframe at `time`, replacing one already there.
    fn set_key(&mut self, time: i64, value: Self::Item)
        requires
            sorted(old(self).keyframes()),
        ensures
            final(self).keyframes() == insert_key(old(self).keyframes(), time, value),
    ;

    /// Removes the keyframe at `time` and returns its value, if there was one.
    fn remove_key(&mut self, time: i64) -> (r: Option<Self::Item>)
        requires
            sorted(old(self).keyframes()),
        ensures
            r == value_at(old(self).keyframes(), time),
            final(self).keyframes() == remove_key(old(self).keyframes(), time),
    ;

    /// Blends the keyframe `correction` into the timeline over `segment`.
    ///
    /// The value at `segment.0` is sampled first; with none, nothing changes.
    /// Then the correction is set and the value at `segment.1` is sampled. If
    /// that succeeds, both ends are pinned to the sampled values and the end
    /// value is returned; otherwise the correction is removed again and `None`
    /// is returned.
    fn smooth_correct(&mut self, correction: (i64, Self::Item), segment: (i64, i64)) -> (r:
        Option<Self::Item>)
        requires
            sorted(old(self).keyframes()),
        ensures
            sorted(final(self).keyframes()),
            match Self::sample_of(old(self).keyframes(), segment.0) {
                None => r is None && final(self).keyframes() == old(self).keyframes(),
                Some(start) => {
                    let tentative = insert_key(old(self).keyframes(), correction.0, correction.1);
                    match Self::sample_of(tentative, segment.1) {
                        Some(end) => r == Some(end) && final(self).keyframes() == insert_key(
                            insert_key(tentative, segment.0, start),
                            segment.1,
                            end,
                        ),
                        None => r is None && final(self).keyframes() == remove_key(
                            old(self).keyframes(),
                            correction.0,
                        ),
                    }
                },
            },
    {
        let ghost s0 = self.keyframes();
        let start_value = match self.get_sample(segment.0) {
            Some(v) => v,
            None => return None,
        };
        self.set_key(correction.0, correction.1);
        proof {
            lemma_insert_sorted(s0, correction.0, correction.1);
        }
        let ghost s1 = self.keyframes();
        match self.get_sample(segment.1) {
            Some(end_value) => {
                self.set_key(segment.0, start_value);
                proof {
                    lemma_insert_sorted(s1, segment.0, start_value);
                }
                let ghost s2 = self.keyframes();
                self.set_key(segment.1, end_value);
                proof {
                    lemma_insert_sorted(s2, segment.1, end_value);
                }
                Some(end_value)
            },
            None => {
                self.remove_key(correction.0);
                proof {
                    lemma_remove_after_insert(s0, correction.0, correction.1);
                    lemma_remove_sorted(s0, correction.0);
                }
                None
            },
        }
    }
}

} // verus!
