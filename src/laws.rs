//! What holds of timelines across calls.
use vstd::prelude::*;
use crate::interface::TimeLine;
use crate::keyframes::{sorted, is_split, split_index, past_of, future_of, has_key, value_at};
use crate::keyframes::{insert_key, remove_key, lemma_split, lemma_split_exists, lemma_has_key};
use crate::keyframes::{lemma_insert_sorted, lemma_insert_other, lemma_remove_sorted};
use crate::keyframes::{lemma_remove_other, lemma_remove_absent};
use crate::samplers::{ConstSampler, Lerp, LerpSampler, StepSampler};
use crate::timelines::{LerpBtreeTimeline, Timeline};

verus! {

/// Splitting loses and repeats nothing: the past run read backwards, then the
/// future run, is the whole store in ascending order; every past key lies
/// before `time`, every future key at or after it, so a key at `time` itself
/// is in the future run only.
pub proof fn lemma_partition<V>(s: Seq<(i64, V)>, time: i64)
    requires
        sorted(s),
    ensures
        past_of(s, time).reverse() + future_of(s, time) == s,
        forall|i: int| 0 <= i < past_of(s, time).len() ==> #[trigger] past_of(s, time)[i].0 < time,
        forall|i: int|
            0 <= i < future_of(s, time).len() ==> #[trigger] future_of(s, time)[i].0 >= time,
{
    lemma_split_exists(s, time);
    let p = split_index(s, time);
    let before = s.subrange(0, p);
    assert(before.reverse().reverse() =~= before);
    assert(before + future_of(s, time) =~= s);
    assert forall|i: int| 0 <= i < past_of(s, time).len() implies #[trigger] past_of(s, time)[i].0
        < time by {
        assert(past_of(s, time)[i] == s[p - 1 - i]);
    }
    assert forall|i: int| 0 <= i < future_of(s, time).len() implies #[trigger] future_of(
        s,
        time,
    )[i].0 >= time by {
        assert(future_of(s, time)[i] == s[p + i]);
    }
}

/// A linear timeline with at least two keyframes returns, at the time of any
/// of them, exactly the value stored there.
pub proof fn lemma_lerp_exact_at_keyframe<V: Lerp + Copy>(keys: Seq<(i64, V)>, i: int)
    requires
        sorted(keys),
        keys.len() >= 2,
        0 <= i < keys.len(),
    ensures
        LerpBtreeTimeline::<V>::sample_of(keys, keys[i].0) == Some(keys[i].1),
{
    let t = keys[i].0;
    assert(is_split(keys, t, i)) by {
        assert forall|j: int| 0 <= j < i implies #[trigger] keys[j].0 < t by {}
        assert forall|j: int| i <= j < keys.len() implies #[trigger] keys[j].0 >= t by {
            if j > i {
                assert(keys[i].0 < keys[j].0);
            }
        }
    }
    lemma_split(keys, t, i);
    let past = past_of(keys, t);
    let future = future_of(keys, t);
    assert(future[0] == keys[i]);
    if i > 0 {
        assert(past[0] == keys[i - 1]);
        assert(keys[i - 1].0 < keys[i].0);
        V::lemma_lerp_ends(keys[i - 1].1, keys[i].1, t - keys[i - 1].0);
    } else {
        assert(future[1] == keys[1]);
        assert(keys[0].0 < keys[1].0);
        V::lemma_lerp_ends(keys[0].1, keys[1].1, keys[1].0 - t);
    }
}

/// With no keyframes, every sampler fails at every time.
pub proof fn lemma_empty_has_no_value<V: Lerp + Copy>(time: i64)
    ensures
        Timeline::<V, StepSampler>::sample_of(Seq::empty(), time) is None,
        Timeline::<V, ConstSampler>::sample_of(Seq::empty(), time) is None,
        Timeline::<V, LerpSampler>::sample_of(Seq::empty(), time) is None,
{
    lemma_split_exists(Seq::<(i64, V)>::empty(), time);
}

/// When a smooth correction commits, with its three times distinct: the
/// value at the start of the segment is what it was before, the correction is
/// stored as given, and the end of the segment holds the value returned.
pub proof fn lemma_smooth_correct_commits<V: Lerp + Copy>(
    before: Seq<(i64, V)>,
    correction: (i64, V),
    segment: (i64, i64),
)
    requires
        sorted(before),
        correction.0 != segment.0,
        correction.0 != segment.1,
        segment.0 != segment.1,
        LerpBtreeTimeline::<V>::sample_of(before, segment.0) is Some,
        LerpBtreeTimeline::<V>::sample_of(
            insert_key(before, correction.0, correction.1),
            segment.1,
        ) is Some,
    ensures
        ({
            let start = LerpBtreeTimeline::<V>::sample_of(before, segment.0).unwrap();
            let tentative = insert_key(before, correction.0, correction.1);
            let end = LerpBtreeTimeline::<V>::sample_of(tentative, segment.1).unwrap();
            let after = insert_key(insert_key(tentative, segment.0, start), segment.1, end);
            &&& sorted(after)
            &&& LerpBtreeTimeline::<V>::sample_of(after, segment.0) == Some(start)
            &&& value_at(after, correction.0) == Some(correction.1)
            &&& value_at(after, segment.1) == Some(end)
        }),
{
    let start = LerpBtreeTimeline::<V>::sample_of(before, segment.0).unwrap();
    let tentative = insert_key(before, correction.0, correction.1);
    let end = LerpBtreeTimeline::<V>::sample_of(tentative, segment.1).unwrap();
    let pinned = insert_key(tentative, segment.0, start);
    let after = insert_key(pinned, segment.1, end);
    lemma_insert_sorted(before, correction.0, correction.1);
    lemma_insert_sorted(tentative, segment.0, start);
    lemma_insert_sorted(pinned, segment.1, end);
    lemma_insert_other(tentative, segment.0, start, correction.0);
    lemma_insert_other(pinned, segment.1, end, correction.0);
    lemma_insert_other(pinned, segment.1, end, segment.0);
    lemma_split_exists(after, segment.0);
    lemma_has_key(after, segment.0);
    lemma_has_key(after, correction.0);
    let p = split_index(after, segment.0);
    let q = split_index(after, correction.0);
    assert(after[p] == (segment.0, start));
    assert(p != q);
    lemma_lerp_exact_at_keyframe(after, p);
}

/// When a smooth correction rolls back, no keyframe is left at the
/// correction's time and every other key holds what it held before; if none
/// was stored there before, the keyframes are exactly as they were.
pub proof fn lemma_smooth_correct_rolls_back<T: TimeLine>(
    before: Seq<(i64, T::Item)>,
    correction: (i64, T::Item),
    segment: (i64, i64),
)
    requires
        sorted(before),
        T::sample_of(before, segment.0) is Some,
        T::sample_of(insert_key(before, correction.0, correction.1), segment.1) is None,
    ensures
        ({
            let after = remove_key(before, correction.0);
            &&& !has_key(after, correction.0)
            &&& forall|k: i64| k != correction.0 ==> #[trigger] value_at(after, k) == value_at(before, k)
            &&& !has_key(before, correction.0) ==> after == before
        }),
{
    lemma_remove_sorted(before, correction.0);
    assert forall|k: i64| k != correction.0 implies #[trigger] value_at(
        remove_key(before, correction.0),
        k,
    ) == value_at(before, k) by {
        lemma_remove_other(before, correction.0, k);
    }
    if !has_key(before, correction.0) {
        lemma_remove_absent(before, correction.0);
    }
}

} // verus!
