//! An ordered keyframe store kept as a vector sorted by time.
use vstd::prelude::*;
use crate::interface::{DataContainer, KeySeq};
use crate::keyframes::{sorted, is_split, split_index, insert_key, remove_key};
use crate::keyframes::{value_at, lemma_split, lemma_insert_sorted, lemma_remove_sorted};

verus! {

/// `keys` set one after the other into `s`, later ones replacing earlier ones.
pub open spec fn insert_all<V>(s: Seq<(i64, V)>, keys: Seq<(i64, V)>) -> Seq<(i64, V)>
    decreases keys.len(),
{
    if keys.len() == 0 {
        s
    } else {
        insert_all(insert_key(s, keys[0].0, keys[0].1), keys.drop_first())
    }
}

/// Keyframes with unique times, in ascending order of time.
pub struct KeyframeStore<V> {
    keys: Vec<(i64, V)>,
}

impl<V: Copy> View for KeyframeStore<V> {
    type V = Seq<(i64, V)>;

    closed spec fn view(&self) -> Seq<(i64, V)> {
        self.keys@
    }
}

impl<V: Copy> KeyframeStore<V> {
    /// A store with no keyframes.
    pub fn new() -> (r: Self)
        ensures
            r@ == Seq::<(i64, V)>::empty(),
    {
        KeyframeStore { keys: Vec::new() }
    }

    /// A store holding `keys`, set in their order: of two with one time, the
    /// later one stays.
    pub fn from_keyframes(keys: Vec<(i64, V)>) -> (r: Self)
        ensures
            sorted(r@),
            r@ == insert_all(Seq::empty(), keys@),
    {
        let mut store = KeyframeStore::new();
        let mut i: usize = 0;
        assert(keys@.subrange(0, keys@.len() as int) =~= keys@);
        while i < keys.len()
            invariant
                i <= keys@.len(),
                sorted(store@),
                insert_all(store@, keys@.subrange(i as int, keys@.len() as int)) == insert_all(
                    Seq::empty(),
                    keys@,
                ),
            decreases keys@.len() - i,
        {
            let ghost rest = keys@.subrange(i as int, keys@.len() as int);
            assert(rest.drop_first() =~= keys@.subrange(i + 1, keys@.len() as int));
            assert(rest[0] == keys@[i as int]);
            let (t, v) = keys[i];
            store.set(t, v);
            i = i + 1;
        }
        proof {
            assert(keys@.subrange(i as int, keys@.len() as int) =~= Seq::<(i64, V)>::empty());
        }
        store
    }

    /// The number of keyframes.
    pub fn len(&self) -> (r: usize)
        ensures
            r == self@.len(),
    {
        self.keys.len()
    }

    /// The keyframes, in ascending time.
    pub fn entries(&self) -> (r: &Vec<(i64, V)>)
        ensures
            r@ == self@,
    {
        &self.keys
    }

    /// The number of keyframes strictly before `time`.
    fn split_point(&self, time: i64) -> (p: usize)
        requires
            sorted(self@),
        ensures
            p == split_index(self@, time),
            is_split(self@, time, p as int),
    {
        let mut lo: usize = 0;
        let mut hi: usize = self.keys.len();
        while lo < hi
            invariant
                0 <= lo <= hi <= self.keys@.len(),
                sorted(self@),
                forall|i: int| 0 <= i < lo ==> #[trigger] self.keys@[i].0 < time,
                forall|i: int| hi <= i < self.keys@.len() ==> #[trigger] self.keys@[i].0 >= time,
            decreases hi - lo,
        {
            let mid = lo + (hi - lo) / 2;
            if self.keys[mid].0 < time {
                assert forall|i: int| 0 <= i < mid + 1 implies #[trigger] self.keys@[i].0 < time by {
                    if i < mid {
                        assert(self.keys@[i].0 < self.keys@[mid as int].0);
                    }
                }
                lo = mid + 1;
            } else {
                assert forall|i: int| mid <= i < self.keys@.len() implies #[trigger] self.keys@[i].0
                    >= time by {
                    if i > mid {
                        assert(self.keys@[mid as int].0 < self.keys@[i].0);
                    }
                }
                hi = mid;
            }
        }
        proof {
            lemma_split(self@, time, lo as int);
        }
        lo
    }

    /// The value stored at `time`, if any.
    pub fn get(&self, time: i64) -> (r: Option<V>)
        requires
            sorted(self@),
        ensures
            r == value_at(self@, time),
    {
        let p = self.split_point(time);
        if p < self.keys.len() && self.keys[p].0 == time {
            Some(self.keys[p].1)
        } else {
            None
        }
    }

    /// Sets the keyframe at `time`, replacing one already there.
    pub fn set(&mut self, time: i64, value: V)
        requires
            sorted(old(self)@),
        ensures
            final(self)@ == insert_key(old(self)@, time, value),
            sorted(final(self)@),
    {
        proof {
            lemma_insert_sorted(self@, time, value);
        }
        let p = self.split_point(time);
        if p < self.keys.len() && self.keys[p].0 == time {
            self.keys.set(p, (time, value));
        } else {
            self.keys.insert(p, (time, value));
        }
    }

    /// Removes the keyframe at `time` and returns its value, if there was one.
    pub fn remove(&mut self, time: i64) -> (r: Option<V>)
        requires
            sorted(old(self)@),
        ensures
            r == value_at(old(self)@, time),
            final(self)@ == remove_key(old(self)@, time),
            sorted(final(self)@),
    {
        proof {
            lemma_remove_sorted(self@, time);
        }
        let p = self.split_point(time);
        if p < self.keys.len() && self.keys[p].0 == time {
            let (_, v) = self.keys.remove(p);
            Some(v)
        } else {
            None
        }
    }
}

impl<V: Copy> DataContainer<V> for KeyframeStore<V> {
    open spec fn keyframes(&self) -> Seq<(i64, V)> {
        self@
    }

    fn split_at<'a>(&'a self, time: i64) -> (r: (KeySeq<'a, V>, KeySeq<'a, V>)) {
        assert(self.keyframes() == self@);
        let p = self.split_point(time);
        (KeySeq::descending(&self.keys, p), KeySeq::ascending(&self.keys, p))
    }
}

} // verus!
