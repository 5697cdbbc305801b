//! The mathematical model of a keyframe store: a sequence of `(time, value)`
//! pairs whose times are strictly ascending.
use vstd::prelude::*;

verus! {

/// Times strictly ascending, hence unique.
pub open spec fn sorted<V>(s: Seq<(i64, V)>) -> bool {
    forall|i: int, j: int| 0 <= i < j < s.len() ==> #[trigger] s[i].0 < #[trigger] s[j].0
}

/// `p` splits `s` at `time`: the keys before `p` are `< time`, the rest `>= time`.
pub open spec fn is_split<V>(s: Seq<(i64, V)>, time: i64, p: int) -> bool {
    &&& 0 <= p <= s.len()
    &&& forall|i: int| 0 <= i < p ==> #[trigger] s[i].0 < time
    &&& forall|i: int| p <= i < s.len() ==> #[trigger] s[i].0 >= time
}

/// The number of keyframes strictly before `time`.
pub open spec fn split_index<V>(s: Seq<(i64, V)>, time: i64) -> int {
    choose|p: int| is_split(s, time, p)
}

/// The keyframes strictly before `time`, closest first.
pub open spec fn past_of<V>(s: Seq<(i64, V)>, time: i64) -> Seq<(i64, V)> {
    s.subrange(0, split_index(s, time)).reverse()
}

/// The keyframes at or after `time`, closest first.
pub open spec fn future_of<V>(s: Seq<(i64, V)>, time: i64) -> Seq<(i64, V)> {
    s.subrange(split_index(s, time), s.len() as int)
}

/// Whether a keyframe is stored at `time`.
pub open spec fn has_key<V>(s: Seq<(i64, V)>, time: i64) -> bool {
    exists|i: int| 0 <= i < s.len() && #[trigger] s[i].0 == time
}

/// `s` with the keyframe at `time` set to `value`, replacing one already there.
pub open spec fn insert_key<V>(s: Seq<(i64, V)>, time: i64, value: V) -> Seq<(i64, V)> {
    let p = split_index(s, time);
    if p < s.len() && s[p].0 == time {
        s.update(p, (time, value))
    } else {
        s.insert(p, (time, value))
    }
}

/// `s` without a keyframe at `time`.
pub open spec fn remove_key<V>(s: Seq<(i64, V)>, time: i64) -> Seq<(i64, V)> {
    let p = split_index(s, time);
    if p < s.len() && s[p].0 == time {
        s.remove(p)
    } else {
        s
    }
}

/// The value stored at `time`, if any.
pub open spec fn value_at<V>(s: Seq<(i64, V)>, time: i64) -> Option<V> {
    let p = split_index(s, time);
    if p < s.len() && s[p].0 == time {
        Some(s[p].1)
    } else {
        None
    }
}

/// A sorted sequence has exactly one split at any time.
pub proof fn lemma_split<V>(s: Seq<(i64, V)>, time: i64, p: int)
    requires
        sorted(s),
        is_split(s, time, p),
    ensures
        split_index(s, time) == p,
{
    let q = split_index(s, time);
    assert(is_split(s, time, q));
    if q < p {
        assert(s[q].0 >= time);
    } else if p < q {
        assert(s[p].0 >= time);
    }
}

/// Every sequence has a split, the first index whose key is `>= time`.
pub proof fn lemma_split_exists<V>(s: Seq<(i64, V)>, time: i64)
    requires
        sorted(s),
    ensures
        is_split(s, time, split_index(s, time)),
    decreases s.len(),
{
    if s.len() == 0 {
        assert(is_split(s, time, 0));
    } else {
        let init = s.drop_last();
        lemma_split_exists(init, time);
        let q = split_index(init, time);
        if q == init.len() && s.last().0 < time {
            assert(is_split(s, time, s.len() as int));
        } else {
            assert(is_split(s, time, q)) by {
                assert forall|i: int| q <= i < s.len() implies #[trigger] s[i].0 >= time by {
                    if i < init.len() {
                        assert(init[i] == s[i]);
                    } else if q < init.len() {
                        assert(init[q] == s[q]);
                        assert(s[q].0 < s[i].0);
                    } else {
                        assert(s[i] == s.last());
                    }
                }
                assert forall|i: int| 0 <= i < q implies #[trigger] s[i].0 < time by {
                    assert(i < init.len());
                    assert(init[i] == s[i]);
                }
            }
        }
    }
}

/// Where the split lands tells whether a key is stored.
pub proof fn lemma_has_key<V>(s: Seq<(i64, V)>, time: i64)
    requires
        sorted(s),
    ensures
        has_key(s, time) <==> (split_index(s, time) < s.len() && s[split_index(s, time)].0
            == time),
{
    lemma_split_exists(s, time);
    let p = split_index(s, time);
    if has_key(s, time) {
        let i = choose|i: int| 0 <= i < s.len() && #[trigger] s[i].0 == time;
        if i > p {
            assert(s[p].0 < s[i].0);
        }
    }
}

/// Inserting keeps the times strictly ascending.
pub proof fn lemma_insert_sorted<V>(s: Seq<(i64, V)>, time: i64, value: V)
    requires
        sorted(s),
    ensures
        sorted(insert_key(s, time, value)),
        has_key(insert_key(s, time, value), time),
        value_at(insert_key(s, time, value), time) == Some(value),
        split_index(insert_key(s, time, value), time) == split_index(s, time),
{
    lemma_split_exists(s, time);
    let p = split_index(s, time);
    let r = insert_key(s, time, value);
    if p < s.len() && s[p].0 == time {
        assert(r[p] == (time, value));
        lemma_split(r, time, p);
    } else {
        assert forall|i: int, j: int| 0 <= i < j < r.len() implies #[trigger] r[i].0
            < #[trigger] r[j].0 by {
            if j < p {
            } else if i < p && j == p {
            } else if i < p {
                assert(r[j] == s[j - 1]);
            } else if i == p {
                assert(r[j] == s[j - 1]);
            } else {
                assert(r[i] == s[i - 1]);
                assert(r[j] == s[j - 1]);
            }
        }
        assert(r[p] == (time, value));
        assert(is_split(r, time, p)) by {
            assert forall|i: int| p < i < r.len() implies #[trigger] r[i].0 >= time by {
                assert(r[i] == s[i - 1]);
            }
        }
        lemma_split(r, time, p);
    }
    assert(r[p].0 == time);
}

/// Removing keeps the times strictly ascending and leaves no key at `time`.
pub proof fn lemma_remove_sorted<V>(s: Seq<(i64, V)>, time: i64)
    requires
        sorted(s),
    ensures
        sorted(remove_key(s, time)),
        !has_key(remove_key(s, time), time),
        value_at(remove_key(s, time), time) == None::<V>,
{
    lemma_split_exists(s, time);
    lemma_has_key(s, time);
    let p = split_index(s, time);
    let r = remove_key(s, time);
    if p < s.len() && s[p].0 == time {
        assert forall|i: int, j: int| 0 <= i < j < r.len() implies #[trigger] r[i].0
            < #[trigger] r[j].0 by {
            if j < p {
            } else if i < p {
                assert(r[j] == s[j + 1]);
            } else {
                assert(r[i] == s[i + 1]);
                assert(r[j] == s[j + 1]);
            }
        }
        assert(is_split(r, time, p)) by {
            assert forall|i: int| p <= i < r.len() implies #[trigger] r[i].0 >= time by {
                assert(r[i] == s[i + 1]);
                assert(s[p].0 < s[i + 1].0);
            }
        }
        lemma_split(r, time, p);
        if has_key(r, time) {
            let i = choose|i: int| 0 <= i < r.len() && #[trigger] r[i].0 == time;
            if i < p {
            } else {
                assert(r[i] == s[i + 1]);
                assert(s[p].0 < s[i + 1].0);
            }
        }
    }
    lemma_has_key(r, time);
}

/// Removing a key just set leaves what removing it from the start leaves.
pub proof fn lemma_remove_after_insert<V>(s: Seq<(i64, V)>, time: i64, value: V)
    requires
        sorted(s),
    ensures
        remove_key(insert_key(s, time, value), time) == remove_key(s, time),
{
    lemma_insert_sorted(s, time, value);
    lemma_split_exists(s, time);
    let p = split_index(s, time);
    let r = insert_key(s, time, value);
    if p < s.len() && s[p].0 == time {
        assert(r.remove(p) =~= s.remove(p));
    } else {
        assert(r.remove(p) =~= s);
    }
}

/// Removing a key that is not stored changes nothing.
pub proof fn lemma_remove_absent<V>(s: Seq<(i64, V)>, time: i64)
    requires
        sorted(s),
        !has_key(s, time),
    ensures
        remove_key(s, time) == s,
{
    lemma_has_key(s, time);
}

/// The value at a stored key is the one stored with it.
pub proof fn lemma_value_at_index<V>(s: Seq<(i64, V)>, i: int)
    requires
        sorted(s),
        0 <= i < s.len(),
    ensures
        value_at(s, s[i].0) == Some(s[i].1),
{
    assert(is_split(s, s[i].0, i)) by {
        assert forall|j: int| 0 <= j < i implies #[trigger] s[j].0 < s[i].0 by {}
        assert forall|j: int| i <= j < s.len() implies #[trigger] s[j].0 >= s[i].0 by {
            if j > i {
                assert(s[i].0 < s[j].0);
            }
        }
    }
    lemma_split(s, s[i].0, i);
}

/// Setting one key leaves the value at every other key as it was.
pub proof fn lemma_insert_other<V>(s: Seq<(i64, V)>, time: i64, value: V, k: i64)
    requires
        sorted(s),
        k != time,
    ensures
        value_at(insert_key(s, time, value), k) == value_at(s, k),
{
    lemma_insert_sorted(s, time, value);
    lemma_split_exists(s, time);
    let p = split_index(s, time);
    let r = insert_key(s, time, value);
    let replaced = p < s.len() && s[p].0 == time;
    lemma_has_key(s, k);
    lemma_has_key(r, k);
    if has_key(s, k) {
        let i = choose|i: int| 0 <= i < s.len() && #[trigger] s[i].0 == k;
        let j = if replaced || i < p {
            i
        } else {
            i + 1
        };
        assert(r[j] == s[i]);
        lemma_value_at_index(s, i);
        lemma_value_at_index(r, j);
    } else if has_key(r, k) {
        let j = choose|j: int| 0 <= j < r.len() && #[trigger] r[j].0 == k;
        if replaced || j < p {
            assert(r[j] == s[j]);
        } else {
            assert(r[j] == s[j - 1]);
        }
    }
}

/// Removing one key leaves the value at every other key as it was.
pub proof fn lemma_remove_other<V>(s: Seq<(i64, V)>, time: i64, k: i64)
    requires
        sorted(s),
        k != time,
    ensures
        value_at(remove_key(s, time), k) == value_at(s, k),
{
    lemma_remove_sorted(s, time);
    lemma_split_exists(s, time);
    let p = split_index(s, time);
    let r = remove_key(s, time);
    let removed = p < s.len() && s[p].0 == time;
    lemma_has_key(s, k);
    lemma_has_key(r, k);
    if has_key(s, k) {
        let i = choose|i: int| 0 <= i < s.len() && #[trigger] s[i].0 == k;
        let j = if !removed || i < p {
            i
        } else {
            i - 1
        };
        assert(r[j] == s[i]);
        lemma_value_at_index(s, i);
        lemma_value_at_index(r, j);
    } else if has_key(r, k) {
        let j = choose|j: int| 0 <= j < r.len() && #[trigger] r[j].0 == k;
        if !removed || j < p {
            assert(r[j] == s[j]);
        } else {
            assert(r[j] == s[j + 1]);
        }
    }
}

} // verus!
