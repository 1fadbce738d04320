//! Per-quantity time-series containers.
//!
//! `TimeSeriesChanges` holds sparse change events and extrapolates the last
//! value to the right; `TimeSeriesDense` holds point samples and answers
//! only exact matches. Both keep a pair of parallel arrays whose index is
//! strictly increasing.

use vstd::prelude::*;
use crate::time::Time;

verus! {

/// The index of a time-series is strictly increasing.
pub open spec fn strictly_increasing(times: Seq<Time>) -> bool {
    forall|i: int, j: int| 0 <= i < j < times.len() ==> times[i].0 < times[j].0
}

/// The position of the last entry at or before `t`, or `-1` if every entry
/// lies after `t`.
pub open spec fn last_at_or_before(times: Seq<Time>, t: Time) -> int
    decreases times.len(),
{
    if times.len() == 0 {
        -1
    } else if times[times.len() - 1].0 <= t.0 {
        times.len() - 1
    } else {
        last_at_or_before(times.drop_last(), t)
    }
}

/// The position of the entry exactly at `t`, or `-1` if there is none.
pub open spec fn position_of(times: Seq<Time>, t: Time) -> int
    decreases times.len(),
{
    if times.len() == 0 {
        -1
    } else if times[times.len() - 1].0 == t.0 {
        times.len() - 1
    } else {
        position_of(times.drop_last(), t)
    }
}

/// `last_at_or_before` names the largest position whose entry is at or
/// before `t`.
pub proof fn lemma_last_at_or_before(times: Seq<Time>, t: Time)
    ensures
        -1 <= last_at_or_before(times, t) < times.len(),
        last_at_or_before(times, t) == -1 ==> forall|j: int|
            0 <= j < times.len() ==> times[j].0 > t.0,
        last_at_or_before(times, t) >= 0 ==> {
            &&& last_at_or_before(times, t) < times.len()
            &&& times[last_at_or_before(times, t)].0 <= t.0
            &&& forall|j: int|
                last_at_or_before(times, t) < j < times.len() ==> times[j].0 > t.0
        },
    decreases times.len(),
{
    if times.len() > 0 && times[times.len() - 1].0 > t.0 {
        lemma_last_at_or_before(times.drop_last(), t);
        assert forall|j: int| 0 <= j < times.len() - 1 implies times.drop_last()[j] == times[j] by {}
    }
}

/// `position_of` names the position holding exactly `t`, or `-1` where no
/// entry holds it.
pub proof fn lemma_position_of(times: Seq<Time>, t: Time)
    ensures
        -1 <= position_of(times, t) < times.len(),
        position_of(times, t) == -1 ==> forall|j: int|
            0 <= j < times.len() ==> times[j].0 != t.0,
        position_of(times, t) >= 0 ==> {
            &&& position_of(times, t) < times.len()
            &&& times[position_of(times, t)].0 == t.0
        },
    decreases times.len(),
{
    if times.len() > 0 && times[times.len() - 1].0 != t.0 {
        lemma_position_of(times.drop_last(), t);
        assert forall|j: int| 0 <= j < times.len() - 1 implies times.drop_last()[j] == times[j] by {}
    }
}

/// What a sparse change-event series answers at `t`: the value at the last
/// entry at or before `t`, or nothing if `t` precedes every entry.
pub open spec fn changes_lookup<V>(times: Seq<Time>, vals: Seq<V>, t: Time) -> Option<V> {
    let i = last_at_or_before(times, t);
    if i == -1 {
        None
    } else {
        Some(vals[i])
    }
}

/// What a dense point-sample series answers at `t`: the value exactly at
/// `t`, if any entry holds it.
pub open spec fn dense_lookup<V>(times: Seq<Time>, vals: Seq<V>, t: Time) -> Option<V> {
    let i = position_of(times, t);
    if i == -1 {
        None
    } else {
        Some(vals[i])
    }
}

/// In a strictly increasing index, an entry matching `t` exactly is found
/// at its own position.
pub proof fn lemma_position_unique(times: Seq<Time>, t: Time, idx: int)
    requires
        strictly_increasing(times),
        0 <= idx < times.len(),
        times[idx].0 == t.0,
    ensures
        position_of(times, t) == idx,
{
    lemma_position_of(times, t);
    let p = position_of(times, t);
    if p == -1 {
        assert(times[idx].0 != t.0);
        assert(false);
    } else if p < idx {
        assert(times[p].0 < times[idx].0);
        assert(false);
    } else if p > idx {
        assert(times[idx].0 < times[p].0);
        assert(false);
    }
}

/// Overwriting the value at an existing instant answers the new value
/// exactly there and leaves every other exact lookup unchanged.
pub proof fn lemma_dense_lookup_update<V>(
    times: Seq<Time>,
    vals: Seq<V>,
    p: int,
    v: V,
    t2: Time,
)
    requires
        strictly_increasing(times),
        times.len() == vals.len(),
        0 <= p < times.len(),
    ensures
        t2.0 == times[p].0 ==> dense_lookup(times, vals.update(p, v), t2) == Some(v),
        t2.0 != times[p].0 ==> dense_lookup(times, vals.update(p, v), t2) == dense_lookup(
            times,
            vals,
            t2,
        ),
{
    lemma_position_of(times, t2);
    if t2.0 == times[p].0 {
        lemma_position_unique(times, t2, p);
    } else {
        let p2 = position_of(times, t2);
        if p2 >= 0 {
            assert(times[p2].0 == t2.0);
            assert(p2 != p);
        }
    }
}

/// Inserting a point at a fresh instant answers the new value exactly
/// there and leaves every other exact lookup unchanged.
pub proof fn lemma_dense_lookup_insert<V>(
    times: Seq<Time>,
    vals: Seq<V>,
    q: int,
    t: Time,
    v: V,
    t2: Time,
)
    requires
        strictly_increasing(times.insert(q, t)),
        times.len() == vals.len(),
        0 <= q <= times.len(),
    ensures
        t2.0 == t.0 ==> dense_lookup(times.insert(q, t), vals.insert(q, v), t2) == Some(v),
        t2.0 != t.0 ==> dense_lookup(times.insert(q, t), vals.insert(q, v), t2)
            == dense_lookup(times, vals, t2),
{
    let nt = times.insert(q, t);
    let nv = vals.insert(q, v);
    times.insert_ensures(q, t);
    vals.insert_ensures(q, v);
    lemma_position_of(nt, t2);
    lemma_position_of(times, t2);
    if t2.0 == t.0 {
        assert(nt[q].0 == t2.0);
        lemma_position_unique(nt, t2, q);
        assert(nv[q] == v);
    } else {
        assert(strictly_increasing(times)) by {
            assert forall|i: int, j: int|
                0 <= i < j < times.len() implies times[i].0 < times[j].0 by {
                let ni = if i < q { i } else { i + 1 };
                let nj = if j < q { j } else { j + 1 };
                assert(nt[ni] == times[i]);
                assert(nt[nj] == times[j]);
                assert(nt[ni].0 < nt[nj].0);
            }
        }
        let p_old = position_of(times, t2);
        if p_old >= 0 {
            assert(times[p_old].0 == t2.0);
            let p_mapped: int = if p_old < q { p_old } else { p_old + 1 };
            assert(nt[p_mapped].0 == t2.0);
            lemma_position_unique(nt, t2, p_mapped);
            assert(nv[p_mapped] == vals[p_old]);
        } else {
            let p_new = position_of(nt, t2);
            if p_new >= 0 {
                assert(nt[p_new].0 == t2.0);
                if p_new < q {
                    assert(times[p_new].0 == t2.0);
                    assert(false);
                } else if p_new == q {
                    assert(false);
                } else {
                    assert(nt[p_new] == times[p_new - 1]);
                    assert(times[p_new - 1].0 == t2.0);
                    assert(false);
                }
            }
        }
    }
}

/// The first position whose entry is at or after `t` (`times.len()` if every
/// entry lies before `t`). Callers learn that everything to the left is
/// strictly earlier and everything from the result on is at or after `t`.
fn lower_bound(times: &Vec<Time>, t: Time) -> (r: usize)
    requires
        strictly_increasing(times@),
    ensures
        0 <= r <= times@.len(),
        forall|j: int| 0 <= j < r ==> times@[j].0 < t.0,
        forall|j: int| r <= j < times@.len() ==> times@[j].0 >= t.0,
{
    let mut lo: usize = 0;
    let mut hi: usize = times.len();
    while lo < hi
        invariant
            0 <= lo <= hi <= times@.len(),
            strictly_increasing(times@),
            forall|j: int| 0 <= j < lo ==> times@[j].0 < t.0,
            forall|j: int| hi <= j < times@.len() ==> times@[j].0 >= t.0,
        decreases hi - lo,
    {
        let mid = lo + (hi - lo) / 2;
        if times[mid].0 < t.0 {
            lo = mid + 1;
        } else {
            hi = mid;
        }
    }
    lo
}

/// A sparse change-event series: holds the instants at which a value
/// changed, and answers queries by stepping from the latest change at or
/// before the queried instant.
pub struct TimeSeriesChanges<V: Copy> {
    index: Vec<Time>,
    values: Vec<V>,
}

impl<V: Copy> TimeSeriesChanges<V> {
    /// The instants at which this series changed.
    pub closed spec fn times(&self) -> Seq<Time> {
        self.index@
    }

    /// The values this series took, parallel to `times`.
    pub closed spec fn vals(&self) -> Seq<V> {
        self.values@
    }

    /// The parallel arrays agree in length and the index is strictly
    /// increasing.
    pub open spec fn wf(&self) -> bool {
        &&& self.times().len() == self.vals().len()
        &&& strictly_increasing(self.times())
    }

    /// What a query at `t` answers: the value at the last change at or
    /// before `t`, or nothing if `t` precedes every change.
    pub open spec fn spec_get(&self, t: Time) -> Option<V> {
        changes_lookup(self.times(), self.vals(), t)
    }

    /// An empty series.
    pub fn new() -> (r: Self)
        ensures
            r.wf(),
            r.times() == Seq::<Time>::empty(),
            r.vals() == Seq::<V>::empty(),
    {
        TimeSeriesChanges { index: Vec::new(), values: Vec::new() }
    }

    /// Appends a change event, which must lie strictly after every entry
    /// already present.
    pub fn push(&mut self, time: Time, value: V)
        requires
            old(self).wf(),
            old(self).times().len() > 0 ==> old(self).times().last().0 < time.0,
        ensures
            final(self).wf(),
            final(self).times() == old(self).times().push(time),
            final(self).vals() == old(self).vals().push(value),
    {
        self.index.push(time);
        self.values.push(value);
    }

    /// Inserts or overwrites the value at `time`, keeping the index ordered.
    pub fn set(&mut self, time: &Time, new_value: V)
        requires
            old(self).wf(),
        ensures
            final(self).wf(),
            ({
                let p = position_of(old(self).times(), *time);
                if p >= 0 {
                    &&& final(self).times() == old(self).times()
                    &&& final(self).vals() == old(self).vals().update(p, new_value)
                } else {
                    exists|q: int|
                        {
                            &&& 0 <= q <= old(self).times().len()
                            &&& final(self).times() == #[trigger] old(self).times().insert(
                                q,
                                *time,
                            )
                            &&& final(self).vals() == old(self).vals().insert(q, new_value)
                        }
                }
            }),
    {
        proof {
            lemma_position_of(old(self).times(), *time);
        }
        let idx = lower_bound(&self.index, *time);
        if idx != self.index.len() && self.index[idx].0 == time.0 {
            proof {
                let p = position_of(old(self).times(), *time);
                lemma_position_of(old(self).times(), *time);
                if p == -1 {
                    assert(old(self).times()[idx as int].0 != time.0);
                    assert(false);
                } else if p < idx as int {
                    assert(old(self).times()[p].0 < old(self).times()[idx as int].0);
                    assert(false);
                } else if p > idx as int {
                    assert(old(self).times()[idx as int].0 < old(self).times()[p].0);
                    assert(false);
                }
                assert(p == idx as int);
            }
            self.values[idx] = new_value;
        } else {
            self.index.insert(idx, *time);
            self.values.insert(idx, new_value);
            proof {
                assert(final(self).times() == old(self).times().insert(
                    idx as int,
                    *time,
                ));
                assert forall|i: int, j: int|
                    0 <= i < j < final(self).times().len() implies final(self).times()[i].0
                    < final(self).times()[j].0 by {
                    old(self).times().insert_ensures(idx as int, *time);
                }
            }
        }
    }

    /// Answers a query at `time` by stepping from the latest change at or
    /// before it.
    pub fn get(&self, time: &Time) -> (r: Option<V>)
        requires
            self.wf(),
        ensures
            r == self.spec_get(*time),
    {
        proof {
            lemma_last_at_or_before(self.times(), *time);
        }
        let mut lo: usize = 0;
        let mut hi: usize = self.index.len();
        while lo < hi
            invariant
                0 <= lo <= hi <= self.times().len(),
                self.wf(),
                forall|j: int| 0 <= j < lo ==> self.times()[j].0 <= time.0,
                forall|j: int| hi <= j < self.times().len() ==> self.times()[j].0 > time.0,
            decreases hi - lo,
        {
            let mid = lo + (hi - lo) / 2;
            if self.index[mid].0 <= time.0 {
                lo = mid + 1;
            } else {
                hi = mid;
            }
        }
        proof {
            let laob = last_at_or_before(self.times(), *time);
            lemma_last_at_or_before(self.times(), *time);
            if lo == 0 {
                if laob >= 0 {
                    assert(self.times()[laob].0 > time.0);
                    assert(self.times()[laob].0 <= time.0);
                    assert(false);
                }
                assert(laob == -1);
            } else {
                assert(self.times()[lo - 1].0 <= time.0);
                if laob == -1 {
                    assert(self.times()[lo - 1].0 > time.0);
                    assert(false);
                } else if laob < lo - 1 {
                    assert(self.times()[lo - 1].0 > time.0);
                    assert(false);
                } else if laob > lo - 1 {
                    assert(self.times()[laob].0 > time.0);
                    assert(self.times()[laob].0 <= time.0);
                    assert(false);
                }
                assert(laob == lo - 1);
            }
        }
        if lo == 0 {
            None
        } else {
            Some(self.values[lo - 1])
        }
    }
}

impl<V: Copy> Default for TimeSeriesChanges<V> {
    fn default() -> (r: Self)
        ensures
            r.wf(),
            r.times() == Seq::<Time>::empty(),
            r.vals() == Seq::<V>::empty(),
    {
        Self::new()
    }
}

/// A dense point-sample series: absence between samples is meaningful, so a
/// query answers only where an entry matches the instant exactly.
pub struct TimeSeriesDense<V: Copy> {
    index: Vec<Time>,
    values: Vec<V>,
}

impl<V: Copy> TimeSeriesDense<V> {
    /// The instants at which this series was sampled.
    pub closed spec fn times(&self) -> Seq<Time> {
        self.index@
    }

    /// The sampled values, parallel to `times`.
    pub closed spec fn vals(&self) -> Seq<V> {
        self.values@
    }

    /// The parallel arrays agree in length and the index is strictly
    /// increasing.
    pub open spec fn wf(&self) -> bool {
        &&& self.times().len() == self.vals().len()
        &&& strictly_increasing(self.times())
    }

    /// What a query at `t` answers: the sample exactly at `t`, if any.
    pub open spec fn spec_get(&self, t: Time) -> Option<V> {
        dense_lookup(self.times(), self.vals(), t)
    }

    /// An empty series.
    pub fn new() -> (r: Self)
        ensures
            r.wf(),
            r.times() == Seq::<Time>::empty(),
            r.vals() == Seq::<V>::empty(),
    {
        TimeSeriesDense { index: Vec::new(), values: Vec::new() }
    }

    /// Appends a sample, which must lie strictly after every entry already
    /// present.
    pub fn push(&mut self, time: Time, value: V)
        requires
            old(self).wf(),
            old(self).times().len() > 0 ==> old(self).times().last().0 < time.0,
        ensures
            final(self).wf(),
            final(self).times() == old(self).times().push(time),
            final(self).vals() == old(self).vals().push(value),
    {
        self.index.push(time);
        self.values.push(value);
    }

    /// Inserts or overwrites the sample at `time`, keeping the index ordered.
    pub fn set(&mut self, time: &Time, new_value: V)
        requires
            old(self).wf(),
        ensures
            final(self).wf(),
            ({
                let p = position_of(old(self).times(), *time);
                if p >= 0 {
                    &&& final(self).times() == old(self).times()
                    &&& final(self).vals() == old(self).vals().update(p, new_value)
                } else {
                    exists|q: int|
                        {
                            &&& 0 <= q <= old(self).times().len()
                            &&& final(self).times() == #[trigger] old(self).times().insert(
                                q,
                                *time,
                            )
                            &&& final(self).vals() == old(self).vals().insert(q, new_value)
                        }
                }
            }),
    {
        proof {
            lemma_position_of(old(self).times(), *time);
        }
        let idx = lower_bound(&self.index, *time);
        if idx != self.index.len() && self.index[idx].0 == time.0 {
            proof {
                let p = position_of(old(self).times(), *time);
                lemma_position_of(old(self).times(), *time);
                if p == -1 {
                    assert(old(self).times()[idx as int].0 != time.0);
                    assert(false);
                } else if p < idx as int {
                    assert(old(self).times()[p].0 < old(self).times()[idx as int].0);
                    assert(false);
                } else if p > idx as int {
                    assert(old(self).times()[idx as int].0 < old(self).times()[p].0);
                    assert(false);
                }
                assert(p == idx as int);
            }
            self.values[idx] = new_value;
        } else {
            self.index.insert(idx, *time);
            self.values.insert(idx, new_value);
            proof {
                assert(final(self).times() == old(self).times().insert(
                    idx as int,
                    *time,
                ));
                assert forall|i: int, j: int|
                    0 <= i < j < final(self).times().len() implies final(self).times()[i].0
                    < final(self).times()[j].0 by {
                    old(self).times().insert_ensures(idx as int, *time);
                }
            }
        }
    }

    /// Answers a query at `time` only where a sample matches it exactly.
    pub fn get(&self, time: &Time) -> (r: Option<V>)
        requires
            self.wf(),
        ensures
            r == self.spec_get(*time),
            r is Some <==> exists|j: int|
                0 <= j < self.times().len() && #[trigger] self.times()[j].0 == time.0,
    {
        proof {
            lemma_position_of(self.times(), *time);
        }
        let idx = lower_bound(&self.index, *time);
        if idx != self.index.len() && self.index[idx].0 == time.0 {
            proof {
                let p = position_of(self.times(), *time);
                if p == -1 {
                    assert(self.times()[idx as int].0 != time.0);
                    assert(false);
                } else if p < idx as int {
                    assert(self.times()[p].0 < self.times()[idx as int].0);
                    assert(false);
                } else if p > idx as int {
                    assert(self.times()[idx as int].0 < self.times()[p].0);
                    assert(false);
                }
                assert(p == idx as int);
            }
            Some(self.values[idx])
        } else {
            proof {
                let p = position_of(self.times(), *time);
                if p >= 0 {
                    assert(self.times()[p].0 == time.0);
                    if p < idx as int {
                        assert(self.times()[p].0 < time.0);
                        assert(false);
                    } else if p == idx as int {
                        assert(self.times()[idx as int].0 == time.0);
                        assert(false);
                    } else {
                        assert(idx < self.times().len());
                        assert(self.times()[idx as int].0 < self.times()[p].0);
                        assert(self.times()[idx as int].0 >= time.0);
                        assert(false);
                    }
                }
                assert(p == -1);
            }
            None
        }
    }
}

impl<V: Copy> Default for TimeSeriesDense<V> {
    fn default() -> (r: Self)
        ensures
            r.wf(),
            r.times() == Seq::<Time>::empty(),
            r.vals() == Seq::<V>::empty(),
    {
        Self::new()
    }
}

/// An interval series: values that hold over half-open spans of time.
///
/// Spans are kept in ascending order and never overlap; a query answers
/// the value of the span containing the instant, if any.
pub struct TimeSeriesInterval<V: Copy> {
    index: Vec<(Time, Time)>,
    values: Vec<V>,
}

impl<V: Copy> TimeSeriesInterval<V> {
    /// The `[start, end)` spans of this series.
    pub closed spec fn spans(&self) -> Seq<(Time, Time)> {
        self.index@
    }

    /// The values this series holds, parallel to `spans`.
    pub closed spec fn vals(&self) -> Seq<V> {
        self.values@
    }

    /// The parallel arrays agree in length, each span runs forward, and
    /// spans are in order without overlap.
    pub open spec fn wf(&self) -> bool {
        &&& self.spans().len() == self.vals().len()
        &&& forall|i: int|
            0 <= i < self.spans().len() ==> (#[trigger] self.spans()[i]).0.0
                <= self.spans()[i].1.0
        &&& forall|i: int, j: int|
            #![trigger self.spans()[i], self.spans()[j]]
            0 <= i < j < self.spans().len() ==> self.spans()[i].1.0 <= self.spans()[j].0.0
    }

    /// An empty series.
    pub fn new() -> (r: Self)
        ensures
            r.wf(),
            r.spans() == Seq::<(Time, Time)>::empty(),
            r.vals() == Seq::<V>::empty(),
    {
        TimeSeriesInterval { index: Vec::new(), values: Vec::new() }
    }

    /// Appends a span, which must run forward and begin no earlier than
    /// the previous span's end.
    pub fn push(&mut self, start: Time, end: Time, value: V)
        requires
            old(self).wf(),
            start.0 <= end.0,
            old(self).spans().len() > 0 ==> old(self).spans().last().1.0 <= start.0,
        ensures
            final(self).wf(),
            final(self).spans() == old(self).spans().push((start, end)),
            final(self).vals() == old(self).vals().push(value),
    {
        self.index.push((start, end));
        self.values.push(value);
    }

    /// Answers a query at `time` with the value of the span containing it,
    /// if any span does.
    pub fn get(&self, time: &Time) -> (r: Option<V>)
        requires
            self.wf(),
        ensures
            match r {
                Some(v) => exists|i: int|
                    0 <= i < self.spans().len() && (#[trigger] self.spans()[i]).0.0 <= time.0
                        && time.0 < self.spans()[i].1.0 && v == self.vals()[i],
                None => forall|i: int|
                    0 <= i < self.spans().len() ==> !((#[trigger] self.spans()[i]).0.0
                        <= time.0 && time.0 < self.spans()[i].1.0),
            },
    {
        let n = self.index.len();
        let mut k: usize = 0;
        while k < n
            invariant
                self.wf(),
                n == self.spans().len(),
                0 <= k <= n,
                forall|i: int|
                    0 <= i < k ==> !((#[trigger] self.spans()[i]).0.0 <= time.0 && time.0
                        < self.spans()[i].1.0),
            decreases n - k,
        {
            let span = self.index[k];
            if span.0.0 <= time.0 && time.0 < span.1.0 {
                proof {
                    assert(self.spans()[k as int].0.0 <= time.0 && time.0
                        < self.spans()[k as int].1.0);
                }
                return Some(self.values[k]);
            }
            k = k + 1;
        }
        None
    }
}

} // verus!
