//! The in-memory value store: for each quantity name, a mapping from
//! selector to a time-series of values.
//!
//! Quantities without selectors keep a dense point-sample series;
//! quantities over entity-typed selectors keep a sparse change-event
//! series. The series for a `(name, selector)` pair is created on its
//! first write.

use vstd::prelude::*;
use crate::defs::Selector;
use crate::time::Time;
use crate::ts::{
    changes_lookup, dense_lookup, position_of, strictly_increasing, TimeSeriesChanges,
    TimeSeriesDense,
};

verus! {

/// The position of the first element equal to `x`, or `-1` if none is.
pub open spec fn first_index<T>(s: Seq<T>, x: T) -> int
    decreases s.len(),
{
    if s.len() == 0 {
        -1
    } else if s[0] == x {
        0
    } else {
        let r = first_index(s.drop_first(), x);
        if r == -1 {
            -1
        } else {
            r + 1
        }
    }
}

/// `first_index` names the first position holding `x`, or `-1` where no
/// position holds it.
pub proof fn lemma_first_index<T>(s: Seq<T>, x: T)
    ensures
        -1 <= first_index(s, x) < s.len(),
        first_index(s, x) == -1 ==> forall|j: int| 0 <= j < s.len() ==> s[j] != x,
        first_index(s, x) >= 0 ==> {
            &&& s[first_index(s, x)] == x
            &&& forall|j: int| 0 <= j < first_index(s, x) ==> s[j] != x
        },
    decreases s.len(),
{
    if s.len() > 0 && s[0] != x {
        lemma_first_index(s.drop_first(), x);
        let r = first_index(s.drop_first(), x);
        if r == -1 {
            assert forall|j: int| 0 <= j < s.len() implies s[j] != x by {
                if j > 0 {
                    assert(s.drop_first()[j - 1] == s[j]);
                    assert(s.drop_first()[j - 1] != x);
                }
            }
        } else {
            assert(s.drop_first()[r] == s[r + 1]);
            assert forall|j: int| 0 <= j < r + 1 implies s[j] != x by {
                if j > 0 {
                    assert(s.drop_first()[j - 1] == s[j]);
                    assert(s.drop_first()[j - 1] != x);
                }
            }
        }
    }
}

/// Appending an element moves no earlier first occurrence and gives a
/// fresh element the position at the end.
pub proof fn lemma_first_index_push<T>(s: Seq<T>, x: T, y: T)
    ensures
        y != x ==> first_index(s.push(x), y) == first_index(s, y),
        y == x && first_index(s, x) == -1 ==> first_index(s.push(x), x) == s.len(),
        y == x && first_index(s, x) >= 0 ==> first_index(s.push(x), x) == first_index(s, x),
{
    lemma_first_index(s, y);
    lemma_first_index(s.push(x), y);
    let f1 = first_index(s, y);
    let f2 = first_index(s.push(x), y);
    if f1 >= 0 {
        assert(s.push(x)[f1] == y);
        if f2 == -1 {
            assert(false);
        } else if f2 < f1 {
            assert(s.push(x)[f2] == y);
            assert(s[f2] == y);
            assert(false);
        } else if f2 > f1 {
            assert(s.push(x)[f1] != y);
            assert(false);
        }
    } else {
        if y == x {
            assert(s.push(x)[s.len() as int] == y);
            if f2 == -1 {
                assert(false);
            } else if f2 < s.len() {
                assert(s.push(x)[f2] == y);
                assert(s[f2] == y);
                assert(false);
            }
            assert(f2 == s.len());
        } else {
            if f2 >= 0 {
                if f2 < s.len() {
                    assert(s[f2] == y);
                    assert(false);
                } else {
                    assert(s.push(x)[f2] == x);
                    assert(false);
                }
            }
        }
    }
}

/// A per-quantity time-series of either kind.
pub enum QuantitySeries<V: Copy> {
    Changes(TimeSeriesChanges<V>),
    Dense(TimeSeriesDense<V>),
}

impl<V: Copy> QuantitySeries<V> {
    /// The instants this series has entries at.
    pub open spec fn times(&self) -> Seq<Time> {
        match self {
            QuantitySeries::Changes(ts) => ts.times(),
            QuantitySeries::Dense(ts) => ts.times(),
        }
    }

    /// The values this series holds, parallel to `times`.
    pub open spec fn vals(&self) -> Seq<V> {
        match self {
            QuantitySeries::Changes(ts) => ts.vals(),
            QuantitySeries::Dense(ts) => ts.vals(),
        }
    }
}

/// The mathematical shape of one store entry.
pub struct EntryModel<V> {
    pub name: Seq<char>,
    pub selector: Selector,
    pub dense: bool,
    pub times: Seq<Time>,
    pub vals: Seq<V>,
}

/// One entry is internally consistent: parallel arrays, ordered index, and
/// a series kind that matches its selector.
pub open spec fn entry_wf<V>(e: EntryModel<V>) -> bool {
    &&& e.times.len() == e.vals.len()
    &&& strictly_increasing(e.times)
    &&& e.dense == (e.selector is Unit)
}

struct StoreEntry<V: Copy> {
    name: String,
    selector: Selector,
    series: QuantitySeries<V>,
}

impl<V: Copy> StoreEntry<V> {
    spec fn model(&self) -> EntryModel<V> {
        EntryModel {
            name: self.name@,
            selector: self.selector,
            dense: self.series is Dense,
            times: self.series.times(),
            vals: self.series.vals(),
        }
    }
}

/// The in-memory value store: a collection of per-`(name, selector)`
/// time-series, created lazily on first write.
pub struct ValueStore<V: Copy> {
    entries: Vec<StoreEntry<V>>,
}

impl<V: Copy> ValueStore<V> {
    /// The mathematical contents: one entry model per `(name, selector)`
    /// pair, in creation order.
    pub closed spec fn model(&self) -> Seq<EntryModel<V>> {
        self.entries@.map_values(|e: StoreEntry<V>| e.model())
    }

    /// The `(name, selector)` pairs with an entry, in creation order.
    pub open spec fn keys(&self) -> Seq<(Seq<char>, Selector)> {
        self.model().map_values(|e: EntryModel<V>| (e.name, e.selector))
    }

    /// Every entry is internally consistent and no pair appears twice.
    pub open spec fn wf(&self) -> bool {
        &&& forall|i: int| 0 <= i < self.model().len() ==> entry_wf(#[trigger] self.model()[i])
        &&& forall|i: int, j: int|
            #![trigger self.keys()[i], self.keys()[j]]
            0 <= i < j < self.keys().len() ==> self.keys()[i] != self.keys()[j]
    }

    /// The exact point stored for `(name, selector, t)`, independent of the
    /// series kind.
    pub open spec fn spec_at(&self, name: Seq<char>, selector: Selector, t: Time) -> Option<V> {
        let i = first_index(self.keys(), (name, selector));
        if i == -1 {
            None
        } else {
            dense_lookup(self.model()[i].times, self.model()[i].vals, t)
        }
    }

    /// What a soft lookup of `(name, selector, t)` answers: an exact match
    /// for a dense series, the latest entry at or before `t` for a sparse
    /// one.
    pub open spec fn spec_get(&self, name: Seq<char>, selector: Selector, t: Time) -> Option<V> {
        let i = first_index(self.keys(), (name, selector));
        if i == -1 {
            None
        } else if self.model()[i].dense {
            dense_lookup(self.model()[i].times, self.model()[i].vals, t)
        } else {
            changes_lookup(self.model()[i].times, self.model()[i].vals, t)
        }
    }

    /// An empty store.
    pub fn new() -> (r: Self)
        ensures
            r.wf(),
            r.model() == Seq::<EntryModel<V>>::empty(),
    {
        let r = ValueStore { entries: Vec::new() };
        proof {
            assert(r.model() =~= Seq::<EntryModel<V>>::empty());
        }
        r
    }

    /// The position of the entry for `(name, selector)`, or the entry count
    /// if there is none.
    fn find_entry(&self, name: &str, selector: Selector) -> (r: usize)
        requires
            self.wf(),
        ensures
            r <= self.model().len(),
            r as int == self.model().len() ==> first_index(self.keys(), (name@, selector))
                == -1,
            r < self.model().len() ==> {
                &&& r as int == first_index(self.keys(), (name@, selector))
                &&& self.keys()[r as int] == (name@, selector)
            },
    {
        proof {
            lemma_first_index(self.keys(), (name@, selector));
        }
        let key_name: String = name.to_owned();
        let n = self.entries.len();
        let mut j: usize = 0;
        while j < n
            invariant
                self.wf(),
                key_name@ == name@,
                n == self.entries@.len(),
                0 <= j <= n,
                forall|j2: int| 0 <= j2 < j ==> self.keys()[j2] != (name@, selector),
            decreases n - j,
        {
            let names_equal = self.entries[j].name == key_name;
            if names_equal && self.entries[j].selector == selector {
                proof {
                    lemma_first_index(self.keys(), (name@, selector));
                    assert(self.keys()[j as int] == (name@, selector));
                }
                return j;
            }
            proof {
                assert(self.keys()[j as int] != (name@, selector));
            }
            j = j + 1;
        }
        proof {
            lemma_first_index(self.keys(), (name@, selector));
        }
        n
    }

    /// Inserts or overwrites the value at `(name, selector, t)`, creating
    /// the series on a pair's first write: a dense one for a quantity
    /// without selectors, a sparse one otherwise. Writing a value that the
    /// exact point already holds leaves the store's contents unchanged.
    pub fn set_value(&mut self, name: &str, selector: Selector, t: Time, value: V)
        requires
            old(self).wf(),
        ensures
            final(self).wf(),
            final(self).spec_at(name@, selector, t) == Some(value),
            final(self).keys() == ({
                let i = first_index(old(self).keys(), (name@, selector));
                if i == -1 {
                    old(self).keys().push((name@, selector))
                } else {
                    old(self).keys()
                }
            }),
            forall|n2: Seq<char>, s2: Selector, t2: Time|
                !(n2 == name@ && s2 == selector && t2.0 == t.0)
                    ==> #[trigger] final(self).spec_at(n2, s2, t2) == old(self).spec_at(
                    n2,
                    s2,
                    t2,
                ),
            old(self).spec_at(name@, selector, t) == Some(value) ==> final(self).model()
                == old(self).model(),
    {
        proof {
            lemma_first_index(old(self).keys(), (name@, selector));
        }
        let idx = self.find_entry(name, selector);
        let n = self.entries.len();
        if idx < n {
            let entry = &mut self.entries[idx];
            match &mut entry.series {
                QuantitySeries::Changes(ts) => ts.set(&t, value),
                QuantitySeries::Dense(ts) => ts.set(&t, value),
            }
            proof {
                let keyv = (name@, selector);
                let i = idx as int;
                let om = old(self).model();
                let nm = self.model();
                let oe = om[i];
                let ne = nm[i];
                assert(nm.len() == om.len());
                assert forall|j: int| 0 <= j < nm.len() && j != i implies nm[j] == om[j] by {
                    assert(self.entries@[j] == old(self).entries@[j]);
                }
                assert(ne.name == oe.name && ne.selector == oe.selector && ne.dense
                    == oe.dense);
                assert(self.keys() =~= old(self).keys());
                lemma_first_index(old(self).keys(), keyv);
                crate::ts::lemma_position_of(oe.times, t);
                let p = position_of(oe.times, t);
                if p >= 0 {
                    assert(ne.times == oe.times && ne.vals == oe.vals.update(p, value));
                    assert(oe.times[p].0 == t.0);
                    assert forall|t2: Time| true implies #[trigger] dense_lookup(
                        ne.times,
                        ne.vals,
                        t2,
                    ) == (if t2.0 == t.0 {
                        Some(value)
                    } else {
                        dense_lookup(oe.times, oe.vals, t2)
                    }) by {
                        crate::ts::lemma_dense_lookup_update(oe.times, oe.vals, p, value, t2);
                        if t2.0 != t.0 {
                            crate::ts::lemma_position_of(oe.times, t2);
                        }
                    }
                    if old(self).spec_at(name@, selector, t) == Some::<V>(value) {
                        assert(dense_lookup(oe.times, oe.vals, t) == Some(value));
                        assert(oe.vals[p] == value) by {
                            crate::ts::lemma_position_unique(oe.times, t, p);
                        }
                        assert(ne.vals =~= oe.vals);
                        assert(ne == oe);
                        assert(nm =~= om);
                    }
                } else {
                    let q = choose|q: int|
                        {
                            &&& 0 <= q <= oe.times.len()
                            &&& ne.times == #[trigger] oe.times.insert(q, t)
                            &&& ne.vals == oe.vals.insert(q, value)
                        };
                    assert forall|t2: Time| true implies #[trigger] dense_lookup(
                        ne.times,
                        ne.vals,
                        t2,
                    ) == (if t2.0 == t.0 {
                        Some(value)
                    } else {
                        dense_lookup(oe.times, oe.vals, t2)
                    }) by {
                        crate::ts::lemma_dense_lookup_insert(
                            oe.times,
                            oe.vals,
                            q,
                            t,
                            value,
                            t2,
                        );
                    }
                    assert(old(self).spec_at(name@, selector, t) != Some::<V>(value));
                }
                assert forall|n2: Seq<char>, s2: Selector, t2: Time|
                    !(n2 == name@ && s2 == selector && t2.0 == t.0) implies #[trigger] self
                    .spec_at(n2, s2, t2) == old(self).spec_at(n2, s2, t2) by {
                    lemma_first_index(old(self).keys(), (n2, s2));
                    let i2 = first_index(old(self).keys(), (n2, s2));
                    if i2 >= 0 && i2 != i {
                        assert(nm[i2] == om[i2]);
                    }
                }
            }
        } else {
            let series = if matches!(selector, Selector::Unit) {
                let mut ts = TimeSeriesDense::new();
                ts.push(t, value);
                QuantitySeries::Dense(ts)
            } else {
                let mut ts = TimeSeriesChanges::new();
                ts.push(t, value);
                QuantitySeries::Changes(ts)
            };
            let entry = StoreEntry { name: name.to_owned(), selector, series };
            self.entries.push(entry);
            proof {
                let keyv = (name@, selector);
                let om = old(self).model();
                let nm = self.model();
                assert(nm =~= om.push(nm[om.len() as int]));
                let ne = nm[om.len() as int];
                assert(ne.name == name@ && ne.selector == selector);
                assert(ne.times =~= seq![t] && ne.vals =~= seq![value]);
                assert(self.keys() =~= old(self).keys().push(keyv));
                lemma_first_index(old(self).keys(), keyv);
                assert forall|y: (Seq<char>, Selector)| true implies #[trigger] first_index(
                    self.keys(),
                    y,
                ) == (if y == keyv {
                    om.len() as int
                } else {
                    first_index(old(self).keys(), y)
                }) by {
                    lemma_first_index_push(old(self).keys(), keyv, y);
                }
                assert(entry_wf(ne));
                assert(dense_lookup(ne.times, ne.vals, t) == Some(value)) by {
                    crate::ts::lemma_position_unique(ne.times, t, 0);
                }
                assert forall|n2: Seq<char>, s2: Selector, t2: Time|
                    !(n2 == name@ && s2 == selector && t2.0 == t.0) implies #[trigger] self
                    .spec_at(n2, s2, t2) == old(self).spec_at(n2, s2, t2) by {
                    lemma_first_index(old(self).keys(), (n2, s2));
                    let i2 = first_index(old(self).keys(), (n2, s2));
                    if (n2, s2) == keyv {
                        assert(i2 == -1);
                        crate::ts::lemma_position_of(ne.times, t2);
                        if position_of(ne.times, t2) >= 0 {
                            assert(ne.times[position_of(ne.times, t2)].0 == t2.0);
                            assert(t2.0 == t.0);
                        }
                    } else {
                        if i2 >= 0 {
                            assert(nm[i2] == om[i2]);
                        }
                    }
                }
            }
        }
    }

    /// The value stored for `(name, selector, t)`; the quantity and a
    /// matching point must exist.
    pub fn get_value(&self, name: &str, selector: Selector, t: &Time) -> (r: V)
        requires
            self.wf(),
            self.spec_get(name@, selector, *t) is Some,
        ensures
            Some(r) == self.spec_get(name@, selector, *t),
    {
        let idx = self.find_entry(name, selector);
        match &self.entries[idx].series {
            QuantitySeries::Changes(ts) => ts.get(t).unwrap(),
            QuantitySeries::Dense(ts) => ts.get(t).unwrap(),
        }
    }

    /// The value stored for `(name, selector, t)`, or nothing where the
    /// quantity or the point is missing.
    pub fn get_value_opt(&self, name: &str, selector: Selector, t: &Time) -> (r: Option<V>)
        requires
            self.wf(),
        ensures
            r == self.spec_get(name@, selector, *t),
    {
        let idx = self.find_entry(name, selector);
        let n = self.entries.len();
        if idx < n {
            match &self.entries[idx].series {
                QuantitySeries::Changes(ts) => ts.get(t),
                QuantitySeries::Dense(ts) => ts.get(t),
            }
        } else {
            None
        }
    }
}

} // verus!
