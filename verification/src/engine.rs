//! The evaluator façade: an engine owning the value store, the dependency
//! graph, the dep-tracing stack and the subscription set.
//!
//! Reading a leaf records a dependency in the innermost evaluation frame;
//! registering a derived computation brackets its body in a fresh frame and
//! turns the captured reads into `leaf -> derived` edges; updating a leaf
//! walks the graph forward and reports the subscribed handles that may now
//! differ.

use vstd::prelude::*;
use crate::defs::{Error, ErrorV, Selector};
use crate::glue::{TableFromTupleData, TableValues};
use crate::pgoutput::LogicalReplicationMessage;
use crate::graph::{extends, index_of_first, intern_post, interned_handle, DepGraph};
use crate::store::ValueStore;
use crate::time::Time;
use crate::defs::NodeKey;

verus! {

/// Whether `v` holds `x`.
fn vec_contains(v: &Vec<usize>, x: usize) -> (r: bool)
    ensures
        r == v@.contains(x),
{
    let n = v.len();
    let mut k: usize = 0;
    while k < n
        invariant
            n == v@.len(),
            0 <= k <= n,
            forall|j: int| 0 <= j < k ==> v@[j] != x,
        decreases n - k,
    {
        if v[k] == x {
            proof {
                assert(v@[k as int] == x);
            }
            return true;
        }
        k = k + 1;
    }
    false
}

/// How recording a dependency transforms the dep-tracing stack: with no
/// frame open nothing happens; otherwise the handle joins the innermost
/// frame and every other frame is untouched.
pub open spec fn records_dep(before: Seq<Seq<usize>>, after: Seq<Seq<usize>>, h: usize) -> bool {
    &&& after.len() == before.len()
    &&& forall|i: int| 0 <= i < before.len() - 1 ==> after[i] == before[i]
    &&& before.len() == 0 ==> after == before
    &&& before.len() > 0 ==> forall|x: usize|
        #![trigger after[after.len() - 1].contains(x)]
        after[after.len() - 1].contains(x) <==> (before[before.len() - 1].contains(x) || x == h)
}


/// Whether a message list honors transaction bracketing when swept from
/// position `i` in the given state: a transaction may open only while the
/// buffer is empty, and row changes and commits may appear only inside a
/// transaction.
pub open spec fn sweep_accepts(
    msgs: Seq<LogicalReplicationMessage>,
    i: int,
    in_tx: bool,
    has_pending: bool,
) -> bool
    decreases msgs.len() - i,
{
    if i < 0 || i >= msgs.len() {
        true
    } else {
        match msgs[i] {
            LogicalReplicationMessage::Begin(_) => !has_pending && sweep_accepts(
                msgs,
                i + 1,
                true,
                has_pending,
            ),
            LogicalReplicationMessage::Commit(_) => in_tx && sweep_accepts(
                msgs,
                i + 1,
                false,
                false,
            ),
            _ => in_tx && sweep_accepts(msgs, i + 1, in_tx, true),
        }
    }
}

/// Whether the message list carries no row data: only transaction markers
/// and relation announcements.
pub open spec fn row_free(msgs: Seq<LogicalReplicationMessage>) -> bool {
    forall|j: int|
        0 <= j < msgs.len() ==> ((#[trigger] msgs[j]) is Begin || msgs[j] is Commit || msgs[j]
            is Relation)
}

/// One leaf write as the applier hands it to the store: the quantity
/// triple and the written value.
pub struct RowWrite<V> {
    pub name: Seq<char>,
    pub selector: Selector,
    pub t: Time,
    pub value: V,
}

/// How one write transforms the value store: the written point reads back,
/// every other exact point is untouched, a write of the value already held
/// changes nothing, and well-formedness is kept.
pub open spec fn write_applied<V: Copy>(
    before: ValueStore<V>,
    after: ValueStore<V>,
    w: RowWrite<V>,
) -> bool {
    &&& after.wf()
    &&& after.spec_at(w.name, w.selector, w.t) == Some(w.value)
    &&& forall|n2: Seq<char>, s2: Selector, t2: Time|
        !(n2 == w.name && s2 == w.selector && t2.0 == w.t.0) ==> #[trigger] after.spec_at(
            n2,
            s2,
            t2,
        ) == before.spec_at(n2, s2, t2)
    &&& (before.spec_at(w.name, w.selector, w.t) == Some(w.value) ==> after.model()
        == before.model())
}

/// A chain of writes from `first` to `last`: every intermediate store is
/// named, and each step applies exactly one write.
pub open spec fn writes_chain<V: Copy>(
    first: ValueStore<V>,
    last: ValueStore<V>,
    writes: Seq<RowWrite<V>>,
    mids: Seq<ValueStore<V>>,
) -> bool {
    &&& mids.len() == writes.len() + 1
    &&& mids[0] == first
    &&& mids[mids.len() - 1] == last
    &&& forall|k: int|
        0 <= k < writes.len() ==> write_applied(mids[k], mids[k + 1], #[trigger] writes[k])
}

/// Whether the write of `w` invalidates the subscribed handle `x` under
/// graph `g`: `x` is subscribed and reachable forward from `w`'s node.
pub open spec fn write_invalidates<V: Copy>(
    g: DepGraph,
    subs: Seq<usize>,
    w: RowWrite<V>,
    x: usize,
) -> bool {
    let hidx = index_of_first(g.node_keys(), (w.name, w.selector, w.t));
    &&& subs.contains(x)
    &&& hidx >= 0
    &&& g.reaches(hidx, x as int)
}

/// The reactive engine.
pub struct Db<V: Copy> {
    store: ValueStore<V>,
    graph: DepGraph,
    stack: Vec<Vec<usize>>,
    subs: Vec<usize>,
    replication_enabled: bool,
}

impl<V: Copy> Db<V> {
    /// The value store's contents.
    pub closed spec fn spec_store(&self) -> ValueStore<V> {
        self.store
    }

    /// The dependency graph.
    pub closed spec fn spec_graph(&self) -> DepGraph {
        self.graph
    }

    /// The dep-tracing stack: one set of handles per in-flight evaluation,
    /// innermost last.
    pub closed spec fn spec_stack(&self) -> Seq<Seq<usize>> {
        self.stack@.map_values(|frame: Vec<usize>| frame@)
    }

    /// The subscribed handles.
    pub closed spec fn spec_subs(&self) -> Seq<usize> {
        self.subs@
    }

    /// Whether the engine was constructed with replication.
    pub closed spec fn spec_replication_enabled(&self) -> bool {
        self.replication_enabled
    }

    /// Store and graph are internally consistent, every handle in a frame
    /// or in the subscription set names an interned node, and frames and
    /// the subscription set hold no duplicates.
    pub open spec fn wf(&self) -> bool {
        &&& self.spec_store().wf()
        &&& self.spec_graph().wf()
        &&& forall|i: int, k: int|
            #![trigger self.spec_stack()[i][k]]
            0 <= i < self.spec_stack().len() && 0 <= k < self.spec_stack()[i].len()
                ==> (self.spec_stack()[i][k] as int) < self.spec_graph().node_count_spec()
        &&& forall|i: int, k1: int, k2: int|
            #![trigger self.spec_stack()[i][k1], self.spec_stack()[i][k2]]
            0 <= i < self.spec_stack().len() && 0 <= k1 < k2 < self.spec_stack()[i].len()
                ==> self.spec_stack()[i][k1] != self.spec_stack()[i][k2]
        &&& forall|k: int|
            0 <= k < self.spec_subs().len() ==> ((#[trigger] self.spec_subs()[k]) as int)
                < self.spec_graph().node_count_spec()
        &&& forall|k1: int, k2: int|
            #![trigger self.spec_subs()[k1], self.spec_subs()[k2]]
            0 <= k1 < k2 < self.spec_subs().len() ==> self.spec_subs()[k1]
                != self.spec_subs()[k2]
    }

    /// A fresh engine with an empty store, graph, stack and subscription
    /// set.
    pub fn new(replication: bool) -> (r: Self)
        ensures
            r.wf(),
            r.spec_store().model() == Seq::<crate::store::EntryModel<V>>::empty(),
            r.spec_graph().node_keys() == Seq::<crate::graph::KeyView>::empty(),
            r.spec_stack() == Seq::<Seq<usize>>::empty(),
            r.spec_subs() == Seq::<usize>::empty(),
            r.spec_replication_enabled() == replication,
    {
        let r = Db {
            store: ValueStore::new(),
            graph: DepGraph::new(),
            stack: Vec::new(),
            subs: Vec::new(),
            replication_enabled: replication,
        };
        proof {
            assert(r.spec_stack() =~= Seq::<Seq<usize>>::empty());
        }
        r
    }

    /// The dependency graph, for inspection.
    pub fn graph(&self) -> (r: &DepGraph)
        ensures
            r == self.spec_graph(),
    {
        &self.graph
    }

    /// The stable handle of the `(name, selector, t)` triple, interning it
    /// on first mention: equal triples always yield the same handle,
    /// distinct triples distinct handles.
    pub fn get_ref_for_value(&mut self, name: &'static str, selector: Selector, t: Time) -> (h:
        usize)
        requires
            old(self).wf(),
        ensures
            final(self).wf(),
            intern_post(old(self).spec_graph(), final(self).spec_graph(), (name@, selector, t)),
            h as int == interned_handle(old(self).spec_graph(), (name@, selector, t)),
            h < final(self).spec_graph().node_count_spec(),
            final(self).spec_graph().node_keys()[h as int] == (name@, selector, t),
            final(self).spec_store() == old(self).spec_store(),
            final(self).spec_stack() == old(self).spec_stack(),
            final(self).spec_subs() == old(self).spec_subs(),
            final(self).spec_replication_enabled() == old(self).spec_replication_enabled(),
    {
        let key = NodeKey::new(name, selector, t);
        let h = self.graph.intern(&key);
        proof {
            assert(final(self).spec_stack() == old(self).spec_stack());
            assert(final(self).spec_subs() == old(self).spec_subs());
            assert(final(self).spec_store() == old(self).spec_store());
            assert(old(self).spec_graph().node_count_spec()
                <= final(self).spec_graph().node_count_spec());
        }
        h
    }

    /// Opens a fresh, empty evaluation frame.
    pub fn dep_tracing_function_call(&mut self)
        requires
            old(self).wf(),
        ensures
            final(self).wf(),
            final(self).spec_stack() == old(self).spec_stack().push(Seq::<usize>::empty()),
            final(self).spec_graph() == old(self).spec_graph(),
            final(self).spec_store() == old(self).spec_store(),
            final(self).spec_subs() == old(self).spec_subs(),
            final(self).spec_replication_enabled() == old(self).spec_replication_enabled(),
    {
        self.stack.push(Vec::new());
        proof {
            assert(final(self).spec_stack() =~= old(self).spec_stack().push(
                Seq::<usize>::empty(),
            ));
            assert(final(self).spec_subs() == old(self).spec_subs());
            assert(final(self).spec_graph() == old(self).spec_graph());
            assert(final(self).spec_store() == old(self).spec_store());
        }
    }

    /// Closes the innermost evaluation frame and hands back exactly the
    /// handles recorded in it.
    pub fn dep_tracing_function_return(&mut self) -> (deps: Vec<usize>)
        requires
            old(self).wf(),
            old(self).spec_stack().len() > 0,
        ensures
            final(self).wf(),
            deps@ == old(self).spec_stack()[old(self).spec_stack().len() - 1],
            final(self).spec_stack() == old(self).spec_stack().drop_last(),
            final(self).spec_graph() == old(self).spec_graph(),
            final(self).spec_store() == old(self).spec_store(),
            final(self).spec_subs() == old(self).spec_subs(),
            final(self).spec_replication_enabled() == old(self).spec_replication_enabled(),
    {
        let deps = self.stack.pop().unwrap();
        proof {
            assert(final(self).spec_stack() =~= old(self).spec_stack().drop_last());
            assert forall|i: int|
                0 <= i < final(self).spec_stack().len() implies final(self).spec_stack()[i]
                == old(self).spec_stack()[i] by {}
            assert(final(self).spec_subs() == old(self).spec_subs());
            assert(final(self).spec_graph() == old(self).spec_graph());
            assert(final(self).spec_store() == old(self).spec_store());
        }
        deps
    }

    /// Records a dependency on `dep` in the innermost frame; with no frame
    /// open (a top-level read) nothing is tracked.
    pub fn dep_tracing_add_dep(&mut self, dep: usize)
        requires
            old(self).wf(),
            (dep as int) < old(self).spec_graph().node_count_spec(),
        ensures
            final(self).wf(),
            records_dep(old(self).spec_stack(), final(self).spec_stack(), dep),
            final(self).spec_graph() == old(self).spec_graph(),
            final(self).spec_store() == old(self).spec_store(),
            final(self).spec_subs() == old(self).spec_subs(),
            final(self).spec_replication_enabled() == old(self).spec_replication_enabled(),
    {
        let n = self.stack.len();
        if n == 0 {
            proof {
                assert(final(self).spec_stack() == old(self).spec_stack());
                assert(final(self).spec_subs() == old(self).spec_subs());
                assert(final(self).spec_graph() == old(self).spec_graph());
                assert(final(self).spec_store() == old(self).spec_store());
            }
            return ;
        }
        let top = n - 1;
        let already = vec_contains(&self.stack[top], dep);
        if !already {
            let frame = &mut self.stack[top];
            frame.push(dep);
            proof {
                assert(final(self).spec_subs() == old(self).spec_subs());
                assert(final(self).spec_graph() == old(self).spec_graph());
                assert(final(self).spec_store() == old(self).spec_store());
                let before = old(self).spec_stack();
                let after = final(self).spec_stack();
                assert(after.len() == before.len());
                assert(after[top as int] =~= before[top as int].push(dep));
                assert forall|i: int| 0 <= i < before.len() - 1 implies after[i] == before[i] by {
                    assert(final(self).stack@[i] == old(self).stack@[i]);
                }
                assert forall|x: usize|
                    #![trigger after[after.len() - 1].contains(x)]
                    after[after.len() - 1].contains(x) <==> (before[before.len() - 1].contains(x)
                        || x == dep) by {
                    if after[after.len() - 1].contains(x) {
                        let k = choose|k: int|
                            0 <= k < after[after.len() - 1].len() && (#[trigger] after[after.len()
                                - 1][k]) == x;
                        if k < before[before.len() - 1].len() {
                            assert(before[before.len() - 1][k] == x);
                        }
                    }
                    if before[before.len() - 1].contains(x) {
                        let k = choose|k: int|
                            0 <= k < before[before.len() - 1].len() && (#[trigger] before[
                                before.len() - 1][k]) == x;
                        assert(after[after.len() - 1][k] == x);
                    }
                    if x == dep {
                        assert(after[after.len() - 1][before[before.len() - 1].len() as int]
                            == dep);
                    }
                }
            }
        } else {
            proof {
                assert(final(self).spec_stack() == old(self).spec_stack());
                assert(final(self).spec_subs() == old(self).spec_subs());
                assert(final(self).spec_graph() == old(self).spec_graph());
                assert(final(self).spec_store() == old(self).spec_store());
                let before = old(self).spec_stack();
                assert(before[before.len() - 1].contains(dep));
            }
        }
    }

    /// The value of the leaf or derived quantity `(name, selector, t)`,
    /// which must be present in the store; the read is recorded as a
    /// dependency in the innermost frame.
    pub fn get_value(&mut self, name: &'static str, selector: Selector, t: Time) -> (r: V)
        requires
            old(self).wf(),
            old(self).spec_store().spec_get(name@, selector, t) is Some,
        ensures
            final(self).wf(),
            Some(r) == old(self).spec_store().spec_get(name@, selector, t),
            final(self).spec_store() == old(self).spec_store(),
            intern_post(old(self).spec_graph(), final(self).spec_graph(), (name@, selector, t)),
            records_dep(
                old(self).spec_stack(),
                final(self).spec_stack(),
                interned_handle(old(self).spec_graph(), (name@, selector, t)) as usize,
            ),
            final(self).spec_subs() == old(self).spec_subs(),
            final(self).spec_replication_enabled() == old(self).spec_replication_enabled(),
    {
        let v = self.store.get_value(name, selector, &t);
        let h = self.get_ref_for_value(name, selector, t);
        self.dep_tracing_add_dep(h);
        v
    }

    /// The value of `(name, selector, t)` if the store holds one; the read
    /// is recorded as a dependency either way.
    pub fn get_value_opt(&mut self, name: &'static str, selector: Selector, t: Time) -> (r:
        Option<V>)
        requires
            old(self).wf(),
        ensures
            final(self).wf(),
            r == old(self).spec_store().spec_get(name@, selector, t),
            final(self).spec_store() == old(self).spec_store(),
            intern_post(old(self).spec_graph(), final(self).spec_graph(), (name@, selector, t)),
            records_dep(
                old(self).spec_stack(),
                final(self).spec_stack(),
                interned_handle(old(self).spec_graph(), (name@, selector, t)) as usize,
            ),
            final(self).spec_subs() == old(self).spec_subs(),
            final(self).spec_replication_enabled() == old(self).spec_replication_enabled(),
    {
        let v = self.store.get_value_opt(name, selector, &t);
        let h = self.get_ref_for_value(name, selector, t);
        self.dep_tracing_add_dep(h);
        v
    }

    /// Subscribes to `(name, selector, t)` and hands back its handle; the
    /// handle stays subscribed until `unsubscribe`.
    pub fn subscribe(&mut self, name: &'static str, selector: &Selector, t: &Time) -> (h: usize)
        requires
            old(self).wf(),
        ensures
            final(self).wf(),
            intern_post(old(self).spec_graph(), final(self).spec_graph(), (name@, *selector, *t)),
            h as int == interned_handle(old(self).spec_graph(), (name@, *selector, *t)),
            forall|x: usize|
                #![trigger final(self).spec_subs().contains(x)]
                final(self).spec_subs().contains(x) <==> (old(self).spec_subs().contains(x) || x
                    == h),
            final(self).spec_store() == old(self).spec_store(),
            final(self).spec_stack() == old(self).spec_stack(),
            final(self).spec_replication_enabled() == old(self).spec_replication_enabled(),
    {
        let h = self.get_ref_for_value(name, *selector, *t);
        let already = vec_contains(&self.subs, h);
        if !already {
            self.subs.push(h);
            proof {
                assert(final(self).spec_stack() == old(self).spec_stack());
                assert(final(self).spec_store() == old(self).spec_store());
                let before = old(self).spec_subs();
                let after = final(self).spec_subs();
                assert(after =~= before.push(h));
                assert forall|x: usize|
                    #![trigger after.contains(x)]
                    after.contains(x) <==> (before.contains(x) || x == h) by {
                    if after.contains(x) {
                        let k = choose|k: int|
                            0 <= k < after.len() && (#[trigger] after[k]) == x;
                        if k < before.len() {
                            assert(before[k] == x);
                        }
                    }
                    if before.contains(x) {
                        let k = choose|k: int|
                            0 <= k < before.len() && (#[trigger] before[k]) == x;
                        assert(after[k] == x);
                    }
                    if x == h {
                        assert(after[before.len() as int] == h);
                    }
                }
            }
        } else {
            proof {
                assert(final(self).spec_subs() == old(self).spec_subs());
                assert(final(self).spec_stack() == old(self).spec_stack());
                assert(final(self).spec_store() == old(self).spec_store());
                assert(old(self).spec_subs().contains(h));
            }
        }
        h
    }

    /// Records that the node `to` depends on each handle in `deps`:
    /// afterwards the graph has an edge from every such handle to `to`, and
    /// no other new edge.
    pub fn add_dep_edges(&mut self, deps: &Vec<usize>, to: usize)
        requires
            old(self).wf(),
            (to as int) < old(self).spec_graph().node_count_spec(),
            forall|k: int|
                0 <= k < deps@.len() ==> ((#[trigger] deps@[k]) as int) < old(self).spec_graph().node_count_spec(),
        ensures
            final(self).wf(),
            final(self).spec_graph().node_keys() == old(self).spec_graph().node_keys(),
            forall|a: int, b: int|
                #![trigger final(self).spec_graph().has_edge(a, b)]
                #![trigger old(self).spec_graph().has_edge(a, b)]
                final(self).spec_graph().has_edge(a, b) == (old(self).spec_graph().has_edge(
                    a,
                    b,
                ) || (exists|k: int|
                    0 <= k < deps@.len() && (#[trigger] deps@[k]) as int == a && b
                        == to as int)),
            final(self).spec_stack() == old(self).spec_stack(),
            final(self).spec_subs() == old(self).spec_subs(),
            final(self).spec_store() == old(self).spec_store(),
            final(self).spec_replication_enabled() == old(self).spec_replication_enabled(),
    {
        let ghost snap = *old(self);
        let n = deps.len();
        let mut k: usize = 0;
        while k < n
            invariant
                self.wf(),
                n == deps@.len(),
                0 <= k <= n,
                (to as int) < self.spec_graph().node_count_spec(),
                forall|k2: int|
                    0 <= k2 < n ==> ((#[trigger] deps@[k2]) as int)
                        < self.spec_graph().node_count_spec(),
                self.spec_graph().node_keys() == snap.spec_graph().node_keys(),
                forall|a: int, b: int|
                    #![trigger self.spec_graph().has_edge(a, b)]
                    #![trigger snap.spec_graph().has_edge(a, b)]
                    self.spec_graph().has_edge(a, b) == (snap.spec_graph().has_edge(a, b) || (
                    exists|k2: int|
                        0 <= k2 < k && (#[trigger] deps@[k2]) as int == a && b == to as int)),
                self.spec_stack() == snap.spec_stack(),
                self.spec_subs() == snap.spec_subs(),
                self.spec_store() == snap.spec_store(),
                self.spec_replication_enabled() == snap.spec_replication_enabled(),
            decreases n - k,
        {
            let ghost mid = *self;
            let d = deps[k];
            self.graph.update_edge(d, to);
            proof {
                assert(self.spec_stack() == mid.spec_stack());
                assert(self.spec_subs() == mid.spec_subs());
                assert(self.spec_store() == mid.spec_store());
                assert forall|a: int, b: int|
                    #![trigger self.spec_graph().has_edge(a, b)]
                    #![trigger snap.spec_graph().has_edge(a, b)]
                    self.spec_graph().has_edge(a, b) == (snap.spec_graph().has_edge(a, b) || (
                    exists|k2: int|
                        0 <= k2 < k + 1 && (#[trigger] deps@[k2]) as int == a && b
                            == to as int)) by {
                    if self.spec_graph().has_edge(a, b) {
                        if !mid.spec_graph().has_edge(a, b) {
                            assert(a == d as int && b == to as int);
                            assert(deps@[k as int] as int == a && b == to as int);
                            assert(exists|k3: int|
                                0 <= k3 < k + 1 && (#[trigger] deps@[k3]) as int == a && b
                                    == to as int);
                        } else {
                            if !snap.spec_graph().has_edge(a, b) {
                                let k3 = choose|k3: int|
                                    0 <= k3 < k && (#[trigger] deps@[k3]) as int == a && b
                                        == to as int;
                                assert(0 <= k3 < k + 1 && (deps@[k3]) as int == a && b
                                    == to as int);
                                assert(exists|k4: int|
                                    0 <= k4 < k + 1 && (#[trigger] deps@[k4]) as int == a
                                        && b == to as int);
                            }
                        }
                    }
                    if exists|k2: int|
                        0 <= k2 < k + 1 && (#[trigger] deps@[k2]) as int == a && b
                            == to as int {
                        let k2 = choose|k2: int|
                            0 <= k2 < k + 1 && (#[trigger] deps@[k2]) as int == a && b
                                == to as int;
                        if k2 < k {
                            assert(0 <= k2 < k && (deps@[k2]) as int == a && b == to as int);
                            assert(exists|k3: int|
                                0 <= k3 < k && (#[trigger] deps@[k3]) as int == a && b
                                    == to as int);
                            assert(mid.spec_graph().has_edge(a, b));
                            assert(self.spec_graph().has_edge(a, b));
                        } else {
                            assert(a == d as int && b == to as int);
                            assert(self.spec_graph().has_edge(a, b));
                        }
                    }
                }
            }
            k = k + 1;
        }
        proof {
            assert(*self == *final(self));
        }
    }

    /// Registers and evaluates the derived computation `value_fn` for the
    /// triple `(name, selector, t)`: its body runs inside a fresh frame,
    /// every handle captured in that frame gets an edge to the result node,
    /// and the result node itself is recorded in the enclosing frame, so
    /// that an outer computation depends on this derived quantity rather
    /// than on its leaves.
    ///
    /// Besides the computed value, the result carries, as ghost data, the
    /// dependency set the frame captured: every read the body performed
    /// through this engine stands in it, and the contract says each of its
    /// handles has an edge to the result node.
    pub fn register_fn<B: ValueFn<V>>(
        &mut self,
        name: &'static str,
        selector: Selector,
        t: Time,
        value_fn: &B,
    ) -> (r: (V, Ghost<Seq<usize>>))
        requires
            old(self).wf(),
        ensures
            final(self).wf(),
            ({
                let h = interned_handle(old(self).spec_graph(), (name@, selector, t));
                &&& forall|k: int|
                    0 <= k < r.1@.len() ==> final(self).spec_graph().has_edge(
                        (#[trigger] r.1@[k]) as int,
                        h,
                    )
                &&& forall|k1: int, k2: int|
                    #![trigger r.1@[k1], r.1@[k2]]
                    0 <= k1 < k2 < r.1@.len() ==> r.1@[k1] != r.1@[k2]
                &&& forall|k: int|
                    0 <= k < r.1@.len() ==> ((#[trigger] r.1@[k]) as int)
                        < final(self).spec_graph().node_count_spec()
            }),
            final(self).spec_stack().len() == old(self).spec_stack().len(),
            forall|i: int|
                0 <= i < old(self).spec_stack().len() - 1 ==> final(self).spec_stack()[i]
                    == old(self).spec_stack()[i],
            old(self).spec_stack().len() > 0 ==> {
                &&& forall|x: usize|
                    old(self).spec_stack().last().contains(x) ==> final(self).spec_stack().last().contains(x)
                &&& final(self).spec_stack().last().contains(
                    interned_handle(old(self).spec_graph(), (name@, selector, t)) as usize,
                )
            },
            extends(old(self).spec_graph().node_keys(), final(self).spec_graph().node_keys()),
            forall|a: int, b: int|
                old(self).spec_graph().has_edge(a, b) ==> final(self).spec_graph().has_edge(
                    a,
                    b,
                ),
    {
        let h = self.get_ref_for_value(name, selector, t);
        let ghost g1 = *self;
        self.dep_tracing_function_call();
        let ghost g2 = *self;
        let v = value_fn.eval(self);
        let ghost g3 = *self;
        let deps = self.dep_tracing_function_return();
        let ghost g4 = *self;
        proof {
            assert((h as int) < g4.spec_graph().node_count_spec());
            assert forall|k: int|
                0 <= k < deps@.len() implies ((#[trigger] deps@[k]) as int)
                    < g4.spec_graph().node_count_spec() by {
                assert(g3.spec_stack()[g3.spec_stack().len() - 1][k] == deps@[k]);
            }
        }
        self.add_dep_edges(&deps, h);
        let ghost g5 = *self;
        self.dep_tracing_add_dep(h);
        proof {
            assert(final(self).spec_graph() == g5.spec_graph());
            assert forall|k: int|
                0 <= k < deps@.len() implies final(self).spec_graph().has_edge(
                (#[trigger] deps@[k]) as int,
                interned_handle(old(self).spec_graph(), (name@, selector, t)),
            ) by {
                assert(g5.spec_graph().has_edge(deps@[k] as int, h as int));
            }
            assert forall|k1: int, k2: int|
                #![trigger deps@[k1], deps@[k2]]
                0 <= k1 < k2 < deps@.len() implies deps@[k1] != deps@[k2] by {
                let top = g3.spec_stack().len() - 1;
                assert(g3.spec_stack()[top][k1] == deps@[k1]);
                assert(g3.spec_stack()[top][k2] == deps@[k2]);
            }
            let l0 = old(self).spec_stack().len();
            assert(g2.spec_stack().len() == l0 + 1);
            assert(g3.spec_stack().len() == l0 + 1);
            assert(g4.spec_stack() == g3.spec_stack().drop_last());
            assert(g4.spec_stack().len() == l0);
            assert forall|i: int|
                0 <= i < l0 implies g4.spec_stack()[i] == old(self).spec_stack()[i] by {
                assert(g3.spec_stack()[i] == g2.spec_stack()[i]);
                assert(g2.spec_stack()[i] == if i < l0 {
                    g1.spec_stack()[i]
                } else {
                    Seq::<usize>::empty()
                });
            }
            assert(g5.spec_stack() == g4.spec_stack());
            assert(final(self).spec_stack().len() == l0);
            if l0 > 0 {
                assert(final(self).spec_stack().last().contains(h));
                assert forall|x: usize|
                    old(self).spec_stack().last().contains(x) implies final(self).spec_stack().last().contains(x) by {
                    assert(g4.spec_stack()[l0 - 1] == old(self).spec_stack()[l0 - 1]);
                }
            }
            assert(extends(
                old(self).spec_graph().node_keys(),
                final(self).spec_graph().node_keys(),
            )) by {
                assert(extends(g1.spec_graph().node_keys(), g3.spec_graph().node_keys()));
                assert(final(self).spec_graph().node_keys()
                    == g3.spec_graph().node_keys());
                let k1 = old(self).spec_graph().node_keys();
                let k2 = g1.spec_graph().node_keys();
                let k3 = g3.spec_graph().node_keys();
                assert(k1.len() <= k2.len());
                assert forall|i: int| 0 <= i < k1.len() implies (#[trigger] k3[i]) == k1[i] by {
                    assert(k2[i] == k1[i]);
                }
            }
        }
        (v, Ghost(deps@))
    }

    /// Writes a fresh leaf value into the store and walks the dependency
    /// graph forward from the leaf's node: the result is exactly the set of
    /// subscribed handles reachable from it, each at most once. A triple
    /// that was never mentioned has no node and no subscribers, so the
    /// result is then empty.
    pub fn update(&mut self, name: &'static str, selector: &Selector, t: &Time, new_value: V) -> (r:
        Vec<usize>)
        requires
            old(self).wf(),
        ensures
            final(self).wf(),
            final(self).spec_graph() == old(self).spec_graph(),
            final(self).spec_stack() == old(self).spec_stack(),
            final(self).spec_subs() == old(self).spec_subs(),
            final(self).spec_replication_enabled() == old(self).spec_replication_enabled(),
            final(self).spec_store().spec_at(name@, *selector, *t) == Some(new_value),
            forall|n2: Seq<char>, s2: Selector, t2: Time|
                !(n2 == name@ && s2 == *selector && t2.0 == t.0)
                    ==> #[trigger] final(self).spec_store().spec_at(n2, s2, t2) == old(self).spec_store().spec_at(n2, s2, t2),
            old(self).spec_store().spec_at(name@, *selector, *t) == Some(new_value) ==> final(self).spec_store().model() == old(self).spec_store().model(),
            forall|x: usize| #[trigger] r@.contains(x) ==> old(self).spec_subs().contains(x),
            write_applied(
                old(self).spec_store(),
                final(self).spec_store(),
                RowWrite { name: name@, selector: *selector, t: *t, value: new_value },
            ),
            forall|x: usize|
                #![trigger r@.contains(x)]
                r@.contains(x) <==> write_invalidates(
                    old(self).spec_graph(),
                    old(self).spec_subs(),
                    RowWrite { name: name@, selector: *selector, t: *t, value: new_value },
                    x,
                ),
            ({
                let hidx = index_of_first(
                    old(self).spec_graph().node_keys(),
                    (name@, *selector, *t),
                );
                if hidx >= 0 {
                    &&& forall|x: usize|
                        #![trigger r@.contains(x)]
                        r@.contains(x) <==> (old(self).spec_subs().contains(x) && old(self).spec_graph().reaches(hidx, x as int))
                    &&& forall|i1: int, i2: int|
                        #![trigger r@[i1], r@[i2]]
                        0 <= i1 < i2 < r@.len() ==> r@[i1] != r@[i2]
                } else {
                    r@ == Seq::<usize>::empty()
                }
            }),
    {
        self.store.set_value(name, *selector, *t, new_value);
        proof {
            assert(self.spec_graph() == old(self).spec_graph());
            assert(self.spec_stack() == old(self).spec_stack());
            assert(self.spec_subs() == old(self).spec_subs());
            assert(self.wf());
        }
        let ghost snap = *self;
        let key = NodeKey::new(name, *selector, *t);
        let found = self.graph.find_node(&key);
        match found {
            None => {
                let r: Vec<usize> = Vec::new();
                proof {
                    assert(*self == *final(self));
                    assert(r@ =~= Seq::<usize>::empty());
                }
                r
            },
            Some(h) => {
                let nc = self.graph.node_count();
                proof {
                    crate::graph::lemma_index_of_first(
                        self.spec_graph().node_keys(),
                        (name@, *selector, *t),
                    );
                    let i = index_of_first(
                        self.spec_graph().node_keys(),
                        (name@, *selector, *t),
                    );
                    if i < 0 {
                        assert(false);
                    }
                    assert(h as int == i);
                    assert(self.spec_graph().node_keys()
                        == old(self).spec_graph().node_keys());
                    assert((h as int) < self.spec_graph().node_count_spec());
                }
                let visited = self.graph.reachable_from(h);
                let mut result: Vec<usize> = Vec::new();
                let m = self.subs.len();
                let mut k: usize = 0;
                while k < m
                    invariant
                        *self == snap,
                        self.wf(),
                        snap.spec_graph() == old(self).spec_graph(),
                        snap.spec_subs() == old(self).spec_subs(),
                        h as int == index_of_first(
                            old(self).spec_graph().node_keys(),
                            (name@, *selector, *t),
                        ),
                        m == self.subs@.len(),
                        0 <= k <= m,
                        (h as int) < self.spec_graph().node_count_spec(),
                        visited@.len() == self.spec_graph().node_count_spec(),
                        forall|hh: int|
                            0 <= hh < visited@.len() ==> ((#[trigger] visited@[hh])
                                <==> self.spec_graph().reaches(h as int, hh)),
                        forall|x: usize|
                            #![trigger result@.contains(x)]
                            result@.contains(x) <==> (exists|j: int|
                                0 <= j < k && (#[trigger] self.spec_subs()[j]) == x
                                    && visited@[x as int]),
                        forall|i1: int, i2: int|
                            #![trigger result@[i1], result@[i2]]
                            0 <= i1 < i2 < result@.len() ==> result@[i1] != result@[i2],
                    decreases m - k,
                {
                    let s = self.subs[k];
                    let ghost result_before = result@;
                    proof {
                        assert(self.spec_subs()[k as int] == s);
                        assert((s as int) < self.spec_graph().node_count_spec());
                    }
                    if visited[s] {
                        let already = vec_contains(&result, s);
                        if !already {
                            result.push(s);
                        }
                    }
                    proof {
                        assert forall|x: usize|
                            #![trigger result@.contains(x)]
                            result@.contains(x) <==> (exists|j: int|
                                0 <= j < k + 1 && (#[trigger] self.spec_subs()[j]) == x
                                    && visited@[x as int]) by {
                            if result@.contains(x) {
                                if result_before.contains(x) {
                                } else {
                                    assert(result@ == result_before.push(x));
                                    assert(x == s && visited@[s as int]);
                                    assert(self.spec_subs()[k as int] == x);
                                }
                            }
                            if exists|j: int|
                                0 <= j < k + 1 && (#[trigger] self.spec_subs()[j]) == x
                                    && visited@[x as int] {
                                let j = choose|j: int|
                                    0 <= j < k + 1 && (#[trigger] self.spec_subs()[j]) == x
                                        && visited@[x as int];
                                if j < k {
                                    assert(result_before.contains(x));
                                    if result@ == result_before {
                                    } else {
                                        assert(result@ == result_before.push(s));
                                        let j2 = choose|j2: int|
                                            0 <= j2 < result_before.len() && (
                                            #[trigger] result_before[j2]) == x;
                                        assert(result@[j2] == x);
                                    }
                                } else {
                                    assert(x == s);
                                    if result_before.contains(x) {
                                        if result@ == result_before {
                                        } else {
                                            let j2 = choose|j2: int|
                                                0 <= j2 < result_before.len() && (
                                                #[trigger] result_before[j2]) == x;
                                            assert(result@[j2] == x);
                                        }
                                    } else {
                                        assert(result@ == result_before.push(s));
                                        assert(result@[result_before.len() as int] == x);
                                    }
                                }
                            }
                        }
                        assert forall|i1: int, i2: int|
                            #![trigger result@[i1], result@[i2]]
                            0 <= i1 < i2 < result@.len() implies result@[i1]
                            != result@[i2] by {
                            if result@ != result_before {
                                assert(result@ == result_before.push(s));
                                if i2 == result_before.len() {
                                    assert(!result_before.contains(s));
                                    assert(result_before[i1] == result@[i1]);
                                    if result@[i1] == s {
                                        assert(result_before.contains(s));
                                    }
                                }
                            }
                        }
                    }
                    k = k + 1;
                }
                proof {
                    let hidx = index_of_first(
                        old(self).spec_graph().node_keys(),
                        (name@, *selector, *t),
                    );
                    assert(hidx == h as int);
                    assert forall|x: usize|
                        #![trigger result@.contains(x)]
                        result@.contains(x) <==> (old(self).spec_subs().contains(x) && old(self).spec_graph().reaches(hidx, x as int)) by {
                        if result@.contains(x) {
                            let j = choose|j: int|
                                0 <= j < m && (#[trigger] self.spec_subs()[j]) == x
                                    && visited@[x as int];
                            assert(old(self).spec_subs()[j] == x);
                        }
                        if old(self).spec_subs().contains(x) && old(self).spec_graph().reaches(
                            hidx,
                            x as int,
                        ) {
                            let j = choose|j: int|
                                0 <= j < old(self).spec_subs().len() && (#[trigger] old(self).spec_subs()[j]) == x;
                            assert(self.spec_subs()[j] == x);
                            assert((x as int) < self.spec_graph().node_count_spec());
                            assert(visited@[x as int]);
                        }
                    }
                    assert(*self == *final(self));
                }
                result
            },
        }
    }

    /// Folds the handles of `src` into `dst`, keeping `dst` free of
    /// duplicates.
    fn merge_handles(dst: &mut Vec<usize>, src: &Vec<usize>)
        requires
            forall|i1: int, i2: int|
                #![trigger old(dst)@[i1], old(dst)@[i2]]
                0 <= i1 < i2 < old(dst)@.len() ==> old(dst)@[i1] != old(dst)@[i2],
        ensures
            forall|i1: int, i2: int|
                #![trigger final(dst)@[i1], final(dst)@[i2]]
                0 <= i1 < i2 < final(dst)@.len() ==> final(dst)@[i1] != final(dst)@[i2],
            forall|x: usize|
                #![trigger final(dst)@.contains(x)]
                final(dst)@.contains(x) <==> (old(dst)@.contains(x) || src@.contains(x)),
    {
        let n = src.len();
        let mut k: usize = 0;
        while k < n
            invariant
                n == src@.len(),
                0 <= k <= n,
                forall|i1: int, i2: int|
                    #![trigger dst@[i1], dst@[i2]]
                    0 <= i1 < i2 < dst@.len() ==> dst@[i1] != dst@[i2],
                forall|x: usize|
                    #![trigger dst@.contains(x)]
                    dst@.contains(x) <==> (old(dst)@.contains(x) || (exists|j: int|
                        0 <= j < k && (#[trigger] src@[j]) == x)),
            decreases n - k,
        {
            let x = src[k];
            let ghost dst0 = dst@;
            let already = vec_contains(dst, x);
            if !already {
                dst.push(x);
            }
            proof {
                assert(src@[k as int] == x);
                assert forall|y: usize|
                    #![trigger dst@.contains(y)]
                    dst@.contains(y) <==> (old(dst)@.contains(y) || (exists|j: int|
                        0 <= j < k + 1 && (#[trigger] src@[j]) == y)) by {
                    if dst@.contains(y) {
                        if dst0.contains(y) {
                        } else {
                            assert(dst@ == dst0.push(x));
                            assert(y == x);
                        }
                    }
                    if old(dst)@.contains(y) || (exists|j: int|
                        0 <= j < k + 1 && (#[trigger] src@[j]) == y) {
                        if dst0.contains(y) {
                            if dst@ == dst0 {
                            } else {
                                let j2 = choose|j2: int|
                                    0 <= j2 < dst0.len() && (#[trigger] dst0[j2]) == y;
                                assert(dst@[j2] == y);
                            }
                        } else {
                            assert(y == x);
                            assert(!already);
                            assert(dst@ == dst0.push(x));
                            assert(dst@[dst0.len() as int] == x);
                        }
                    }
                }
                assert forall|i1: int, i2: int|
                    #![trigger dst@[i1], dst@[i2]]
                    0 <= i1 < i2 < dst@.len() implies dst@[i1] != dst@[i2] by {
                    if dst@ != dst0 {
                        assert(dst@ == dst0.push(x));
                        if i2 == dst0.len() {
                            assert(!dst0.contains(x));
                            assert(dst0[i1] == dst@[i1]);
                            if dst@[i1] == x {
                                assert(dst0.contains(x));
                            }
                        }
                    }
                }
            }
            k = k + 1;
        }
    }

    /// Applies one complete transaction's buffered row messages: relation
    /// announcements switch the current table and every inserted or updated
    /// row's values flow into the store, collecting the subscribed handles
    /// each write invalidates. The whole batch is decoded before anything
    /// is written, so a decode failure leaves the store untouched: no
    /// partial transaction is ever applied.
    fn apply_transaction<T: TableFromTupleData + TableValues<V>>(
        &mut self,
        changes: &Vec<LogicalReplicationMessage>,
        batch: &Vec<usize>,
    ) -> (r: Result<Vec<usize>, Error>)
        requires
            old(self).wf(),
            forall|k: int| 0 <= k < batch@.len() ==> (#[trigger] batch@[k]) < changes@.len(),
        ensures
            final(self).wf(),
            final(self).spec_graph() == old(self).spec_graph(),
            final(self).spec_stack() == old(self).spec_stack(),
            final(self).spec_subs() == old(self).spec_subs(),
            final(self).spec_replication_enabled() == old(self).spec_replication_enabled(),
            r matches Err(_) ==> final(self).spec_store() == old(self).spec_store(),
            (forall|k: int|
                0 <= k < batch@.len() ==> (changes@[(#[trigger] batch@[k]) as int] is Relation)) ==> {
                &&& r matches Ok(v) && v@.len() == 0
                &&& final(self).spec_store() == old(self).spec_store()
            },
            r matches Ok(v) ==> {
                &&& forall|x: usize|
                    #[trigger] v@.contains(x) ==> old(self).spec_subs().contains(x)
                &&& forall|i1: int, i2: int|
                    #![trigger v@[i1], v@[i2]]
                    0 <= i1 < i2 < v@.len() ==> v@[i1] != v@[i2]
            },
            r matches Ok(v) ==> exists|writes: Seq<RowWrite<V>>, mids: Seq<ValueStore<V>>|
                {
                    &&& #[trigger] writes_chain(
                        old(self).spec_store(),
                        final(self).spec_store(),
                        writes,
                        mids,
                    )
                    &&& forall|x: usize|
                        #![trigger v@.contains(x)]
                        v@.contains(x) <==> exists|k: int|
                            0 <= k < writes.len() && write_invalidates(
                                old(self).spec_graph(),
                                old(self).spec_subs(),
                                #[trigger] writes[k],
                                x,
                            )
                },
    {
        let mut relation_name: String = String::new();
        let mut rows: Vec<T> = Vec::new();
        let nb = batch.len();
        let mut k: usize = 0;
        while k < nb
            invariant
                *self == *old(self),
                self.wf(),
                nb == batch@.len(),
                0 <= k <= nb,
                forall|k2: int| 0 <= k2 < nb ==> (#[trigger] batch@[k2]) < changes@.len(),
                (forall|k2: int|
                    0 <= k2 < nb ==> (changes@[(#[trigger] batch@[k2]) as int] is Relation))
                    ==> rows@.len() == 0,
            decreases nb - k,
        {
            let idx = batch[k];
            match &changes[idx] {
                LogicalReplicationMessage::Relation(rel) => {
                    relation_name = rel.relation_name.clone();
                },
                LogicalReplicationMessage::Update(u) => {
                    match T::from_tuple_data(relation_name.as_str(), &u.new_tuple) {
                        Ok(t) => {
                            rows.push(t);
                        },
                        Err(e) => {
                            return Err(e);
                        },
                    }
                },
                LogicalReplicationMessage::Insert(ins) => {
                    match T::from_tuple_data(relation_name.as_str(), &ins.new_tuple) {
                        Ok(t) => {
                            rows.push(t);
                        },
                        Err(e) => {
                            return Err(e);
                        },
                    }
                },
                _ => {
                    return Err(
                        Error::ReplicationError {
                            detail: "unsupported message in transaction".to_owned(),
                        },
                    );
                },
            }
            k = k + 1;
        }
        let mut updated: Vec<usize> = Vec::new();
        let ghost mut writes_log: Seq<RowWrite<V>> = Seq::empty();
        let ghost mut mids_log: Seq<ValueStore<V>> = seq![self.spec_store()];
        let nr = rows.len();
        let mut j: usize = 0;
        while j < nr
            invariant
                self.wf(),
                nr == rows@.len(),
                0 <= j <= nr,
                self.spec_graph() == old(self).spec_graph(),
                self.spec_stack() == old(self).spec_stack(),
                self.spec_subs() == old(self).spec_subs(),
                self.spec_replication_enabled() == old(self).spec_replication_enabled(),
                nr == 0 ==> self.spec_store() == old(self).spec_store(),
                nr == 0 ==> updated@.len() == 0,
                writes_chain(old(self).spec_store(), self.spec_store(), writes_log, mids_log),
                forall|x: usize|
                    #![trigger updated@.contains(x)]
                    updated@.contains(x) <==> exists|k: int|
                        0 <= k < writes_log.len() && write_invalidates(
                            old(self).spec_graph(),
                            old(self).spec_subs(),
                            #[trigger] writes_log[k],
                            x,
                        ),
                forall|x: usize|
                    #[trigger] updated@.contains(x) ==> old(self).spec_subs().contains(x),
                forall|i1: int, i2: int|
                    #![trigger updated@[i1], updated@[i2]]
                    0 <= i1 < i2 < updated@.len() ==> updated@[i1] != updated@[i2],
            decreases nr - j,
        {
            let table = &rows[j];
            let t = table.time();
            let sel = table.selector();
            let values = table.values();
            let nv = values.len();
            let mut m: usize = 0;
            while m < nv
                invariant
                    self.wf(),
                    nv == values@.len(),
                    0 <= m <= nv,
                    self.spec_graph() == old(self).spec_graph(),
                    self.spec_stack() == old(self).spec_stack(),
                    self.spec_subs() == old(self).spec_subs(),
                    self.spec_replication_enabled() == old(self).spec_replication_enabled(),
                    writes_chain(
                        old(self).spec_store(),
                        self.spec_store(),
                        writes_log,
                        mids_log,
                    ),
                    forall|x: usize|
                        #![trigger updated@.contains(x)]
                        updated@.contains(x) <==> exists|k: int|
                            0 <= k < writes_log.len() && write_invalidates(
                                old(self).spec_graph(),
                                old(self).spec_subs(),
                                #[trigger] writes_log[k],
                                x,
                            ),
                    forall|x: usize|
                        #[trigger] updated@.contains(x) ==> old(self).spec_subs().contains(x),
                    forall|i1: int, i2: int|
                        #![trigger updated@[i1], updated@[i2]]
                        0 <= i1 < i2 < updated@.len() ==> updated@[i1] != updated@[i2],
                decreases nv - m,
            {
                let pair = values[m];
                let ghost store_before = self.spec_store();
                let ghost writes_before = writes_log;
                let ghost updated_before = updated@;
                let ids = self.update(pair.0, &sel, &t, pair.1);
                let ghost w = RowWrite { name: pair.0@, selector: sel, t: t, value: pair.1 };
                proof {
                    writes_log = writes_log.push(w);
                    mids_log = mids_log.push(self.spec_store());
                    assert(write_applied(store_before, self.spec_store(), w));
                    assert forall|k: int|
                        0 <= k < writes_log.len() implies write_applied(
                        mids_log[k],
                        mids_log[k + 1],
                        #[trigger] writes_log[k],
                    ) by {
                        if k < writes_before.len() {
                            assert(writes_log[k] == writes_before[k]);
                        } else {
                            assert(writes_log[k] == w);
                            assert(mids_log[k] == store_before);
                            assert(mids_log[k + 1] == self.spec_store());
                        }
                    }
                }
                Self::merge_handles(&mut updated, &ids);
                proof {
                    assert forall|x: usize|
                        #![trigger updated@.contains(x)]
                        updated@.contains(x) <==> (exists|k: int|
                            0 <= k < writes_log.len() && write_invalidates(
                                old(self).spec_graph(),
                                old(self).spec_subs(),
                                #[trigger] writes_log[k],
                                x,
                            )) by {
                        if updated@.contains(x) {
                            if updated_before.contains(x) {
                                let k = choose|k: int|
                                    0 <= k < writes_before.len() && write_invalidates(
                                        old(self).spec_graph(),
                                        old(self).spec_subs(),
                                        #[trigger] writes_before[k],
                                        x,
                                    );
                                assert(writes_log[k] == writes_before[k]);
                            } else {
                                assert(ids@.contains(x));
                                assert(write_invalidates(
                                    old(self).spec_graph(),
                                    old(self).spec_subs(),
                                    w,
                                    x,
                                ));
                                assert(writes_log[writes_before.len() as int] == w);
                            }
                        }
                        if exists|k: int|
                            0 <= k < writes_log.len() && write_invalidates(
                                old(self).spec_graph(),
                                old(self).spec_subs(),
                                #[trigger] writes_log[k],
                                x,
                            ) {
                            let k = choose|k: int|
                                0 <= k < writes_log.len() && write_invalidates(
                                    old(self).spec_graph(),
                                    old(self).spec_subs(),
                                    #[trigger] writes_log[k],
                                    x,
                                );
                            if k < writes_before.len() {
                                assert(writes_before[k] == writes_log[k]);
                                assert(updated_before.contains(x));
                            } else {
                                assert(writes_log[k] == w);
                                assert(ids@.contains(x));
                            }
                        }
                    }
                }
                m = m + 1;
            }
            j = j + 1;
        }
        Ok(updated)
    }

    /// Sweeps one polling round's messages, honoring transaction
    /// boundaries: row changes buffered between a Begin and its Commit are
    /// applied atomically at the Commit, and the union of the subscribed
    /// handles they invalidate is returned. Messages of an unterminated
    /// trailing transaction are discarded without effect, and no message
    /// outside a transaction is tolerated. On an engine built without
    /// replication the answer is `ReplicationNotEnabled`.
    ///
    /// The contract pins the observable effect: on success the final store
    /// is a chain of single-point writes over the initial one and the
    /// result holds exactly the subscribed handles reachable from some
    /// written triple; which writes occur is the glue layer's business,
    /// since `T::from_tuple_data` decides each row. A round without row
    /// messages succeeds with an empty result and an untouched store, and
    /// ill-bracketed row-free input answers with the library's own
    /// replication error.
    pub fn sync_changes<T: TableFromTupleData + TableValues<V>>(
        &mut self,
        changes: &Vec<LogicalReplicationMessage>,
    ) -> (r: Result<Vec<usize>, Error>)
        requires
            old(self).wf(),
        ensures
            final(self).wf(),
            final(self).spec_graph() == old(self).spec_graph(),
            final(self).spec_stack() == old(self).spec_stack(),
            final(self).spec_subs() == old(self).spec_subs(),
            final(self).spec_replication_enabled() == old(self).spec_replication_enabled(),
            !old(self).spec_replication_enabled() ==> {
                &&& r matches Err(e) && e@ == ErrorV::ReplicationNotEnabled
                &&& final(self).spec_store() == old(self).spec_store()
            },
            r matches Ok(v) ==> {
                &&& forall|x: usize|
                    #[trigger] v@.contains(x) ==> old(self).spec_subs().contains(x)
                &&& forall|i1: int, i2: int|
                    #![trigger v@[i1], v@[i2]]
                    0 <= i1 < i2 < v@.len() ==> v@[i1] != v@[i2]
            },
            (forall|j: int| 0 <= j < changes@.len() ==> !(changes@[j] is Commit)) ==> {
                &&& final(self).spec_store() == old(self).spec_store()
                &&& (r matches Ok(v) ==> v@.len() == 0)
            },
            r matches Ok(_) ==> sweep_accepts(changes@, 0, false, false),
            old(self).spec_replication_enabled() && sweep_accepts(changes@, 0, false, false)
                && row_free(changes@) ==> {
                &&& r matches Ok(v) && v@.len() == 0
                &&& final(self).spec_store() == old(self).spec_store()
            },
            old(self).spec_replication_enabled() && row_free(changes@) && !sweep_accepts(
                changes@,
                0,
                false,
                false,
            ) ==> (r matches Err(e) && e@ matches ErrorV::ReplicationError(_)),
            r matches Ok(v) ==> exists|writes: Seq<RowWrite<V>>, mids: Seq<ValueStore<V>>|
                {
                    &&& #[trigger] writes_chain(
                        old(self).spec_store(),
                        final(self).spec_store(),
                        writes,
                        mids,
                    )
                    &&& forall|x: usize|
                        #![trigger v@.contains(x)]
                        v@.contains(x) <==> exists|k: int|
                            0 <= k < writes.len() && write_invalidates(
                                old(self).spec_graph(),
                                old(self).spec_subs(),
                                #[trigger] writes[k],
                                x,
                            )
                },
    {
        if !self.replication_enabled {
            return Err(Error::ReplicationNotEnabled);
        }
        let mut is_in_transaction = false;
        let mut pending: Vec<usize> = Vec::new();
        let mut updated: Vec<usize> = Vec::new();
        let ghost mut writes_log: Seq<RowWrite<V>> = Seq::empty();
        let ghost mut mids_log: Seq<ValueStore<V>> = seq![self.spec_store()];
        let n = changes.len();
        let mut i: usize = 0;
        while i < n
            invariant
                self.wf(),
                n == changes@.len(),
                0 <= i <= n,
                self.spec_graph() == old(self).spec_graph(),
                self.spec_stack() == old(self).spec_stack(),
                self.spec_subs() == old(self).spec_subs(),
                self.spec_replication_enabled() == old(self).spec_replication_enabled(),
                old(self).spec_replication_enabled(),
                forall|k: int| 0 <= k < pending@.len() ==> (#[trigger] pending@[k]) < n,
                forall|x: usize|
                    #[trigger] updated@.contains(x) ==> old(self).spec_subs().contains(x),
                forall|i1: int, i2: int|
                    #![trigger updated@[i1], updated@[i2]]
                    0 <= i1 < i2 < updated@.len() ==> updated@[i1] != updated@[i2],
                (forall|j: int| 0 <= j < i ==> !(changes@[j] is Commit)) ==> {
                    &&& self.spec_store() == old(self).spec_store()
                    &&& updated@.len() == 0
                },
                sweep_accepts(changes@, 0, false, false) <==> sweep_accepts(
                    changes@,
                    i as int,
                    is_in_transaction,
                    pending@.len() > 0,
                ),
                writes_chain(old(self).spec_store(), self.spec_store(), writes_log, mids_log),
                forall|x: usize|
                    #![trigger updated@.contains(x)]
                    updated@.contains(x) <==> exists|k: int|
                        0 <= k < writes_log.len() && write_invalidates(
                            old(self).spec_graph(),
                            old(self).spec_subs(),
                            #[trigger] writes_log[k],
                            x,
                        ),
                row_free(changes@) ==> forall|k: int|
                    0 <= k < pending@.len() ==> (changes@[(#[trigger] pending@[k]) as int]
                        is Relation),
                sweep_accepts(changes@, 0, false, false) && row_free(changes@) ==> {
                    &&& updated@.len() == 0
                    &&& self.spec_store() == old(self).spec_store()
                },
            decreases n - i,
        {
            match &changes[i] {
                LogicalReplicationMessage::Begin(_) => {
                    if pending.len() > 0 {
                        return Err(
                            Error::ReplicationError {
                                detail: "transaction opened in the middle of another".to_owned(),
                            },
                        );
                    }
                    is_in_transaction = true;
                },
                LogicalReplicationMessage::Commit(_) => {
                    if !is_in_transaction {
                        return Err(
                            Error::ReplicationError {
                                detail: "transaction closed while none was open".to_owned(),
                            },
                        );
                    }
                    is_in_transaction = false;
                    let ghost updated_before = updated@;
                    let ghost store_before_apply = self.spec_store();
                    let ghost writes_before = writes_log;
                    let ghost mids_before = mids_log;
                    let ids = match self.apply_transaction::<T>(changes, &pending) {
                        Ok(v) => v,
                        Err(e) => {
                            proof {
                                assert(!row_free(changes@));
                            }
                            return Err(e);
                        },
                    };
                    Self::merge_handles(&mut updated, &ids);
                    proof {
                        let (w2, m2): (Seq<RowWrite<V>>, Seq<ValueStore<V>>) = choose|
                            w2: Seq<RowWrite<V>>,
                            m2: Seq<ValueStore<V>>,
                        |
                            {
                                &&& #[trigger] writes_chain(
                                    store_before_apply,
                                    self.spec_store(),
                                    w2,
                                    m2,
                                )
                                &&& forall|x: usize|
                                    #![trigger ids@.contains(x)]
                                    ids@.contains(x) <==> exists|k: int|
                                        0 <= k < w2.len() && write_invalidates(
                                            old(self).spec_graph(),
                                            old(self).spec_subs(),
                                            #[trigger] w2[k],
                                            x,
                                        )
                            };
                        writes_log = writes_before + w2;
                        mids_log = mids_before + m2.drop_first();
                        assert(mids_before[mids_before.len() - 1] == m2[0]);
                        assert(mids_log.len() == writes_log.len() + 1);
                        assert(mids_log[0] == mids_before[0]);
                        assert(mids_log[mids_log.len() - 1] == m2[m2.len() - 1]);
                        assert forall|k: int|
                            0 <= k < writes_log.len() implies write_applied(
                            mids_log[k],
                            mids_log[k + 1],
                            #[trigger] writes_log[k],
                        ) by {
                            if k < writes_before.len() {
                                assert(writes_log[k] == writes_before[k]);
                                assert(mids_log[k] == mids_before[k]);
                                assert(mids_log[k + 1] == mids_before[k + 1]);
                            } else {
                                let k2 = k - writes_before.len();
                                assert(writes_log[k] == w2[k2]);
                                if k == writes_before.len() {
                                    assert(mids_log[k] == mids_before[k]);
                                    assert(mids_log[k] == m2[0]);
                                } else {
                                    assert(mids_log[k] == m2.drop_first()[k - mids_before.len()]);
                                    assert(mids_log[k] == m2[k2]);
                                }
                                assert(mids_log[k + 1] == m2.drop_first()[k + 1
                                    - mids_before.len()]);
                                assert(mids_log[k + 1] == m2[k2 + 1]);
                                assert(write_applied(m2[k2], m2[k2 + 1], w2[k2]));
                            }
                        }
                        assert(writes_chain(
                            old(self).spec_store(),
                            self.spec_store(),
                            writes_log,
                            mids_log,
                        ));
                        assert forall|x: usize|
                            #![trigger updated@.contains(x)]
                            updated@.contains(x) <==> (exists|k: int|
                                0 <= k < writes_log.len() && write_invalidates(
                                    old(self).spec_graph(),
                                    old(self).spec_subs(),
                                    #[trigger] writes_log[k],
                                    x,
                                )) by {
                            if updated@.contains(x) {
                                if updated_before.contains(x) {
                                    let k = choose|k: int|
                                        0 <= k < writes_before.len() && write_invalidates(
                                            old(self).spec_graph(),
                                            old(self).spec_subs(),
                                            #[trigger] writes_before[k],
                                            x,
                                        );
                                    assert(writes_log[k] == writes_before[k]);
                                } else {
                                    assert(ids@.contains(x));
                                    let k3 = choose|k3: int|
                                        0 <= k3 < w2.len() && write_invalidates(
                                            old(self).spec_graph(),
                                            old(self).spec_subs(),
                                            #[trigger] w2[k3],
                                            x,
                                        );
                                    assert(writes_log[writes_before.len() + k3] == w2[k3]);
                                }
                            }
                            if exists|k: int|
                                0 <= k < writes_log.len() && write_invalidates(
                                    old(self).spec_graph(),
                                    old(self).spec_subs(),
                                    #[trigger] writes_log[k],
                                    x,
                                ) {
                                let k = choose|k: int|
                                    0 <= k < writes_log.len() && write_invalidates(
                                        old(self).spec_graph(),
                                        old(self).spec_subs(),
                                        #[trigger] writes_log[k],
                                        x,
                                    );
                                if k < writes_before.len() {
                                    assert(writes_before[k] == writes_log[k]);
                                    assert(updated_before.contains(x));
                                } else {
                                    let k2 = k - writes_before.len();
                                    assert(w2[k2] == writes_log[k]);
                                    assert(exists|k4: int|
                                        0 <= k4 < w2.len() && write_invalidates(
                                            old(self).spec_graph(),
                                            old(self).spec_subs(),
                                            #[trigger] w2[k4],
                                            x,
                                        ));
                                    assert(ids@.contains(x));
                                }
                            }
                        }
                        if sweep_accepts(changes@, 0, false, false) && row_free(changes@) {
                            assert(ids@.len() == 0);
                            assert(updated_before.len() == 0);
                            if updated@.len() > 0 {
                                assert(updated@.contains(updated@[0]));
                                assert(false);
                            }
                        }
                    }
                    pending.clear();
                },
                _ => {
                    if !is_in_transaction {
                        return Err(
                            Error::ReplicationError {
                                detail: "row change outside of a transaction".to_owned(),
                            },
                        );
                    }
                    pending.push(i);
                },
            }
            i = i + 1;
        }
        Ok(updated)
    }

    /// Removes `handle` from the subscription set; the node itself stays in
    /// the graph.
    pub fn unsubscribe(&mut self, handle: usize)
        requires
            old(self).wf(),
        ensures
            final(self).wf(),
            forall|x: usize|
                #![trigger final(self).spec_subs().contains(x)]
                final(self).spec_subs().contains(x) <==> (old(self).spec_subs().contains(x) && x
                    != handle),
            final(self).spec_store() == old(self).spec_store(),
            final(self).spec_graph() == old(self).spec_graph(),
            final(self).spec_stack() == old(self).spec_stack(),
            final(self).spec_replication_enabled() == old(self).spec_replication_enabled(),
    {
        let n = self.subs.len();
        let mut k: usize = 0;
        while k < n
            invariant
                self == old(self),
                self.wf(),
                n == self.subs@.len(),
                0 <= k <= n,
                forall|j: int| 0 <= j < k ==> self.subs@[j] != handle,
            decreases n - k,
        {
            if self.subs[k] == handle {
                self.subs.remove(k);
                proof {
                    assert(final(self).spec_stack() == old(self).spec_stack());
                    assert(final(self).spec_graph() == old(self).spec_graph());
                    assert(final(self).spec_store() == old(self).spec_store());
                    let before = old(self).spec_subs();
                    let after = final(self).spec_subs();
                    before.remove_ensures(k as int);
                    assert(after =~= before.remove(k as int));
                    assert(before[k as int] == handle);
                    assert forall|j: int|
                        0 <= j < after.len() implies (exists|j2: int|
                            0 <= j2 < before.len() && before[j2] == (#[trigger] after[j])
                                && (j < k ==> j2 == j) && (j >= k ==> j2 == j + 1)) by {
                        if j < k {
                            assert(before[j] == after[j]);
                        } else {
                            assert(before[j + 1] == after[j]);
                        }
                    }
                    assert forall|x: usize|
                        #![trigger after.contains(x)]
                        after.contains(x) <==> (before.contains(x) && x != handle) by {
                        if after.contains(x) {
                            let j = choose|j: int|
                                0 <= j < after.len() && (#[trigger] after[j]) == x;
                            if j < k {
                                assert(before[j] == x);
                                assert(before.contains(x));
                            } else {
                                assert(before[j + 1] == x);
                                assert(before.contains(x));
                            }
                            if x == handle {
                                if j < k {
                                    assert(before[j] == handle && before[k as int] == handle);
                                    assert(false);
                                } else {
                                    assert(before[j + 1] == handle && before[k as int]
                                        == handle);
                                    assert(false);
                                }
                            }
                        }
                        if before.contains(x) && x != handle {
                            let j = choose|j: int|
                                0 <= j < before.len() && (#[trigger] before[j]) == x;
                            if j < k {
                                assert(after[j] == x);
                            } else {
                                assert(j != k);
                                assert(after[j - 1] == x);
                            }
                        }
                    }
                }
                return ;
            }
            k = k + 1;
        }
        proof {
            assert forall|x: usize|
                #![trigger final(self).spec_subs().contains(x)]
                final(self).spec_subs().contains(x) <==> (old(self).spec_subs().contains(x) && x
                    != handle) by {
                if old(self).spec_subs().contains(x) && x == handle {
                    let j = choose|j: int|
                        0 <= j < old(self).spec_subs().len() && (#[trigger] old(self).spec_subs()[j]) == x;
                    assert(false);
                }
            }
        }
    }
}

/// A derived computation, registered under a quantity triple.
///
/// An implementation stands for the body of a user-declared derived
/// function: it may read leaves, call other derived computations, and
/// update values through the engine it is handed. The contract states the
/// discipline every composition of this engine's public operations keeps:
/// well-formedness is preserved, frames other than the innermost are
/// untouched, the innermost frame only accumulates, and the graph only
/// grows. An implementation outside this crate is trusted to keep it, as
/// it would be were it handed the engine's internals.
pub trait ValueFn<V: Copy> {
    /// Computes the derived value, reading its inputs through `db`.
    fn eval(&self, db: &mut Db<V>) -> (r: V)
        requires
            old(db).wf(),
        ensures
            final(db).wf(),
            final(db).spec_stack().len() == old(db).spec_stack().len(),
            forall|i: int|
                0 <= i < old(db).spec_stack().len() - 1 ==> final(db).spec_stack()[i] == old(db).spec_stack()[i],
            old(db).spec_stack().len() > 0 ==> forall|x: usize|
                old(db).spec_stack().last().contains(x) ==> final(db).spec_stack().last().contains(x),
            extends(old(db).spec_graph().node_keys(), final(db).spec_graph().node_keys()),
            forall|a: int, b: int|
                old(db).spec_graph().has_edge(a, b) ==> final(db).spec_graph().has_edge(a, b),
    ;
}

/// Inserting and then re-inserting the same `(name, selector, t, value)`
/// leaves the value store unchanged and produces the same invalidation
/// set. The hypotheses are exactly what `update`'s contract gives for the
/// two consecutive calls.
pub proof fn lemma_update_idempotent<V: Copy>(
    db0: Db<V>,
    db1: Db<V>,
    db2: Db<V>,
    r1: Seq<usize>,
    r2: Seq<usize>,
    name: Seq<char>,
    selector: Selector,
    t: Time,
    value: V,
)
    requires
        db1.spec_graph() == db0.spec_graph(),
        db1.spec_subs() == db0.spec_subs(),
        db1.spec_store().spec_at(name, selector, t) == Some(value),
        ({
            let hidx = index_of_first(db0.spec_graph().node_keys(), (name, selector, t));
            if hidx >= 0 {
                forall|x: usize|
                    #![trigger r1.contains(x)]
                    r1.contains(x) <==> (db0.spec_subs().contains(x)
                        && db0.spec_graph().reaches(hidx, x as int))
            } else {
                r1 == Seq::<usize>::empty()
            }
        }),
        db2.spec_graph() == db1.spec_graph(),
        db1.spec_store().spec_at(name, selector, t) == Some(value) ==> db2.spec_store().model()
            == db1.spec_store().model(),
        ({
            let hidx = index_of_first(db1.spec_graph().node_keys(), (name, selector, t));
            if hidx >= 0 {
                forall|x: usize|
                    #![trigger r2.contains(x)]
                    r2.contains(x) <==> (db1.spec_subs().contains(x)
                        && db1.spec_graph().reaches(hidx, x as int))
            } else {
                r2 == Seq::<usize>::empty()
            }
        }),
    ensures
        db2.spec_store().model() == db1.spec_store().model(),
        forall|x: usize| #![trigger r2.contains(x)] r2.contains(x) == r1.contains(x),
{
    let hidx = index_of_first(db0.spec_graph().node_keys(), (name, selector, t));
    if hidx >= 0 {
        assert forall|x: usize| #![trigger r2.contains(x)] r2.contains(x)
            == r1.contains(x) by {
            assert(r1.contains(x) <==> (db0.spec_subs().contains(x)
                && db0.spec_graph().reaches(hidx, x as int)));
        }
    } else {
        assert forall|x: usize| #![trigger r2.contains(x)] r2.contains(x)
            == r1.contains(x) by {
            if r1.contains(x) {
                let j = choose|j: int| 0 <= j < r1.len() && (#[trigger] r1[j]) == x;
                assert(false);
            }
            if r2.contains(x) {
                let j = choose|j: int| 0 <= j < r2.len() && (#[trigger] r2[j]) == x;
                assert(false);
            }
        }
    }
}

} // verus!
