//! The dependency graph: insertion-ordered nodes identified by
//! `(name, selector, time)` triples, stable integer handles, and directed
//! `leaf -> derived` edges with idempotent insertion.

use vstd::prelude::*;
use crate::defs::{NodeKey, Selector};
use crate::time::Time;

verus! {

/// The mathematical shape of a node key.
pub type KeyView = (Seq<char>, Selector, Time);

/// The position of the first key equal to `k`, or `-1` if none is.
pub open spec fn index_of_first(keys: Seq<KeyView>, k: KeyView) -> int
    decreases keys.len(),
{
    if keys.len() == 0 {
        -1
    } else if keys[0] == k {
        0
    } else {
        let r = index_of_first(keys.drop_first(), k);
        if r == -1 {
            -1
        } else {
            r + 1
        }
    }
}

/// `index_of_first` names the first position holding `k`, or `-1` where no
/// position holds it.
pub proof fn lemma_index_of_first(keys: Seq<KeyView>, k: KeyView)
    ensures
        -1 <= index_of_first(keys, k) < keys.len(),
        index_of_first(keys, k) == -1 ==> forall|j: int| 0 <= j < keys.len() ==> keys[j] != k,
        index_of_first(keys, k) >= 0 ==> {
            &&& index_of_first(keys, k) < keys.len()
            &&& keys[index_of_first(keys, k)] == k
            &&& forall|j: int| 0 <= j < index_of_first(keys, k) ==> keys[j] != k
        },
    decreases keys.len(),
{
    if keys.len() > 0 && keys[0] != k {
        lemma_index_of_first(keys.drop_first(), k);
        let r = index_of_first(keys.drop_first(), k);
        if r == -1 {
            assert forall|j: int| 0 <= j < keys.len() implies keys[j] != k by {
                if j > 0 {
                    assert(keys.drop_first()[j - 1] == keys[j]);
                    assert(keys.drop_first()[j - 1] != k);
                }
            }
        } else {
            assert(keys.drop_first()[r] == keys[r + 1]);
            assert forall|j: int| 0 <= j < r + 1 implies keys[j] != k by {
                if j > 0 {
                    assert(keys.drop_first()[j - 1] == keys[j]);
                    assert(keys.drop_first()[j - 1] != k);
                }
            }
        }
    }
}

/// A directed graph over quantity triples with stable integer handles.
///
/// Handles are indices into the insertion-ordered node list; nodes are
/// never removed, so a handle stays valid for the graph's lifetime.
pub struct DepGraph {
    nodes: Vec<NodeKey>,
    targets: Vec<Vec<usize>>,
}

impl DepGraph {
    /// The views of the interned keys, in insertion order.
    pub closed spec fn node_keys(&self) -> Seq<KeyView> {
        self.nodes@.map_values(|key: NodeKey| key@)
    }

    /// How many nodes have been interned.
    pub open spec fn node_count_spec(&self) -> int {
        self.node_keys().len() as int
    }

    /// Whether a directed edge from `a` to `b` is present.
    pub closed spec fn has_edge(&self, a: int, b: int) -> bool {
        &&& 0 <= a < self.nodes@.len()
        &&& 0 <= b < self.nodes@.len()
        &&& exists|k: int|
            0 <= k < self.targets@[a]@.len() && (#[trigger] self.targets@[a]@[k]) as int == b
    }

    /// Handles in the adjacency lists are in range, each list holds no
    /// duplicates, the two arrays are parallel, and interned keys are
    /// pairwise distinct.
    pub closed spec fn wf(&self) -> bool {
        &&& self.targets@.len() == self.nodes@.len()
        &&& forall|a: int, k: int|
            0 <= a < self.targets@.len() && 0 <= k < self.targets@[a]@.len()
                ==> (#[trigger] self.targets@[a]@[k]) < self.nodes@.len()
        &&& forall|a: int, k1: int, k2: int|
            #![trigger self.targets@[a]@[k1], self.targets@[a]@[k2]]
            0 <= a < self.targets@.len() && 0 <= k1 < k2 < self.targets@[a]@.len()
                ==> self.targets@[a]@[k1] != self.targets@[a]@[k2]
        &&& forall|i: int, j: int|
            #![trigger self.node_keys()[i], self.node_keys()[j]]
            0 <= i < j < self.node_keys().len() ==> self.node_keys()[i]
                != self.node_keys()[j]
    }

    /// A path is a non-empty handle sequence that starts at `a`, ends at
    /// `b`, and follows an edge at every step.
    pub open spec fn is_path(&self, p: Seq<int>, a: int, b: int) -> bool {
        &&& p.len() >= 1
        &&& p[0] == a
        &&& p[p.len() - 1] == b
        &&& forall|i: int| 0 <= i < p.len() - 1 ==> self.has_edge(p[i], #[trigger] p[i + 1])
    }

    /// Whether `b` can be reached from `a` by following edges forward
    /// (every handle reaches itself).
    pub open spec fn reaches(&self, a: int, b: int) -> bool {
        exists|p: Seq<int>| self.is_path(p, a, b)
    }

    /// An empty graph.
    pub fn new() -> (r: Self)
        ensures
            r.wf(),
            r.node_keys() == Seq::<KeyView>::empty(),
            forall|a: int, b: int| !r.has_edge(a, b),
    {
        let r = DepGraph { nodes: Vec::new(), targets: Vec::new() };
        proof {
            assert(r.nodes@.map_values(|key: NodeKey| key@) =~= Seq::<KeyView>::empty());
        }
        r
    }

    /// How many nodes have been interned.
    pub fn node_count(&self) -> (r: usize)
        ensures
            r == self.node_count_spec(),
    {
        self.nodes.len()
    }

    /// The handle of `key`, interning it first if it was never mentioned:
    /// equal triples always yield the same handle, distinct triples
    /// distinct handles, and earlier handles never move.
    pub fn intern(&mut self, key: &NodeKey) -> (h: usize)
        requires
            old(self).wf(),
        ensures
            final(self).wf(),
            h < final(self).node_count_spec(),
            final(self).node_keys()[h as int] == key@,
            forall|a: int, b: int| final(self).has_edge(a, b) == old(self).has_edge(a, b),
            ({
                let i = index_of_first(old(self).node_keys(), key@);
                if i >= 0 {
                    &&& h as int == i
                    &&& final(self).node_keys() == old(self).node_keys()
                } else {
                    &&& h as int == old(self).node_count_spec()
                    &&& final(self).node_keys() == old(self).node_keys().push(key@)
                }
            }),
    {
        proof {
            lemma_index_of_first(old(self).node_keys(), key@);
        }
        let n = self.nodes.len();
        let mut j: usize = 0;
        while j < n
            invariant
                self == old(self),
                self.wf(),
                n == self.nodes@.len(),
                0 <= j <= n,
                forall|j2: int| 0 <= j2 < j ==> self.node_keys()[j2] != key@,
            decreases n - j,
        {
            if self.nodes[j].same(key) {
                proof {
                    let i = index_of_first(self.node_keys(), key@);
                    lemma_index_of_first(self.node_keys(), key@);
                    assert(self.node_keys()[j as int] == key@);
                    assert(i == j as int);
                }
                return j;
            }
            j = j + 1;
        }
        proof {
            let i = index_of_first(self.node_keys(), key@);
            lemma_index_of_first(self.node_keys(), key@);
            assert(i == -1);
        }
        self.nodes.push(key.dup());
        self.targets.push(Vec::new());
        proof {
            assert(self.node_keys() =~= old(self).node_keys().push(key@));
            assert forall|a: int, b: int|
                self.has_edge(a, b) == old(self).has_edge(a, b) by {
                if 0 <= a < old(self).nodes@.len() {
                    assert(self.targets@[a] == old(self).targets@[a]);
                }
                if a == old(self).nodes@.len() {
                    assert(self.targets@[a]@.len() == 0);
                }
            }
        }
        n
    }

    /// Adds the directed edge `from -> to`; adding an edge that is already
    /// present changes nothing.
    pub fn update_edge(&mut self, from: usize, to: usize)
        requires
            old(self).wf(),
            from < old(self).node_count_spec(),
            to < old(self).node_count_spec(),
        ensures
            final(self).wf(),
            final(self).node_keys() == old(self).node_keys(),
            forall|a: int, b: int|
                final(self).has_edge(a, b) == (old(self).has_edge(a, b) || (a == from && b
                    == to)),
    {
        let list = &self.targets[from];
        let mut k: usize = 0;
        let n = list.len();
        let mut present = false;
        while k < n
            invariant
                self == old(self),
                self.wf(),
                n == self.targets@[from as int]@.len(),
                from < self.targets@.len(),
                to < self.nodes@.len(),
                0 <= k <= n,
                present == exists|k2: int|
                    0 <= k2 < k && self.targets@[from as int]@[k2] == to,
            decreases n - k,
        {
            if self.targets[from][k] == to {
                present = true;
                proof {
                    assert(self.targets@[from as int]@[k as int] == to);
                }
            }
            k = k + 1;
        }
        if !present {
            let list_mut = &mut self.targets[from];
            list_mut.push(to);
            proof {
                assert(self.targets@[from as int]@ == old(self).targets@[from as int]@.push(
                    to,
                ));
                assert(self.node_keys() =~= old(self).node_keys());
                assert forall|a: int, b: int|
                    self.has_edge(a, b) == (old(self).has_edge(a, b) || (a == from
                        && b == to)) by {
                    if a != from as int {
                        if 0 <= a < old(self).targets@.len() {
                            assert(self.targets@[a] == old(self).targets@[a]);
                        }
                    } else {
                        assert(self.targets@[a]@ == old(self).targets@[a]@.push(to));
                        if old(self).has_edge(a, b) {
                            let k2 = choose|k2: int|
                                0 <= k2 < old(self).targets@[a]@.len() && (old(self).targets@[a]@[k2]) as int == b;
                            assert((self.targets@[a]@[k2]) as int == b);
                        }
                        if b == to as int {
                            assert((self.targets@[a]@[old(self).targets@[a]@.len() as int]) as int
                                == b);
                        }
                        if self.has_edge(a, b) && b != to as int {
                            let k2 = choose|k2: int|
                                0 <= k2 < self.targets@[a]@.len() && (self.targets@[a]@[k2]) as int == b;
                            assert(self.targets@[a]@[k2] == to ==> b == to as int);
                            assert(k2 < old(self).targets@[a]@.len());
                            assert((old(self).targets@[a]@[k2]) as int == b);
                        }
                    }
                }
            }
        } else {
            proof {
                let k2 = choose|k2: int|
                    0 <= k2 < self.targets@[from as int]@.len() && self.targets@[from as int]@[k2]
                        == to;
                assert((self.targets@[from as int]@[k2]) as int == to as int);
                assert(self.has_edge(from as int, to as int));
            }
        }
    }

    /// The handles the given handle has edges to.
    pub fn edges_out(&self, h: usize) -> (r: Vec<usize>)
        requires
            self.wf(),
            h < self.node_count_spec(),
        ensures
            r@.len() == self.targets_of(h as int).len(),
            forall|k: int| 0 <= k < r@.len() ==> r@[k] == self.targets_of(h as int)[k],
            forall|k: int|
                0 <= k < r@.len() ==> self.has_edge(h as int, #[trigger] r@[k] as int),
    {
        let r = self.targets[h].clone();
        proof {
            assert(r@ =~= self.targets@[h as int]@);
            assert forall|k: int|
                0 <= k < r@.len() implies self.has_edge(h as int, r@[k] as int) by {
                assert((self.targets@[h as int]@[k]) as int == r@[k] as int);
            }
        }
        r
    }

    /// The adjacency list of a handle.
    pub closed spec fn targets_of(&self, a: int) -> Seq<usize> {
        self.targets@[a]@
    }

    /// The handle of `key` if it was interned, without interning it.
    pub fn find_node(&self, key: &NodeKey) -> (r: Option<usize>)
        requires
            self.wf(),
        ensures
            ({
                let i = index_of_first(self.node_keys(), key@);
                if i >= 0 {
                    r == Some(i as usize)
                } else {
                    r is None
                }
            }),
    {
        proof {
            lemma_index_of_first(self.node_keys(), key@);
        }
        let n = self.nodes.len();
        let mut j: usize = 0;
        while j < n
            invariant
                self.wf(),
                n == self.nodes@.len(),
                0 <= j <= n,
                forall|j2: int| 0 <= j2 < j ==> self.node_keys()[j2] != key@,
            decreases n - j,
        {
            if self.nodes[j].same(key) {
                proof {
                    let i = index_of_first(self.node_keys(), key@);
                    lemma_index_of_first(self.node_keys(), key@);
                    assert(self.node_keys()[j as int] == key@);
                    assert(i == j as int);
                }
                return Some(j);
            }
            j = j + 1;
        }
        proof {
            let i = index_of_first(self.node_keys(), key@);
            lemma_index_of_first(self.node_keys(), key@);
            assert(i == -1);
        }
        None
    }

    /// Marks, for every handle, whether it can be reached from `start` by
    /// following edges forward. Each handle is visited at most once.
    pub fn reachable_from(&self, start: usize) -> (r: Vec<bool>)
        requires
            self.wf(),
            start < self.node_count_spec(),
        ensures
            r@.len() == self.node_count_spec(),
            forall|h: int| 0 <= h < r@.len() ==> (r@[h] <==> self.reaches(start as int, h)),
    {
        let n = self.nodes.len();
        let mut visited: Vec<bool> = Vec::new();
        let mut k: usize = 0;
        while k < n
            invariant
                visited@.len() == k,
                0 <= k <= n,
                forall|h: int| 0 <= h < k ==> !visited@[h],
            decreases n - k,
        {
            visited.push(false);
            k = k + 1;
        }
        let mut stack: Vec<usize> = Vec::new();
        stack.push(start);
        proof {
            lemma_reaches_self(*self, start as int);
            assert(stack@[0] == start);
            assert(stack@.contains(start));
            lemma_count_true_le(visited@);
        }
        while stack.len() > 0
            invariant
                self.wf(),
                start < self.node_count_spec(),
                visited@.len() == n,
                n == self.node_count_spec(),
                forall|k2: int| 0 <= k2 < stack@.len() ==> (#[trigger] stack@[k2]) < n,
                forall|h: int|
                    0 <= h < n && visited@[h] ==> self.reaches(start as int, h),
                forall|k2: int|
                    0 <= k2 < stack@.len() ==> self.reaches(
                        start as int,
                        (#[trigger] stack@[k2]) as int,
                    ),
                forall|u: int, w: usize|
                    0 <= u < n && visited@[u] && self.has_edge(u, w as int) ==> visited@[w
                        as int] || stack@.contains(w),
                visited@[start as int] || stack@.contains(start),
            decreases n - count_true(visited@), stack@.len(),
        {
            proof {
                lemma_count_true_le(visited@);
            }
            let ghost stack_before = stack@;
            let ghost visited_before = visited@;
            let h = stack.pop().unwrap();
            proof {
                assert(stack@ =~= stack_before.drop_last());
                assert(stack_before[stack_before.len() - 1] == h);
                assert(h < n);
            }
            if !visited[h] {
                proof {
                    lemma_count_true_update(visited@, h as int);
                }
                visited[h] = true;
                let mut neighbors = self.edges_out(h);
                let ghost nbrs = neighbors@;
                proof {
                    assert(visited@ == visited_before.update(h as int, true));
                    assert(count_true(visited@) == count_true(visited_before) + 1);
                    lemma_count_true_le(visited@);
                    assert forall|k2: int|
                        0 <= k2 < nbrs.len() implies self.reaches(
                        start as int,
                        (#[trigger] nbrs[k2]) as int,
                    ) by {
                        assert(self.has_edge(h as int, nbrs[k2] as int));
                        lemma_reaches_step(*self, start as int, h as int, nbrs[k2] as int);
                    }
                }
                stack.append(&mut neighbors);
                proof {
                    assert(stack@ =~= stack_before.drop_last() + nbrs);
                    assert forall|k2: int|
                        0 <= k2 < stack@.len() implies (#[trigger] stack@[k2]) < n
                            && self.reaches(start as int, stack@[k2] as int) by {
                        if k2 < stack_before.len() - 1 {
                            assert(stack@[k2] == stack_before[k2]);
                        } else {
                            assert(stack@[k2] == nbrs[k2 - (stack_before.len() - 1)]);
                            assert(self.has_edge(
                                h as int,
                                nbrs[k2 - (stack_before.len() - 1)] as int,
                            ));
                        }
                    }
                    assert forall|u: int, w: usize|
                        0 <= u < n && visited@[u] && self.has_edge(u, w as int)
                            implies visited@[w as int] || stack@.contains(w) by {
                        if u == h as int {
                            let k = choose|k: int|
                                0 <= k < self.targets@[u]@.len() && (
                                #[trigger] self.targets@[u]@[k]) as int == w as int;
                            assert(self.targets_of(u)[k] == w);
                            assert(nbrs[k] == w);
                            assert(stack@[stack_before.len() - 1 + k] == w);
                            assert(stack@.contains(w));
                        } else {
                            assert(visited_before[u]);
                            if !visited_before[w as int] && w as int != h as int {
                                assert(stack_before.contains(w));
                                let k = choose|k: int|
                                    0 <= k < stack_before.len() && stack_before[k] == w;
                                if k < stack_before.len() - 1 {
                                    assert(stack@[k] == w);
                                    assert(stack@.contains(w));
                                } else {
                                    assert(w == h);
                                    assert(false);
                                }
                            }
                        }
                    }
                    if !visited@[start as int] {
                        assert(!visited_before[start as int]);
                        assert(start as int != h as int);
                        assert(stack_before.contains(start));
                        let k = choose|k: int|
                            0 <= k < stack_before.len() && stack_before[k] == start;
                        if k < stack_before.len() - 1 {
                            assert(stack@[k] == start);
                            assert(stack@.contains(start));
                        } else {
                            assert(start == h);
                            assert(false);
                        }
                    }
                }
            } else {
                proof {
                    assert forall|u: int, w: usize|
                        0 <= u < n && visited@[u] && self.has_edge(u, w as int)
                            implies visited@[w as int] || stack@.contains(w) by {
                        if !visited@[w as int] {
                            assert(stack_before.contains(w));
                            let k = choose|k: int|
                                0 <= k < stack_before.len() && stack_before[k] == w;
                            if k < stack_before.len() - 1 {
                                assert(stack@[k] == w);
                                assert(stack@.contains(w));
                            } else {
                                assert(w == h);
                                assert(visited@[h as int]);
                                assert(false);
                            }
                        }
                    }
                    if !visited@[start as int] {
                        assert(stack_before.contains(start));
                        let k = choose|k: int|
                            0 <= k < stack_before.len() && stack_before[k] == start;
                        if k < stack_before.len() - 1 {
                            assert(stack@[k] == start);
                            assert(stack@.contains(start));
                        } else {
                            assert(start == h);
                            assert(false);
                        }
                    }
                }
            }
        }
        proof {
            let marked = Set::new(|x: int| 0 <= x < n && visited@[x]);
            assert forall|h: int| 0 <= h < n && self.reaches(start as int, h) implies visited@[h] by {
                assert(marked.contains(start as int));
                assert forall|u: int, v: int|
                    marked.contains(u) && self.has_edge(u, v) implies marked.contains(v) by {
                    let w: usize = v as usize;
                    assert(0 <= v < n);
                    assert(w as int == v);
                    assert(visited@[w as int] || stack@.contains(w));
                }
                lemma_reach_in_closed_set(*self, marked, start as int, h);
            }
        }
        visited
    }
}

/// How many positions hold `true`.
pub open spec fn count_true(s: Seq<bool>) -> int
    decreases s.len(),
{
    if s.len() == 0 {
        0
    } else {
        count_true(s.drop_last()) + if s[s.len() - 1] {
            1int
        } else {
            0int
        }
    }
}

/// Marking one unmarked position raises the count by one.
pub proof fn lemma_count_true_update(s: Seq<bool>, i: int)
    requires
        0 <= i < s.len(),
        !s[i],
    ensures
        count_true(s.update(i, true)) == count_true(s) + 1,
    decreases s.len(),
{
    if i == s.len() - 1 {
        assert(s.update(i, true).drop_last() =~= s.drop_last());
        assert(s.update(i, true)[s.len() - 1]);
    } else {
        lemma_count_true_update(s.drop_last(), i);
        assert(s.update(i, true).drop_last() =~= s.drop_last().update(i, true));
        assert(s.update(i, true)[s.len() - 1] == s[s.len() - 1]);
    }
}

/// The count of marked positions never exceeds the length.
pub proof fn lemma_count_true_le(s: Seq<bool>)
    ensures
        0 <= count_true(s) <= s.len(),
    decreases s.len(),
{
    if s.len() > 0 {
        lemma_count_true_le(s.drop_last());
    }
}

/// `keys2` carries `keys1` forward unchanged, possibly with new keys
/// appended: how the node list evolves, since nodes are never removed.
pub open spec fn extends(keys1: Seq<KeyView>, keys2: Seq<KeyView>) -> bool {
    &&& keys1.len() <= keys2.len()
    &&& forall|i: int| 0 <= i < keys1.len() ==> (#[trigger] keys2[i]) == keys1[i]
}

/// The handle that interning `k` yields: the existing one where `k` was
/// already interned, the next fresh index otherwise.
pub open spec fn interned_handle(g: DepGraph, k: KeyView) -> int {
    let i = index_of_first(g.node_keys(), k);
    if i >= 0 {
        i
    } else {
        g.node_count_spec()
    }
}

/// How interning `k` transforms a graph: at most the one key is appended,
/// and the edge relation is untouched.
pub open spec fn intern_post(before: DepGraph, after: DepGraph, k: KeyView) -> bool {
    &&& after.node_keys() == if index_of_first(before.node_keys(), k) >= 0 {
        before.node_keys()
    } else {
        before.node_keys().push(k)
    }
    &&& forall|a: int, b: int| after.has_edge(a, b) == before.has_edge(a, b)
}

/// Following one more edge extends a path.
pub proof fn lemma_reaches_step(g: DepGraph, a: int, b: int, c: int)
    requires
        g.reaches(a, b),
        g.has_edge(b, c),
    ensures
        g.reaches(a, c),
{
    let p = choose|p: Seq<int>| g.is_path(p, a, b);
    let q = p.push(c);
    assert forall|i: int| 0 <= i < q.len() - 1 implies g.has_edge(q[i], #[trigger] q[i
        + 1]) by {
        if i < p.len() - 1 {
            assert(q[i] == p[i] && q[i + 1] == p[i + 1]);
        } else {
            assert(q[i] == b && q[i + 1] == c);
        }
    }
    assert(g.is_path(q, a, c));
}

/// Every handle reaches itself.
pub proof fn lemma_reaches_self(g: DepGraph, a: int)
    ensures
        g.reaches(a, a),
{
    let p = seq![a];
    assert(g.is_path(p, a, a));
}

/// A set of handles that contains `a` and is closed under following edges
/// contains everything reachable from `a`.
pub proof fn lemma_reach_in_closed_set(g: DepGraph, s: Set<int>, a: int, b: int)
    requires
        s.contains(a),
        forall|u: int, v: int| s.contains(u) && g.has_edge(u, v) ==> s.contains(v),
        g.reaches(a, b),
    ensures
        s.contains(b),
{
    let p = choose|p: Seq<int>| g.is_path(p, a, b);
    lemma_path_in_closed_set(g, s, p, a, b);
}

proof fn lemma_path_in_closed_set(g: DepGraph, s: Set<int>, p: Seq<int>, a: int, b: int)
    requires
        s.contains(a),
        forall|u: int, v: int| s.contains(u) && g.has_edge(u, v) ==> s.contains(v),
        g.is_path(p, a, b),
    ensures
        s.contains(b),
    decreases p.len(),
{
    if p.len() == 1 {
    } else {
        let q = p.drop_last();
        let i0 = p.len() - 2;
        assert(g.has_edge(p[i0], p[i0 + 1]));
        assert(g.has_edge(p[p.len() - 2], p[p.len() - 1]));
        assert forall|i: int| 0 <= i < q.len() - 1 implies g.has_edge(q[i], #[trigger] q[i
            + 1]) by {
            assert(q[i] == p[i] && q[i + 1] == p[i + 1]);
        }
        assert(g.is_path(q, a, p[p.len() - 2]));
        lemma_path_in_closed_set(g, s, q, a, p[p.len() - 2]);
    }
}

/// Two graphs with the same edge relation agree on reachability.
pub proof fn lemma_reaches_congruence(g1: DepGraph, g2: DepGraph, a: int, b: int)
    requires
        forall|u: int, v: int| g1.has_edge(u, v) == g2.has_edge(u, v),
    ensures
        g1.reaches(a, b) == g2.reaches(a, b),
{
    assert forall|p: Seq<int>, x: int, y: int|
        g1.is_path(p, x, y) == g2.is_path(p, x, y) by {}
    if g1.reaches(a, b) {
        let p = choose|p: Seq<int>| g1.is_path(p, a, b);
        assert(g2.is_path(p, a, b));
    }
    if g2.reaches(a, b) {
        let p = choose|p: Seq<int>| g2.is_path(p, a, b);
        assert(g1.is_path(p, a, b));
    }
}

/// Inserting an edge that is already present leaves the edge relation, and
/// with it reachability, unchanged.
pub proof fn lemma_edge_insert_idempotent(g1: DepGraph, g2: DepGraph, from: int, to: int)
    requires
        g1.has_edge(from, to),
        forall|a: int, b: int|
            g2.has_edge(a, b) == (g1.has_edge(a, b) || (a == from && b == to)),
    ensures
        forall|a: int, b: int| g2.has_edge(a, b) == g1.has_edge(a, b),
        forall|a: int, b: int| g2.reaches(a, b) == g1.reaches(a, b),
{
    assert forall|a: int, b: int| g2.reaches(a, b) == g1.reaches(a, b) by {
        lemma_reaches_congruence(g1, g2, a, b);
    }
}

/// Interning is stable across arbitrary interleavings: once a key is
/// interned, any later state whose node list extends the earlier one gives
/// it the same handle, and two distinct keys never share a handle.
pub proof fn lemma_intern_stable(
    keys1: Seq<KeyView>,
    keys2: Seq<KeyView>,
    k1: KeyView,
    k2: KeyView,
)
    requires
        extends(keys1, keys2),
        index_of_first(keys1, k1) >= 0,
    ensures
        index_of_first(keys2, k1) == index_of_first(keys1, k1),
        index_of_first(keys2, k2) >= 0 && k1 != k2 ==> index_of_first(keys2, k1)
            != index_of_first(keys2, k2),
{
    assert forall|i: int| 0 <= i < keys1.len() implies keys2[i] == keys1[i] by {}
    lemma_handle_stable(keys1, keys2, k1);
    lemma_index_of_first(keys2, k1);
    lemma_index_of_first(keys2, k2);
}

/// Handles never move: when the node list only grows, a key's handle in the
/// grown graph is its old handle.
pub proof fn lemma_handle_stable(keys1: Seq<KeyView>, keys2: Seq<KeyView>, k: KeyView)
    requires
        keys1.len() <= keys2.len(),
        forall|i: int| 0 <= i < keys1.len() ==> keys2[i] == keys1[i],
        index_of_first(keys1, k) >= 0,
    ensures
        index_of_first(keys2, k) == index_of_first(keys1, k),
{
    lemma_index_of_first(keys1, k);
    lemma_index_of_first(keys2, k);
    let i1 = index_of_first(keys1, k);
    assert(keys2[i1] == k);
    let i2 = index_of_first(keys2, k);
    assert(i2 >= 0);
    if i2 < i1 {
        assert(keys2[i2] == k);
        assert(keys1[i2] == k);
        assert(false);
    }
    if i2 > i1 {
        assert(keys2[i1] != k);
        assert(false);
    }
}

} // verus!
