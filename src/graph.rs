use std::collections::{HashMap, HashSet};
use std::hash::Hash;

use vstd::prelude::*;
use vstd::std_specs::hash::obeys_key_model;
use vstd::std_specs::iter::IteratorSpec;

verus! {

/// An edge stored under its source node; it knows the node it points at.
pub trait Edge<I> {
    spec fn spec_next(&self) -> I;

    fn next(&self) -> (r: I)
        ensures
            r == self.spec_next(),
    ;
}

/// A node that carries its own identifier.
pub trait Node<I> {
    spec fn spec_id(&self) -> I;

    fn id(&self) -> (r: I)
        ensures
            r == self.spec_id(),
    ;
}

/// A directed graph keyed by node identifier, with at most one edge from
/// one node to another, and an index of the nodes that point at each node.
#[derive(Debug)]
pub struct Graph<I: Eq + Hash + Copy, N: Node<I>, E: Edge<I>> {
    nodes: HashMap<I, N>,
    edges: HashMap<I, HashMap<I, E>>,
    inverse_edges: HashMap<I, HashSet<I>>,
}

impl<I: Eq + Hash + Copy, N: Node<I>, E: Edge<I>> Graph<I, N, E> {
    /// The nodes, by identifier.
    pub closed spec fn node_map(&self) -> Map<I, N> {
        self.nodes@
    }

    /// The outgoing edges of each node, by source and then target.
    pub closed spec fn edge_map(&self) -> Map<I, Map<I, E>> {
        Map::new(|k: I| self.edges@.contains_key(k), |k: I| self.edges@[k]@)
    }

    /// For each node, the nodes that have an edge to it.
    pub closed spec fn inverse_map(&self) -> Map<I, Set<I>> {
        Map::new(|k: I| self.inverse_edges@.contains_key(k), |k: I| self.inverse_edges@[k]@)
    }

    pub open spec fn has_edge(&self, from: I, to: I) -> bool {
        self.edge_map().contains_key(from) && self.edge_map()[from].contains_key(to)
    }

    pub open spec fn points_at(&self, from: I, to: I) -> bool {
        self.inverse_map().contains_key(to) && self.inverse_map()[to].contains(from)
    }

    /// Every node has an edge table and an inverse entry; each node is
    /// stored under its own identifier; each edge is stored under the
    /// node it points at, which exists; and the inverse index holds
    /// exactly the stored edges.
    pub open spec fn wf(&self) -> bool {
        &&& obeys_key_model::<I>()
        &&& self.edge_map().dom() == self.node_map().dom()
        &&& self.inverse_map().dom() == self.node_map().dom()
        &&& forall|k: I| #[trigger]
            self.node_map().contains_key(k) ==> self.node_map()[k].spec_id() == k
        &&& forall|a: I, b: I| #[trigger]
            self.has_edge(a, b) ==> self.edge_map()[a][b].spec_next() == b
                && self.node_map().contains_key(b)
        &&& forall|a: I, b: I| #[trigger] self.has_edge(a, b) <==> #[trigger] self.points_at(a, b)
    }

    /// An empty graph.
    pub fn new() -> (r: Self)
        requires
            obeys_key_model::<I>(),
        ensures
            r.wf(),
            r.node_map() == Map::<I, N>::empty(),
            r.edge_map() == Map::<I, Map<I, E>>::empty(),
    {
        let r = Graph { nodes: HashMap::new(), edges: HashMap::new(), inverse_edges: HashMap::new() };
        assert(r.edge_map() =~= Map::<I, Map<I, E>>::empty());
        assert(r.inverse_map() =~= Map::<I, Set<I>>::empty());
        r
    }

    pub fn nodes(&self) -> (r: &HashMap<I, N>)
        ensures
            r@ == self.node_map(),
    {
        &self.nodes
    }

    pub fn edges(&self) -> (r: &HashMap<I, HashMap<I, E>>)
        ensures
            r@.dom() == self.edge_map().dom(),
            forall|k: I| #[trigger] r@.contains_key(k) ==> r@[k]@ == self.edge_map()[k],
    {
        &self.edges
    }

    pub fn get_node(&self, index: &I) -> (r: Option<&N>)
        requires
            self.wf(),
        ensures
            match r {
                Some(n) => self.node_map().contains_key(*index) && *n == self.node_map()[*index],
                None => !self.node_map().contains_key(*index),
            },
    {
        self.nodes.get(index)
    }

    /// The outgoing edges of a node, if it exists.
    pub fn get_edges_from(&self, index: &I) -> (r: Option<&HashMap<I, E>>)
        requires
            self.wf(),
        ensures
            match r {
                Some(m) => self.edge_map().contains_key(*index) && m@ == self.edge_map()[*index],
                None => !self.edge_map().contains_key(*index),
            },
    {
        self.edges.get(index)
    }

    pub fn get_edge(&self, from_id: &I, to_id: &I) -> (r: Option<&E>)
        requires
            self.wf(),
        ensures
            match r {
                Some(e) => self.has_edge(*from_id, *to_id) && *e == self.edge_map()[*from_id][*to_id],
                None => !self.has_edge(*from_id, *to_id),
            },
    {
        match self.edges.get(from_id) {
            Some(m) => m.get(to_id),
            None => None,
        }
    }

    /// Adds a node under its identifier, with no edges; refused, with no
    /// change, when the identifier is taken.
    pub fn add_node(&mut self, node: N) -> (r: bool)
        requires
            old(self).wf(),
        ensures
            final(self).wf(),
            r == !old(self).node_map().contains_key(node.spec_id()),
            r ==> final(self).node_map() == old(self).node_map().insert(node.spec_id(), node),
            r ==> final(self).edge_map() == old(self).edge_map().insert(
                node.spec_id(),
                Map::<I, E>::empty(),
            ),
            !r ==> *final(self) == *old(self),
    {
        let node_id = node.id();
        if self.nodes.contains_key(&node_id) {
            return false;
        }
        let ghost g0 = *self;
        self.nodes.insert(node_id, node);
        self.edges.insert(node_id, HashMap::new());
        self.inverse_edges.insert(node_id, HashSet::new());
        proof {
            assert(self.edge_map() =~= g0.edge_map().insert(node_id, Map::<I, E>::empty()));
            assert(self.inverse_map() =~= g0.inverse_map().insert(node_id, Set::<I>::empty()));
            assert forall|a: I, b: I| #[trigger] self.has_edge(a, b) <==> #[trigger] self.points_at(a, b) by {
                if a == node_id || b == node_id {
                    if g0.has_edge(a, b) {
                        assert(g0.node_map().contains_key(b));
                    }
                    if g0.points_at(a, b) {
                        assert(g0.has_edge(a, b));
                    }
                } else {
                    assert(self.has_edge(a, b) == g0.has_edge(a, b));
                    assert(self.points_at(a, b) == g0.points_at(a, b));
                }
            }
            assert forall|a: I, b: I| #[trigger] self.has_edge(a, b) implies self.edge_map()[a][b].spec_next() == b
                && self.node_map().contains_key(b) by {
                if a != node_id {
                    assert(g0.has_edge(a, b));
                }
            }
        }
        true
    }
    /// Puts `node` in place of the node with its identifier, keeping every
    /// edge, and returns the node it replaced; `None`, with no change,
    /// when there is no such node.
    pub fn replace_node(&mut self, node: N) -> (r: Option<N>)
        requires
            old(self).wf(),
        ensures
            final(self).wf(),
            final(self).edge_map() == old(self).edge_map(),
            r matches Some(prev) ==> {
                &&& old(self).node_map().contains_key(node.spec_id())
                &&& prev == old(self).node_map()[node.spec_id()]
                &&& final(self).node_map() == old(self).node_map().insert(node.spec_id(), node)
            },
            r is None ==> !old(self).node_map().contains_key(node.spec_id()) && *final(self) == *old(self),
    {
        let node_id = node.id();
        if !self.nodes.contains_key(&node_id) {
            return None;
        }
        let ghost g0 = *self;
        let prev = self.nodes.insert(node_id, node);
        proof {
            assert(self.node_map().dom() =~= g0.node_map().dom());
            assert forall|a: I, b: I| #[trigger] self.has_edge(a, b) <==> #[trigger] self.points_at(a, b) by {
                assert(g0.has_edge(a, b) <==> g0.points_at(a, b));
            }
            assert forall|a: I, b: I| #[trigger] self.has_edge(a, b) implies self.edge_map()[a][b].spec_next() == b
                && self.node_map().contains_key(b) by {
                assert(g0.has_edge(a, b));
            }
        }
        prev
    }

    /// Stores `edge` from `from_id` to the node it points at, replacing any
    /// edge between the two. Refused, with no change, unless both nodes
    /// exist.
    pub fn add_edge(&mut self, from_id: &I, edge: E) -> (r: bool)
        requires
            old(self).wf(),
        ensures
            final(self).wf(),
            r == (old(self).node_map().contains_key(*from_id) && old(self).node_map().contains_key(
                edge.spec_next(),
            )),
            r ==> final(self).node_map() == old(self).node_map(),
            r ==> final(self).edge_map() == old(self).edge_map().insert(
                *from_id,
                old(self).edge_map()[*from_id].insert(edge.spec_next(), edge),
            ),
            !r ==> *final(self) == *old(self),
    {
        let to_id = edge.next();
        if !self.nodes.contains_key(from_id) || !self.nodes.contains_key(&to_id) {
            return false;
        }
        let ghost g0 = *self;
        let ghost from = *from_id;
        let mut out = match self.edges.remove(from_id) {
            Some(m) => m,
            None => HashMap::new(),
        };
        out.insert(to_id, edge);
        self.edges.insert(*from_id, out);
        let mut inv = match self.inverse_edges.remove(&to_id) {
            Some(s) => s,
            None => HashSet::new(),
        };
        inv.insert(*from_id);
        self.inverse_edges.insert(to_id, inv);
        proof {
            assert(self.edge_map() =~= g0.edge_map().insert(
                from,
                g0.edge_map()[from].insert(to_id, edge),
            ));
            assert(self.inverse_map() =~= g0.inverse_map().insert(
                to_id,
                g0.inverse_map()[to_id].insert(from),
            ));
            assert forall|a: I, b: I| #[trigger] self.has_edge(a, b) <==> #[trigger] self.points_at(a, b) by {
                assert(g0.has_edge(a, b) <==> g0.points_at(a, b));
            }
            assert forall|a: I, b: I| #[trigger] self.has_edge(a, b) implies self.edge_map()[a][b].spec_next() == b
                && self.node_map().contains_key(b) by {
                if !(a == from && b == to_id) {
                    assert(g0.has_edge(a, b));
                }
            }
        }
        true
    }

    /// Removes the edge from `from_id` to `to_id`, which must exist.
    pub fn delete_edge(&mut self, from_id: &I, to_id: &I)
        requires
            old(self).wf(),
            old(self).has_edge(*from_id, *to_id),
        ensures
            final(self).wf(),
            final(self).node_map() == old(self).node_map(),
            final(self).edge_map() == old(self).edge_map().insert(
                *from_id,
                old(self).edge_map()[*from_id].remove(*to_id),
            ),
    {
        let ghost g0 = *self;
        self.remove_edge_entry(*from_id, *to_id);
        self.remove_inverse_entry(*to_id, *from_id);
        proof {
            assert(self.edge_map().dom() =~= g0.edge_map().dom());
            assert(self.inverse_map().dom() =~= g0.inverse_map().dom());
            assert(g0.points_at(*from_id, *to_id));
            assert forall|a: I, b: I| #[trigger] self.has_edge(a, b) <==> #[trigger] self.points_at(a, b) by {
                assert(g0.has_edge(a, b) <==> g0.points_at(a, b));
            }
            assert forall|a: I, b: I| #[trigger] self.has_edge(a, b) implies self.edge_map()[a][b].spec_next() == b
                && self.node_map().contains_key(b) by {
                assert(g0.has_edge(a, b));
            }
        }
    }

    /// Removes a node, every edge from it and every edge to it, and returns
    /// the node; `None`, with no change, when there is no such node.
    pub fn delete_node(&mut self, id: &I) -> (r: Option<N>)
        requires
            old(self).wf(),
        ensures
            final(self).wf(),
            r == (if old(self).node_map().contains_key(*id) {
                Some(old(self).node_map()[*id])
            } else {
                None::<N>
            }),
            final(self).node_map() == old(self).node_map().remove(*id),
            forall|a: I, b: I| #[trigger]
                final(self).has_edge(a, b) <==> (old(self).has_edge(a, b) && a != *id && b != *id),
            forall|a: I, b: I| #[trigger]
                final(self).has_edge(a, b) ==> final(self).edge_map()[a][b] == old(
                    self,
                ).edge_map()[a][b],
            forall|a: I|
                !(#[trigger] final(self).has_edge(a, *id)) && !final(self).points_at(a, *id),
            forall|b: I|
                !(#[trigger] final(self).has_edge(*id, b)) && !final(self).points_at(*id, b),
    {
        if !self.nodes.contains_key(id) {
            proof {
                assert forall|b: I| !(#[trigger] self.has_edge(*id, b)) && !self.points_at(*id, b) by {
                    assert(self.has_edge(*id, b) <==> self.points_at(*id, b));
                }
                assert forall|a: I| !(#[trigger] self.has_edge(a, *id)) && !self.points_at(a, *id) by {
                    assert(self.has_edge(a, *id) <==> self.points_at(a, *id));
                }
            }
            return None;
        }
        let ghost g0 = *self;
        let ghost x = *id;
        // Edges that point at this node.
        let incoming = match self.inverse_edges.remove(id) {
            Some(s) => s,
            None => HashSet::new(),
        };
        let sources = set_elements(&incoming);
        let mut k: usize = 0;
        while k < sources.len()
            invariant
                obeys_key_model::<I>(),
                g0.wf(),
                g0.node_map().contains_key(x),
                x == *id,
                sources@.to_set() == g0.inverse_map()[x],
                sources@.no_duplicates(),
                k <= sources@.len(),
                self.node_map() == g0.node_map(),
                self.inverse_map() == g0.inverse_map().remove(x),
                self.edge_map().dom() == g0.edge_map().dom(),
                forall|a: I| #[trigger]
                    self.edge_map().contains_key(a) ==> self.edge_map()[a] == (if sources@.subrange(
                        0,
                        k as int,
                    ).contains(a) {
                        g0.edge_map()[a].remove(x)
                    } else {
                        g0.edge_map()[a]
                    }),
            decreases sources@.len() - k,
        {
            let ghost before = *self;
            self.remove_edge_entry(sources[k], *id);
            proof {
                let pre = sources@.subrange(0, k as int);
                let post = sources@.subrange(0, k + 1);
                assert(post =~= pre.push(sources@[k as int]));
                assert forall|a: I| #[trigger] self.edge_map().contains_key(a) implies self.edge_map()[a] == (if post.contains(a) {
                    g0.edge_map()[a].remove(x)
                } else {
                    g0.edge_map()[a]
                }) by {
                    if a == sources@[k as int] {
                        assert(post[k as int] == a);
                        assert(post.contains(a));
                        assert(!pre.contains(a)) by {
                            if pre.contains(a) {
                                let j = choose|j: int| 0 <= j < pre.len() && pre[j] == a;
                                assert(pre[j] == sources@[j]);
                                assert(sources@[j] == sources@[k as int]);
                            }
                        }
                        assert(g0.edge_map()[a].remove(x).remove(x) =~= g0.edge_map()[a].remove(x));
                    } else {
                        assert(post.contains(a) == pre.contains(a));
                    }
                }
            }
            k = k + 1;
        }
        proof {
            assert(sources@.subrange(0, sources@.len() as int) =~= sources@);
            assert forall|a: I| #[trigger] self.edge_map().contains_key(a) implies self.edge_map()[a] =~= g0.edge_map()[a].remove(x) by {
                if !sources@.contains(a) {
                    assert(!sources@.to_set().contains(a));
                    assert(!g0.inverse_map()[x].contains(a));
                    assert(!g0.points_at(a, x));
                    assert(!g0.has_edge(a, x));
                    assert(!g0.edge_map()[a].contains_key(x));
                }
            }
        }
        // Inverse entries of the edges that leave this node.
        let ghost mid = *self;
        let outgoing = match self.edges.remove(id) {
            Some(m) => m,
            None => HashMap::new(),
        };
        assert(outgoing@ == g0.edge_map()[x].remove(x));
        let targets = map_keys(&outgoing);
        let mut k: usize = 0;
        while k < targets.len()
            invariant
                obeys_key_model::<I>(),
                g0.wf(),
                g0.node_map().contains_key(x),
                x == *id,
                targets@.to_set() == g0.edge_map()[x].remove(x).dom(),
                targets@.no_duplicates(),
                k <= targets@.len(),
                self.node_map() == g0.node_map(),
                self.edge_map() == mid.edge_map().remove(x),
                forall|a: I| #[trigger]
                    mid.edge_map().contains_key(a) ==> mid.edge_map()[a] == g0.edge_map()[a].remove(x),
                mid.edge_map().dom() == g0.edge_map().dom(),
                self.inverse_map().dom() == g0.inverse_map().dom().remove(x),
                forall|b: I| #[trigger]
                    self.inverse_map().contains_key(b) ==> self.inverse_map()[b] == (
                    if targets@.subrange(0, k as int).contains(b) {
                        g0.inverse_map()[b].remove(x)
                    } else {
                        g0.inverse_map()[b]
                    }),
            decreases targets@.len() - k,
        {
            proof {
                assert(targets@.to_set().contains(targets@[k as int]));
            }
            self.remove_inverse_entry(targets[k], *id);
            proof {
                let pre = targets@.subrange(0, k as int);
                let post = targets@.subrange(0, k + 1);
                assert(post =~= pre.push(targets@[k as int]));
                assert forall|b: I| #[trigger] self.inverse_map().contains_key(b) implies self.inverse_map()[b] == (if post.contains(b) {
                    g0.inverse_map()[b].remove(x)
                } else {
                    g0.inverse_map()[b]
                }) by {
                    if b == targets@[k as int] {
                        assert(post[k as int] == b);
                        assert(post.contains(b));
                        assert(!pre.contains(b)) by {
                            if pre.contains(b) {
                                let j = choose|j: int| 0 <= j < pre.len() && pre[j] == b;
                                assert(pre[j] == targets@[j]);
                                assert(targets@[j] == targets@[k as int]);
                            }
                        }
                        assert(g0.inverse_map()[b].remove(x).remove(x) =~= g0.inverse_map()[b].remove(x));
                    } else {
                        assert(post.contains(b) == pre.contains(b));
                    }
                }
            }
            k = k + 1;
        }
        proof {
            assert(targets@.subrange(0, targets@.len() as int) =~= targets@);
            assert forall|b: I| #[trigger] self.inverse_map().contains_key(b) implies self.inverse_map()[b] =~= g0.inverse_map()[b].remove(x) by {
                if !targets@.contains(b) {
                    assert(!targets@.to_set().contains(b));
                    assert(!g0.has_edge(x, b));
                    assert(!g0.points_at(x, b));
                }
            }
        }
        let r = self.nodes.remove(id);
        proof {
            assert(self.edge_map().dom() =~= self.node_map().dom());
            assert(self.inverse_map().dom() =~= self.node_map().dom());
            assert forall|a: I, b: I| #[trigger]
                self.has_edge(a, b) <==> (g0.has_edge(a, b) && a != x && b != x) by {
                if self.has_edge(a, b) {
                    assert(self.edge_map()[a] == g0.edge_map()[a].remove(x));
                }
                if g0.has_edge(a, b) && a != x && b != x {
                    assert(mid.edge_map()[a] == g0.edge_map()[a].remove(x));
                }
            }
            assert forall|a: I, b: I| #[trigger] self.points_at(a, b) <==> (g0.points_at(a, b) && a != x && b != x) by {
                if self.points_at(a, b) {
                    assert(self.inverse_map()[b] =~= g0.inverse_map()[b].remove(x));
                }
            }
            assert forall|a: I, b: I| #[trigger] self.has_edge(a, b) <==> #[trigger] self.points_at(a, b) by {
                assert(g0.has_edge(a, b) <==> g0.points_at(a, b));
                assert(self.points_at(a, b) <==> (g0.points_at(a, b) && a != x && b != x));
            }
            assert forall|a: I, b: I| #[trigger] self.has_edge(a, b) implies self.edge_map()[a][b] == g0.edge_map()[a][b] by {
                assert(mid.edge_map()[a] == g0.edge_map()[a].remove(x));
            }
            assert forall|a: I| !(#[trigger] self.has_edge(a, x)) && !self.points_at(a, x) by {
                assert(!(g0.has_edge(a, x) && a != x && x != x));
                assert(!self.inverse_map().contains_key(x));
            }
            assert forall|b: I| !(#[trigger] self.has_edge(x, b)) && !self.points_at(x, b) by {
                assert(!(g0.has_edge(x, b) && x != x));
                assert(self.points_at(x, b) <==> (g0.points_at(x, b) && x != x && b != x));
            }
        }
        r
    }

    /// Every edge, as a (source, target) pair, each once.
    pub fn edge_list(&self) -> (r: Vec<(I, I)>)
        requires
            self.wf(),
        ensures
            forall|a: I, b: I| #[trigger] r@.contains((a, b)) <==> self.has_edge(a, b),
    {
        let sources = map_keys(&self.edges);
        let mut out: Vec<(I, I)> = Vec::new();
        let mut k: usize = 0;
        while k < sources.len()
            invariant
                self.wf(),
                sources@.to_set() == self.edges@.dom(),
                k <= sources@.len(),
                forall|a: I, b: I| #[trigger] out@.contains((a, b)) <==> (self.has_edge(a, b)
                    && sources@.subrange(0, k as int).contains(a)),
            decreases sources@.len() - k,
        {
            let a = sources[k];
            proof {
                assert(sources@.to_set().contains(a));
            }
            let ghost before = out@;
            match self.edges.get(&a) {
                Some(m) => {
                    let targets = map_keys(m);
                    let mut j: usize = 0;
                    while j < targets.len()
                        invariant
                            self.wf(),
                            m@ == self.edge_map()[a],
                            self.edge_map().contains_key(a),
                            targets@.to_set() == m@.dom(),
                            j <= targets@.len(),
                            forall|x: I, y: I| #[trigger] out@.contains((x, y)) <==> (before.contains((x, y))
                                || (x == a && targets@.subrange(0, j as int).contains(y))),
                        decreases targets@.len() - j,
                    {
                        let ghost prev = out@;
                        out.push((a, targets[j]));
                        proof {
                            let s0 = targets@.subrange(0, j as int);
                            assert(targets@.subrange(0, j + 1) =~= s0.push(targets@[j as int]));
                            assert(out@ =~= prev.push((a, targets@[j as int])));
                            assert forall|x: I, y: I| #[trigger] out@.contains((x, y)) <==> (before.contains((x, y))
                                || (x == a && targets@.subrange(0, j + 1).contains(y))) by {
                                vstd::seq_lib::lemma_seq_contains_after_push(prev, (a, targets@[j as int]), (x, y));
                                vstd::seq_lib::lemma_seq_contains_after_push(s0, targets@[j as int], y);
                            }
                        }
                        j = j + 1;
                    }
                    proof {
                        assert(targets@.subrange(0, targets@.len() as int) =~= targets@);
                        assert forall|x: I, y: I| #[trigger] out@.contains((x, y)) <==> (before.contains((x, y))
                            || (x == a && self.has_edge(x, y))) by {
                            if x == a && self.has_edge(x, y) {
                                assert(targets@.to_set().contains(y));
                            }
                            if x == a && targets@.contains(y) {
                                assert(targets@.to_set().contains(y));
                            }
                        }
                    }
                },
                None => {
                    assert(false);
                },
            }
            proof {
                let pre = sources@.subrange(0, k as int);
                let post = sources@.subrange(0, k + 1);
                assert(post =~= pre.push(a));
                assert forall|x: I, y: I| #[trigger] out@.contains((x, y)) <==> (self.has_edge(x, y)
                    && post.contains(x)) by {
                    vstd::seq_lib::lemma_seq_contains_after_push(pre, a, x);
                }
            }
            k = k + 1;
        }
        proof {
            assert(sources@.subrange(0, sources@.len() as int) =~= sources@);
            assert forall|a: I, b: I| #[trigger] self.has_edge(a, b) implies sources@.contains(a) by {
                assert(sources@.to_set().contains(a));
            }
        }
        out
    }

    /// Removes the edge from `from` to `to` from the edge table, touching
    /// nothing else.
    fn remove_edge_entry(&mut self, from: I, to: I)
        requires
            obeys_key_model::<I>(),
        ensures
            final(self).nodes == old(self).nodes,
            final(self).inverse_edges == old(self).inverse_edges,
            final(self).edge_map() == (if old(self).edge_map().contains_key(from) {
                old(self).edge_map().insert(from, old(self).edge_map()[from].remove(to))
            } else {
                old(self).edge_map()
            }),
    {
        let ghost g0 = *self;
        match self.edges.remove(&from) {
            Some(mut m) => {
                m.remove(&to);
                self.edges.insert(from, m);
                assert(self.edge_map() =~= g0.edge_map().insert(
                    from,
                    g0.edge_map()[from].remove(to),
                ));
            },
            None => {
                assert(self.edge_map() =~= g0.edge_map());
            },
        }
    }

    /// Removes `from` from the inverse entry of `to`, touching nothing else.
    fn remove_inverse_entry(&mut self, to: I, from: I)
        requires
            obeys_key_model::<I>(),
        ensures
            final(self).nodes == old(self).nodes,
            final(self).edges == old(self).edges,
            final(self).inverse_map() == (if old(self).inverse_map().contains_key(to) {
                old(self).inverse_map().insert(to, old(self).inverse_map()[to].remove(from))
            } else {
                old(self).inverse_map()
            }),
    {
        let ghost g0 = *self;
        match self.inverse_edges.remove(&to) {
            Some(mut s) => {
                s.remove(&from);
                self.inverse_edges.insert(to, s);
                assert(self.inverse_map() =~= g0.inverse_map().insert(
                    to,
                    g0.inverse_map()[to].remove(from),
                ));
            },
            None => {
                assert(self.inverse_map() =~= g0.inverse_map());
            },
        }
    }
}

impl<I: Eq + Hash + Copy, N: Node<I>, E: Edge<I>> Default for Graph<I, N, E> {
    /// An empty graph; well formed when the identifier type hashes as its
    /// equality says.
    fn default() -> (r: Self)
        ensures
            r.node_map() == Map::<I, N>::empty(),
            r.edge_map() == Map::<I, Map<I, E>>::empty(),
            obeys_key_model::<I>() ==> r.wf(),
    {
        let r = Graph { nodes: HashMap::new(), edges: HashMap::new(), inverse_edges: HashMap::new() };
        assert(r.edge_map() =~= Map::<I, Map<I, E>>::empty());
        assert(r.inverse_map() =~= Map::<I, Set<I>>::empty());
        r
    }
}

/// The elements of a hash set, each once.
fn set_elements<I: Eq + Hash + Copy>(s: &HashSet<I>) -> (r: Vec<I>)
    requires
        obeys_key_model::<I>(),
    ensures
        r@.to_set() == s@,
        r@.no_duplicates(),
{
    let ghost all = s.iter().remaining();
    let mut out: Vec<I> = Vec::new();
    for x in it: s.iter()
        invariant
            it.seq() == all,
            out@ == all.subrange(0, it.index() as int).map_values(|r: &I| *r),
    {
        out.push(*x);
    }
    proof {
        assert(out@ =~= all.map_values(|r: &I| *r));
        assert(all.map_values(|r: &I| *r) =~= all.unref());
    }
    out
}

/// The keys of a hash map, each once.
pub(crate) fn map_keys<I: Eq + Hash + Copy, V>(m: &HashMap<I, V>) -> (r: Vec<I>)
    requires
        obeys_key_model::<I>(),
    ensures
        r@.to_set() == m@.dom(),
        r@.no_duplicates(),
{
    let ghost all = m.keys().remaining();
    let mut out: Vec<I> = Vec::new();
    for x in it: m.keys()
        invariant
            it.seq() == all,
            out@ == all.subrange(0, it.index() as int).map_values(|r: &I| *r),
    {
        out.push(*x);
    }
    proof {
        assert(out@ =~= all.map_values(|r: &I| *r));
        assert(all.map_values(|r: &I| *r) =~= all.unref());
    }
    out
}

} // verus!
