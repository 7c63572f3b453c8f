//! A hypergraph under construction: nodes and edges are appended freely, and node
//! identifications are recorded to be applied later by [`Hypergraph::quotient`].
use crate::array::{VecArray, lemma_sum_push, sum};
use crate::finite_function::{FiniteFunction, hits, is_coequalizer, related, respects};
use crate::hypergraph;
use crate::indexed_coproduct::IndexedCoproduct;
use crate::semifinite::SemifiniteFunction;
use vstd::prelude::*;

verus! {

/// The index of a node.
#[derive(Debug, Clone, Copy, PartialEq, Eq, Structural)]
pub struct NodeId(pub usize);

/// The index of an edge.
#[derive(Debug, Clone, Copy, PartialEq, Eq, Structural)]
pub struct EdgeId(pub usize);

/// An edge from an ordered list of source nodes to an ordered list of target nodes.
#[derive(Debug, Clone)]
pub struct Hyperedge {
    pub sources: Vec<NodeId>,
    pub targets: Vec<NodeId>,
}

/// The source and target nodes of an operation.
pub type Interface = (Vec<NodeId>, Vec<NodeId>);

/// The raw indices of a list of nodes.
pub open spec fn ids(v: Seq<NodeId>) -> Seq<usize> {
    v.map_values(|x: NodeId| x.0)
}

/// Every node of the list is below `n`.
pub open spec fn ids_below(v: Seq<NodeId>, n: nat) -> bool {
    forall|j: int| 0 <= j < v.len() ==> #[trigger] v[j].0 < n
}

/// `new` is `old` with each node renamed through the table `q`.
pub open spec fn renamed(old: Seq<NodeId>, new: Seq<NodeId>, q: Seq<usize>) -> bool {
    &&& new.len() == old.len()
    &&& forall|j: int| 0 <= j < old.len() ==> (#[trigger] new[j]).0 == q[old[j].0 as int]
}

/// The source list of an edge when `src` holds, else its target list.
pub open spec fn side(e: Hyperedge, src: bool) -> Seq<NodeId> {
    if src {
        e.sources@
    } else {
        e.targets@
    }
}

/// The node indices of one side of every edge, edge after edge.
pub open spec fn flat_ids(adj: Seq<Hyperedge>, src: bool) -> Seq<usize>
    decreases adj.len(),
{
    if adj.len() == 0 {
        Seq::empty()
    } else {
        flat_ids(adj.drop_last(), src) + ids(side(adj.last(), src))
    }
}

/// The first position of `v` in `s`, or `s.len()` where it does not occur.
pub open spec fn first_index<O>(s: Seq<O>, v: O) -> int
    decreases s.len(),
{
    if s.len() == 0 {
        0
    } else if s[0] == v {
        0
    } else {
        1 + first_index(s.drop_first(), v)
    }
}

proof fn lemma_first_index<O>(s: Seq<O>, i: int)
    requires
        0 <= i < s.len(),
    ensures
        0 <= first_index(s, s[i]) < s.len(),
        s[first_index(s, s[i])] == s[i],
    decreases s.len(),
{
    if s[0] != s[i] {
        lemma_first_index(s.drop_first(), i - 1);
    }
}

/// A lax hypergraph: labelled nodes, labelled edges with their adjacency, and pairs of nodes
/// still to be identified.
#[derive(Debug)]
pub struct Hypergraph<O, A> {
    /// Node labels, indexed by [`NodeId`].
    pub nodes: Vec<O>,
    /// Edge labels, indexed by [`EdgeId`].
    pub edges: Vec<A>,
    /// The source and target nodes of each edge.
    pub adjacency: Vec<Hyperedge>,
    /// Pairs of nodes to identify: `quotient.0[k]` with `quotient.1[k]`.
    pub quotient: (Vec<NodeId>, Vec<NodeId>),
}

impl<O, A> Hypergraph<O, A> {
    /// Each edge has adjacency, the pair lists have one length, and every node mentioned
    /// exists.
    pub open spec fn wf(&self) -> bool {
        &&& self.adjacency@.len() == self.edges@.len()
        &&& self.quotient.0@.len() == self.quotient.1@.len()
        &&& forall|e: int|
            0 <= e < self.adjacency@.len() ==> ids_below(
                (#[trigger] self.adjacency@[e]).sources@,
                self.nodes@.len(),
            ) && ids_below(self.adjacency@[e].targets@, self.nodes@.len())
        &&& ids_below(self.quotient.0@, self.nodes@.len())
        &&& ids_below(self.quotient.1@, self.nodes@.len())
    }

    /// Identified nodes carry equal labels.
    pub open spec fn labels_agree(&self) -> bool {
        forall|k: int|
            0 <= k < self.quotient.0@.len() ==> self.nodes@[(#[trigger] self.quotient.0@[k]).0 as int]
                == self.nodes@[self.quotient.1@[k].0 as int]
    }

    /// The hypergraph with no nodes and no edges.
    pub fn empty() -> (r: Self)
        ensures
            r.wf(),
            r.nodes@.len() == 0,
            r.edges@.len() == 0,
            r.adjacency@.len() == 0,
            r.quotient.0@.len() == 0,
            r.quotient.1@.len() == 0,
    {
        Hypergraph {
            nodes: Vec::new(),
            edges: Vec::new(),
            adjacency: Vec::new(),
            quotient: (Vec::new(), Vec::new()),
        }
    }

    /// Add a node labelled `w`.
    pub fn new_node(&mut self, w: O) -> (r: NodeId)
        requires
            old(self).wf(),
        ensures
            final(self).wf(),
            r.0 == old(self).nodes@.len(),
            final(self).nodes@ == old(self).nodes@.push(w),
            final(self).edges@ == old(self).edges@,
            final(self).adjacency@ == old(self).adjacency@,
            final(self).quotient == old(self).quotient,
    {
        let index = self.nodes.len();
        self.nodes.push(w);
        NodeId(index)
    }

    /// Add an edge labelled `x` with the given sources and targets.
    pub fn new_edge(&mut self, x: A, interface: Hyperedge) -> (r: EdgeId)
        requires
            old(self).wf(),
            ids_below(interface.sources@, old(self).nodes@.len()),
            ids_below(interface.targets@, old(self).nodes@.len()),
        ensures
            final(self).wf(),
            r.0 == old(self).edges@.len(),
            final(self).nodes@ == old(self).nodes@,
            final(self).edges@ == old(self).edges@.push(x),
            final(self).adjacency@ == old(self).adjacency@.push(interface),
            final(self).quotient == old(self).quotient,
    {
        let edge_idx = self.edges.len();
        self.edges.push(x);
        self.adjacency.push(interface);
        EdgeId(edge_idx)
    }

    /// Append an operation labelled `x`: one fresh node for each label of `source_type`,
    /// then one for each label of `target_type`, and an edge from the first to the second.
    /// Returns the edge and its interface.
    pub fn new_operation(&mut self, x: A, source_type: Vec<O>, target_type: Vec<O>) -> (r: (
        EdgeId,
        Interface,
    ))
        requires
            old(self).wf(),
        ensures
            final(self).wf(),
            r.0.0 == old(self).edges@.len(),
            final(self).nodes@ == old(self).nodes@ + source_type@ + target_type@,
            final(self).edges@ == old(self).edges@.push(x),
            final(self).adjacency@.len() == old(self).adjacency@.len() + 1,
            forall|e: int|
                0 <= e < old(self).adjacency@.len() ==> #[trigger] final(self).adjacency@[e]
                    == old(self).adjacency@[e],
            final(self).adjacency@.last().sources@ == r.1.0@,
            final(self).adjacency@.last().targets@ == r.1.1@,
            r.1.0@.len() == source_type@.len(),
            r.1.1@.len() == target_type@.len(),
            forall|i: int|
                0 <= i < source_type@.len() ==> (#[trigger] r.1.0@[i]).0 == old(self).nodes@.len()
                    + i,
            forall|i: int|
                0 <= i < target_type@.len() ==> (#[trigger] r.1.1@[i]).0 == old(self).nodes@.len()
                    + source_type@.len() + i,
            final(self).quotient == old(self).quotient,
    {
        let mut source_type = source_type;
        let mut target_type = target_type;
        let n0 = self.nodes.len();
        self.nodes.append(&mut source_type);
        let n1 = self.nodes.len();
        self.nodes.append(&mut target_type);
        let n2 = self.nodes.len();
        let sources = Self::fresh_ids(n0, n1);
        let targets = Self::fresh_ids(n1, n2);
        let interface = (sources.clone(), targets.clone());
        let edge_id = self.new_edge(x, Hyperedge { sources, targets });
        (edge_id, interface)
    }

    /// The nodes `lo` up to, not including, `hi`.
    fn fresh_ids(lo: usize, hi: usize) -> (r: Vec<NodeId>)
        requires
            lo <= hi,
        ensures
            r@.len() == hi - lo,
            forall|i: int| 0 <= i < hi - lo ==> (#[trigger] r@[i]).0 == lo + i,
    {
        let mut v: Vec<NodeId> = Vec::with_capacity(hi - lo);
        let mut i: usize = lo;
        while i < hi
            invariant
                lo <= i <= hi,
                v@.len() == i - lo,
                forall|j: int| 0 <= j < i - lo ==> (#[trigger] v@[j]).0 == lo + j,
            decreases hi - i,
        {
            v.push(NodeId(i));
            i = i + 1;
        }
        v
    }

    /// Record that nodes `v` and `w` are to be identified. Their labels are not compared
    /// here.
    pub fn unify(&mut self, v: NodeId, w: NodeId)
        requires
            old(self).wf(),
            v.0 < old(self).nodes@.len(),
            w.0 < old(self).nodes@.len(),
        ensures
            final(self).wf(),
            final(self).nodes@ == old(self).nodes@,
            final(self).edges@ == old(self).edges@,
            final(self).adjacency@ == old(self).adjacency@,
            final(self).quotient.0@ == old(self).quotient.0@.push(v),
            final(self).quotient.1@ == old(self).quotient.1@.push(w),
    {
        self.quotient.0.push(v);
        self.quotient.1.push(w);
    }

    /// Add a fresh source node labelled `w` at the end of the sources of edge `edge_id`.
    pub fn add_edge_source(&mut self, edge_id: EdgeId, w: O) -> (r: NodeId)
        requires
            old(self).wf(),
            edge_id.0 < old(self).edges@.len(),
        ensures
            final(self).wf(),
            r.0 == old(self).nodes@.len(),
            final(self).nodes@ == old(self).nodes@.push(w),
            final(self).edges@ == old(self).edges@,
            final(self).adjacency@.len() == old(self).adjacency@.len(),
            forall|e: int|
                0 <= e < old(self).adjacency@.len() && e != edge_id.0 ==> #[trigger] final(self).adjacency@[e] == old(self).adjacency@[e],
            final(self).adjacency@[edge_id.0 as int].sources@ == old(self).adjacency@[edge_id.0 as int].sources@.push(r),
            final(self).adjacency@[edge_id.0 as int].targets@ == old(self).adjacency@[edge_id.0 as int].targets@,
            final(self).quotient == old(self).quotient,
    {
        let node_id = self.new_node(w);
        self.adjacency[edge_id.0].sources.push(node_id);
        node_id
    }

    /// Add a fresh target node labelled `w` at the end of the targets of edge `edge_id`.
    pub fn add_edge_target(&mut self, edge_id: EdgeId, w: O) -> (r: NodeId)
        requires
            old(self).wf(),
            edge_id.0 < old(self).edges@.len(),
        ensures
            final(self).wf(),
            r.0 == old(self).nodes@.len(),
            final(self).nodes@ == old(self).nodes@.push(w),
            final(self).edges@ == old(self).edges@,
            final(self).adjacency@.len() == old(self).adjacency@.len(),
            forall|e: int|
                0 <= e < old(self).adjacency@.len() && e != edge_id.0 ==> #[trigger] final(self).adjacency@[e] == old(self).adjacency@[e],
            final(self).adjacency@[edge_id.0 as int].targets@ == old(self).adjacency@[edge_id.0 as int].targets@.push(r),
            final(self).adjacency@[edge_id.0 as int].sources@ == old(self).adjacency@[edge_id.0 as int].sources@,
            final(self).quotient == old(self).quotient,
    {
        let node_id = self.new_node(w);
        self.adjacency[edge_id.0].targets.push(node_id);
        node_id
    }
}

/// Every nonzero value of `q` comes after a position holding the value below it.
#[verifier::opaque]
pub open spec fn numbered(q: Seq<usize>) -> bool {
    forall|i: int| 0 <= i < q.len() && #[trigger] q[i] > 0 ==> hits(q.take(i), q[i] - 1)
}

/// Positions that `q` sends to one value hold equal values.
#[verifier::opaque]
pub open spec fn classes_agree<O>(q: Seq<usize>, vals: Seq<O>) -> bool {
    forall|i: int, j: int|
        0 <= i < q.len() && 0 <= j < q.len() && #[trigger] q[i] == #[trigger] q[j] ==> vals[i]
            == vals[j]
}

/// The labels of the classes of `q`: entry `c` is the label of the first node that `q` sends
/// to `c`. Nodes that `q` identifies must carry equal labels.
fn coequalizer_universal<O>(q: &FiniteFunction, values: Vec<O>) -> (r: Vec<O>)
    requires
        q.table@.len() == values@.len(),
        forall|i: int| 0 <= i < q.table@.len() ==> #[trigger] q.table@[i] < q.target,
        forall|c: int| 0 <= c < q.target ==> #[trigger] hits(q.table@, c),
        forall|i: int|
            0 <= i < q.table@.len() && #[trigger] q.table@[i] > 0 ==> hits(
                q.table@.take(i),
                q.table@[i] - 1,
            ),
        forall|i: int, j: int|
            0 <= i < q.table@.len() && 0 <= j < q.table@.len() && #[trigger] q.table@[i]
                == #[trigger] q.table@[j] ==> values@[i] == values@[j],
    ensures
        r@.len() == q.target,
        forall|i: int|
            0 <= i < values@.len() ==> r@[#[trigger] q.table@[i] as int] == values@[i],
{
    let n = values.len();
    let ghost vals = values@;
    assert(vals.take(n as int) =~= vals);
    let ghost qt = q.table@;
    let mut values = values;
    // reverse, so that popping yields the labels in order
    let mut rev: Vec<O> = Vec::with_capacity(n);
    while values.len() > 0
        invariant
            n == vals.len(),
            values@.len() + rev@.len() == n,
            values@ == vals.take(values@.len() as int),
            forall|j: int| 0 <= j < rev@.len() ==> #[trigger] rev@[j] == vals[n - 1 - j],
        decreases values@.len(),
    {
        let ghost vs0 = values@;
        let ghost vl = values@.len() as int;
        let v = values.pop().unwrap();
        proof {
            assert(v == vs0[vl - 1]);
            assert(vs0[vl - 1] == vals[vl - 1]);
            assert(values@ =~= vals.take(values@.len() as int));
        }
        rev.push(v);
    }
    proof {
        reveal(classes_agree);
        reveal(numbered);
    }
    let mut out: Vec<O> = Vec::new();
    let mut i: usize = 0;
    while i < n
        invariant
            n == vals.len(),
            qt == q.table@,
            qt.len() == n,
            forall|i: int| 0 <= i < qt.len() ==> #[trigger] qt[i] < q.target,
            numbered(qt),
            classes_agree(qt, vals),
            i <= n,
            rev@.len() == n - i,
            forall|j: int| 0 <= j < rev@.len() ==> #[trigger] rev@[j] == vals[n - 1 - j],
            out@.len() <= q.target,
            forall|x: int| 0 <= x < i ==> #[trigger] qt[x] < out@.len(),
            forall|x: int| 0 <= x < i ==> out@[#[trigger] qt[x] as int] == vals[x],
            forall|c: int| 0 <= c < out@.len() ==> #[trigger] hits(qt.take(i as int), c),
        decreases n - i,
    {
        let v = rev.pop().unwrap();
        let c = q.table.0[i];
        let ghost out0 = out@;
        proof {
            if c > 0 {
                assert(hits(qt.take(i as int), c - 1)) by {
                    reveal(numbered);
                }
                let x = choose|x: int|
                    #![trigger qt.take(i as int)[x]]
                    0 <= x < qt.take(i as int).len() && qt.take(i as int)[x] == c - 1;
                assert(qt[x] == c - 1);
            }
        }
        if c == out.len() {
            out.push(v);
        } else {
            proof {
                assert(hits(qt.take(i as int), c as int));
                let x = choose|x: int|
                    #![trigger qt.take(i as int)[x]]
                    0 <= x < qt.take(i as int).len() && qt.take(i as int)[x] == c;
                assert(qt[x] == c);
                assert(out@[qt[x] as int] == vals[x]);
                reveal(classes_agree);
                assert(vals[x] == vals[i as int]);
            }
        }
        proof {
            assert forall|d: int| 0 <= d < out@.len() implies #[trigger] hits(
                qt.take(i + 1),
                d,
            ) by {
                if d < out0.len() {
                    assert(hits(qt.take(i as int), d));
                    let x = choose|x: int|
                        #![trigger qt.take(i as int)[x]]
                        0 <= x < qt.take(i as int).len() && qt.take(i as int)[x] == d;
                    assert(qt.take(i + 1)[x] == d);
                } else {
                    assert(qt.take(i + 1)[i as int] == d);
                }
            }
        }
        i = i + 1;
    }
    proof {
        if out@.len() < q.target {
            let c = out@.len() as int;
            assert(hits(qt, c));
            let x = choose|x: int| #![trigger qt[x]] 0 <= x < qt.len() && qt[x] == c;
            assert(qt[x] < out@.len());
        }
    }
    out
}

/// The table `q` renames the nodes of `v`.
fn rename_ids(v: &Vec<NodeId>, q: &FiniteFunction) -> (r: Vec<NodeId>)
    requires
        ids_below(v@, q.table@.len()),
    ensures
        renamed(v@, r@, q.table@),
{
    let mut out: Vec<NodeId> = Vec::with_capacity(v.len());
    let mut j: usize = 0;
    while j < v.len()
        invariant
            j <= v@.len(),
            ids_below(v@, q.table@.len()),
            out@.len() == j,
            forall|k: int| 0 <= k < j ==> (#[trigger] out@[k]).0 == q.table@[v@[k].0 as int],
        decreases v@.len() - j,
    {
        let x = v[j].0;
        out.push(NodeId(q.table.0[x]));
        j = j + 1;
    }
    out
}

impl<O, A> Hypergraph<O, A> {
    /// The coequalizer of the pending identifications, as two functions into the nodes.
    fn coequalizer(&self) -> (r: FiniteFunction)
        requires
            self.wf(),
        ensures
            r.wf(),
            is_coequalizer(
                ids(self.quotient.0@),
                ids(self.quotient.1@),
                self.nodes@.len(),
                r.table@,
                r.target as nat,
            ),
            self.quotient.0@.len() == 0 ==> r.target == self.nodes@.len() && forall|i: int|
                0 <= i < self.nodes@.len() ==> #[trigger] r.table@[i] == i,
    {
        let n = self.nodes.len();
        let s = FiniteFunction { table: VecArray(Self::raw_ids(&self.quotient.0, n)), target: n };
        let t = FiniteFunction { table: VecArray(Self::raw_ids(&self.quotient.1, n)), target: n };
        match s.coequalizer(&t) {
            Some(q) => q,
            None => {
                proof {
                    assert(false);
                }
                FiniteFunction::identity(n)
            },
        }
    }

    /// The indices of a list of nodes, each below `n`.
    fn raw_ids(v: &Vec<NodeId>, n: usize) -> (r: Vec<usize>)
        requires
            ids_below(v@, n as nat),
        ensures
            r@ == ids(v@),
            forall|j: int| 0 <= j < r@.len() ==> #[trigger] r@[j] < n,
    {
        let mut out: Vec<usize> = Vec::with_capacity(v.len());
        let mut j: usize = 0;
        while j < v.len()
            invariant
                j <= v@.len(),
                ids_below(v@, n as nat),
                out@ == ids(v@.take(j as int)),
            decreases v@.len() - j,
        {
            out.push(v[j].0);
            j = j + 1;
            assert(out@ =~= ids(v@.take(j as int)));
        }
        assert(v@.take(v@.len() as int) =~= v@);
        out
    }

    /// Apply the pending identifications: merge identified nodes into one node per class,
    /// numbered in the order of each class's first node, rename every node mentioned by an
    /// edge, and clear the pairs. Returns the renaming. Identified nodes must carry equal
    /// labels.
    pub fn quotient(&mut self) -> (r: FiniteFunction)
        requires
            old(self).wf(),
            old(self).labels_agree(),
        ensures
            final(self).wf(),
            r.wf(),
            is_coequalizer(
                ids(old(self).quotient.0@),
                ids(old(self).quotient.1@),
                old(self).nodes@.len(),
                r.table@,
                r.target as nat,
            ),
            final(self).nodes@.len() == r.target,
            forall|i: int|
                0 <= i < old(self).nodes@.len() ==> final(self).nodes@[#[trigger] r.table@[i] as int]
                    == old(self).nodes@[i],
            final(self).edges@ == old(self).edges@,
            final(self).adjacency@.len() == old(self).adjacency@.len(),
            forall|e: int|
                0 <= e < old(self).adjacency@.len() ==> renamed(
                    old(self).adjacency@[e].sources@,
                    (#[trigger] final(self).adjacency@[e]).sources@,
                    r.table@,
                ) && renamed(
                    old(self).adjacency@[e].targets@,
                    final(self).adjacency@[e].targets@,
                    r.table@,
                ),
            final(self).quotient.0@.len() == 0,
            final(self).quotient.1@.len() == 0,
            old(self).quotient.0@.len() == 0 ==> {
                &&& r.target == old(self).nodes@.len()
                &&& forall|i: int| 0 <= i < old(self).nodes@.len() ==> #[trigger] r.table@[i] == i
                &&& final(self).nodes@ == old(self).nodes@
                &&& forall|e: int|
                    0 <= e < old(self).adjacency@.len() ==> (#[trigger] final(self).adjacency@[e]).sources@ == old(self).adjacency@[e].sources@
                        && final(self).adjacency@[e].targets@ == old(self).adjacency@[e].targets@
            },
    {
        let q = self.coequalizer();
        let ghost s = ids(self.quotient.0@);
        let ghost t = ids(self.quotient.1@);
        let ghost labels = self.nodes@;
        let ghost n = labels.len();
        proof {
            // identified nodes carry equal labels
            let f = |y: int| first_index(labels, labels[y]);
            assert(respects(f, s, t)) by {
                assert forall|k: int| #![trigger s[k]] 0 <= k < s.len() implies f(s[k] as int) == f(
                    t[k] as int,
                ) by {
                    assert(self.quotient.0@[k].0 == s[k]);
                }
            }
            assert forall|i: int, j: int|
                0 <= i < n && 0 <= j < n && #[trigger] q.table@[i] == #[trigger] q.table@[j]
                    implies labels[i] == labels[j] by {
                assert(related(s, t, i, j));
                assert(f(i) == f(j));
                lemma_first_index(labels, i);
                lemma_first_index(labels, j);
            }
        }
        let mut old_nodes: Vec<O> = Vec::new();
        core::mem::swap(&mut self.nodes, &mut old_nodes);
        self.nodes = coequalizer_universal(&q, old_nodes);
        let ghost adj0 = self.adjacency@;
        let mut e: usize = 0;
        while e < self.adjacency.len()
            invariant
                self.adjacency@.len() == adj0.len(),
                adj0 == old(self).adjacency@,
                old(self).wf(),
                q.wf(),
                self.nodes@.len() == q.target,
                forall|i: int|
                    0 <= i < labels.len() ==> self.nodes@[#[trigger] q.table@[i] as int]
                        == labels[i],
                labels == old(self).nodes@,
                self.edges@ == old(self).edges@,
                is_coequalizer(s, t, labels.len(), q.table@, q.target as nat),
                s.len() == 0 ==> q.target == labels.len() && forall|i: int|
                    0 <= i < labels.len() ==> #[trigger] q.table@[i] == i,
                q.table@.len() == old(self).nodes@.len(),
                e <= adj0.len(),
                forall|d: int|
                    0 <= d < e ==> renamed(
                        adj0[d].sources@,
                        (#[trigger] self.adjacency@[d]).sources@,
                        q.table@,
                    ) && renamed(adj0[d].targets@, self.adjacency@[d].targets@, q.table@),
                forall|d: int| e <= d < adj0.len() ==> #[trigger] self.adjacency@[d] == adj0[d],
            decreases adj0.len() - e,
        {
            let sources = rename_ids(&self.adjacency[e].sources, &q);
            let targets = rename_ids(&self.adjacency[e].targets, &q);
            self.adjacency.set(e, Hyperedge { sources, targets });
            e = e + 1;
        }
        self.quotient = (Vec::new(), Vec::new());
        proof {
            assert forall|d: int| 0 <= d < self.adjacency@.len() implies ids_below(
                (#[trigger] self.adjacency@[d]).sources@,
                self.nodes@.len(),
            ) && ids_below(self.adjacency@[d].targets@, self.nodes@.len()) by {
                assert(ids_below(adj0[d].sources@, n));
                assert(ids_below(adj0[d].targets@, n));
                assert forall|j: int| 0 <= j < self.adjacency@[d].sources@.len() implies #[trigger] self.adjacency@[d].sources@[j].0
                    < self.nodes@.len() by {
                    assert(adj0[d].sources@[j].0 < n);
                }
                assert forall|j: int| 0 <= j < self.adjacency@[d].targets@.len() implies #[trigger] self.adjacency@[d].targets@[j].0
                    < self.nodes@.len() by {
                    assert(adj0[d].targets@[j].0 < n);
                }
            }
            if s.len() == 0 {
                assert forall|i: int| 0 <= i < n implies self.nodes@[i] == labels[i] by {
                    assert(q.table@[i] == i);
                }
                assert(self.nodes@ =~= labels);
                assert forall|d: int| 0 <= d < adj0.len() implies (#[trigger] self.adjacency@[d]).sources@
                    == adj0[d].sources@ && self.adjacency@[d].targets@ == adj0[d].targets@ by {
                    assert(ids_below(adj0[d].sources@, n));
                    assert(ids_below(adj0[d].targets@, n));
                    assert(self.adjacency@[d].sources@ =~= adj0[d].sources@);
                    assert(self.adjacency@[d].targets@ =~= adj0[d].targets@);
                }
            }
        }
        q
    }
}

/// Unfolds `flat_ids` on the first `e + 1` edges.
proof fn lemma_flat_ids_next(adj: Seq<Hyperedge>, src: bool, e: int)
    requires
        0 <= e < adj.len(),
    ensures
        flat_ids(adj.take(e + 1), src) == flat_ids(adj.take(e), src) + ids(side(adj[e], src)),
{
    assert(adj.take(e + 1).drop_last() =~= adj.take(e));
}

/// One side of every edge as an indexed coproduct: the arities are the segment sizes, and
/// the node indices, edge after edge, are the payload, a function into `{0..n}`.
fn side_coproduct(adj: &Vec<Hyperedge>, src: bool, n: usize) -> (r: IndexedCoproduct<
    FiniteFunction,
>)
    requires
        forall|e: int| 0 <= e < adj@.len() ==> ids_below(side(#[trigger] adj@[e], src), n as nat),
        flat_ids(adj@, src).len() < usize::MAX,
    ensures
        r.wf(),
        r.values.wf(),
        r.sources.table@.len() == adj@.len(),
        forall|e: int|
            0 <= e < adj@.len() ==> #[trigger] r.sources.table@[e] == side(adj@[e], src).len(),
        r.values.table@ == flat_ids(adj@, src),
        r.values.target == n,
{
    let mut lengths: Vec<usize> = Vec::with_capacity(adj.len());
    let mut values: Vec<usize> = Vec::new();
    let mut e: usize = 0;
    while e < adj.len()
        invariant
            forall|e: int|
                0 <= e < adj@.len() ==> ids_below(side(#[trigger] adj@[e], src), n as nat),
            e <= adj@.len(),
            lengths@.len() == e,
            forall|d: int| 0 <= d < e ==> #[trigger] lengths@[d] == side(adj@[d], src).len(),
            values@ == flat_ids(adj@.take(e as int), src),
            sum(lengths@) == values@.len(),
            forall|j: int| 0 <= j < values@.len() ==> #[trigger] values@[j] < n,
        decreases adj@.len() - e,
    {
        let list: &Vec<NodeId> = if src {
            &adj[e].sources
        } else {
            &adj[e].targets
        };
        assert(list@ == side(adj@[e as int], src));
        let ghost values0 = values@;
        let mut j: usize = 0;
        while j < list.len()
            invariant
                ids_below(list@, n as nat),
                j <= list@.len(),
                values@ == values0 + ids(list@.take(j as int)),
                forall|j: int| 0 <= j < values@.len() ==> #[trigger] values@[j] < n,
            decreases list@.len() - j,
        {
            values.push(list[j].0);
            j = j + 1;
            assert(values@ =~= values0 + ids(list@.take(j as int)));
        }
        proof {
            assert(list@.take(list@.len() as int) =~= list@);
            lemma_flat_ids_next(adj@, src, e as int);
            lemma_sum_push(lengths@, list@.len() as usize);
        }
        lengths.push(list.len());
        e = e + 1;
    }
    assert(adj@.take(adj@.len() as int) =~= adj@);
    let values = match FiniteFunction::new(VecArray(values), n) {
        Some(f) => f,
        None => {
            proof {
                assert(false);
            }
            FiniteFunction::initial(n)
        },
    };
    match IndexedCoproduct::from_semifinite(SemifiniteFunction(VecArray(lengths)), values) {
        Some(c) => c,
        None => {
            proof {
                assert(false);
            }
            IndexedCoproduct::initial(n)
        },
    }
}

/// The canonical hypergraph of `h`, its pending identifications set aside: the sources and
/// the targets of the edges as indexed coproducts, with copies of the labels.
fn make_hypergraph<O: Clone, A: Clone>(h: &Hypergraph<O, A>) -> (r: hypergraph::Hypergraph<O, A>)
    requires
        h.wf(),
        flat_ids(h.adjacency@, true).len() < usize::MAX,
        flat_ids(h.adjacency@, false).len() < usize::MAX,
    ensures
        r.s.wf(),
        r.s.values.wf(),
        r.t.wf(),
        r.t.values.wf(),
        r.s.sources.table@.len() == h.adjacency@.len(),
        r.t.sources.table@.len() == h.adjacency@.len(),
        forall|e: int|
            0 <= e < h.adjacency@.len() ==> #[trigger] r.s.sources.table@[e]
                == h.adjacency@[e].sources@.len() && r.t.sources.table@[e]
                == h.adjacency@[e].targets@.len(),
        r.s.values.table@ == flat_ids(h.adjacency@, true),
        r.t.values.table@ == flat_ids(h.adjacency@, false),
        r.s.values.target == h.nodes@.len(),
        r.t.values.target == h.nodes@.len(),
        r.w.0@.len() == h.nodes@.len(),
        forall|i: int| 0 <= i < h.nodes@.len() ==> cloned(h.nodes@[i], #[trigger] r.w.0@[i]),
        r.x.0@.len() == h.edges@.len(),
        forall|i: int| 0 <= i < h.edges@.len() ==> cloned(h.edges@[i], #[trigger] r.x.0@[i]),
{
    let n = h.nodes.len();
    let s = side_coproduct(&h.adjacency, true, n);
    let t = side_coproduct(&h.adjacency, false, n);
    let w = SemifiniteFunction(VecArray(h.nodes.clone()));
    let x = SemifiniteFunction(VecArray(h.edges.clone()));
    hypergraph::Hypergraph { s, t, w, x }
}

impl<O: Clone, A: Clone> Hypergraph<O, A> {
    /// The canonical hypergraph of `self`, its pending identifications set aside (apply them
    /// first with [`Hypergraph::quotient`]): the sources and the targets of the edges as
    /// indexed coproducts into the nodes, with copies of the labels.
    pub fn to_hypergraph(&self) -> (r: hypergraph::Hypergraph<O, A>)
        requires
            self.wf(),
            flat_ids(self.adjacency@, true).len() < usize::MAX,
            flat_ids(self.adjacency@, false).len() < usize::MAX,
        ensures
            r.s.wf(),
            r.s.values.wf(),
            r.t.wf(),
            r.t.values.wf(),
            r.s.sources.table@.len() == self.adjacency@.len(),
            r.t.sources.table@.len() == self.adjacency@.len(),
            forall|e: int|
                0 <= e < self.adjacency@.len() ==> #[trigger] r.s.sources.table@[e]
                    == self.adjacency@[e].sources@.len() && r.t.sources.table@[e]
                    == self.adjacency@[e].targets@.len(),
            r.s.values.table@ == flat_ids(self.adjacency@, true),
            r.t.values.table@ == flat_ids(self.adjacency@, false),
            r.s.values.target == self.nodes@.len(),
            r.t.values.target == self.nodes@.len(),
            r.w.0@.len() == self.nodes@.len(),
            forall|i: int|
                0 <= i < self.nodes@.len() ==> cloned(self.nodes@[i], #[trigger] r.w.0@[i]),
            r.x.0@.len() == self.edges@.len(),
            forall|i: int|
                0 <= i < self.edges@.len() ==> cloned(self.edges@[i], #[trigger] r.x.0@[i]),
    {
        make_hypergraph(self)
    }
}

} // verus!
