use open_hypergraphs::array::VecArray;
use open_hypergraphs::lax::{EdgeId, Hyperedge, Hypergraph, NodeId};

#[test]
fn quotient_merges_identified_pairs() {
    let mut h: Hypergraph<char, u8> = Hypergraph::empty();
    let n0 = h.new_node('a');
    let n1 = h.new_node('a');
    let n2 = h.new_node('b');
    let n3 = h.new_node('b');
    h.new_edge(1, Hyperedge { sources: vec![n1], targets: vec![n3, n2] });
    h.unify(n0, n1);
    h.unify(n2, n3);
    let q = h.quotient();
    assert_eq!(q.target, 2);
    assert_eq!(q.table, VecArray(vec![0usize, 0, 1, 1]));
    assert_eq!(h.nodes, vec!['a', 'b']);
    assert_eq!(h.adjacency[0].sources, vec![NodeId(0)]);
    assert_eq!(h.adjacency[0].targets, vec![NodeId(1), NodeId(1)]);
    assert!(h.quotient.0.is_empty() && h.quotient.1.is_empty());
}

#[test]
fn quotient_twice_is_identity_the_second_time() {
    let mut h: Hypergraph<u8, u8> = Hypergraph::empty();
    let (_, (s, t)) = h.new_operation(0, vec![1, 2], vec![3]);
    let extra = h.new_node(3);
    h.unify(t[0], extra);
    h.unify(s[1], s[1]);
    h.quotient();
    let nodes = h.nodes.clone();
    let sources = h.adjacency[0].sources.clone();
    let targets = h.adjacency[0].targets.clone();
    let q = h.quotient();
    assert_eq!(q.table, VecArray(vec![0usize, 1, 2]));
    assert_eq!(q.target, 3);
    assert_eq!(h.nodes, nodes);
    assert_eq!(h.adjacency[0].sources, sources);
    assert_eq!(h.adjacency[0].targets, targets);
}

#[test]
fn builder_keeps_node_references_in_range() {
    let mut h: Hypergraph<u8, u8> = Hypergraph::empty();
    let a = h.new_node(0);
    let e = h.new_edge(5, Hyperedge { sources: vec![a], targets: vec![] });
    assert_eq!(e, EdgeId(0));
    let s = h.add_edge_source(e, 1);
    let t = h.add_edge_target(e, 2);
    assert_eq!(s, NodeId(1));
    assert_eq!(t, NodeId(2));
    assert_eq!(h.adjacency[0].sources, vec![NodeId(0), NodeId(1)]);
    assert_eq!(h.adjacency[0].targets, vec![NodeId(2)]);
    for edge in h.adjacency.iter() {
        for n in edge.sources.iter().chain(edge.targets.iter()) {
            assert!(n.0 < h.nodes.len());
        }
    }
}

#[test]
fn new_operation_allocates_fresh_nodes() {
    let mut h: Hypergraph<char, &str> = Hypergraph::empty();
    h.new_node('x');
    let (e, (s, t)) = h.new_operation("f", vec!['a', 'b'], vec!['c']);
    assert_eq!(e, EdgeId(0));
    assert_eq!(s, vec![NodeId(1), NodeId(2)]);
    assert_eq!(t, vec![NodeId(3)]);
    assert_eq!(h.nodes, vec!['x', 'a', 'b', 'c']);
    assert_eq!(h.edges, vec!["f"]);
    assert_eq!(h.adjacency[0].sources, s);
    assert_eq!(h.adjacency[0].targets, t);
}

#[test]
fn to_hypergraph_of_one_edge() {
    let mut h: Hypergraph<u8, char> = Hypergraph::empty();
    let (_, (s, t)) = h.new_operation('f', vec![1, 1], vec![2]);
    h.unify(s[0], s[1]);
    h.quotient();
    let g = h.to_hypergraph();
    assert_eq!(g.s.len(), 1);
    assert_eq!(g.s.sources.table, VecArray(vec![2usize]));
    assert_eq!(g.t.len(), 1);
    assert_eq!(g.t.sources.table, VecArray(vec![1usize]));
    assert_eq!(g.s.values.table, VecArray(vec![0usize, 0]));
    assert_eq!(g.t.values.table, VecArray(vec![1usize]));
    assert_eq!(g.s.values.target, 2);
    assert_eq!(g.t.values.target, 2);
    assert_eq!(g.w.0, VecArray(vec![1u8, 2]));
    assert_eq!(g.x.0, VecArray(vec!['f']));
    assert_eq!(t.len(), 1);
}
