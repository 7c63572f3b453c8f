use open_hypergraphs::array::VecArray;
use open_hypergraphs::finite_function::FiniteFunction;
use open_hypergraphs::indexed_coproduct::{HasLen, IndexedCoproduct};
use open_hypergraphs::semifinite::SemifiniteFunction;

fn ff(table: Vec<usize>, target: usize) -> FiniteFunction {
    FiniteFunction::new(VecArray(table), target).unwrap()
}

fn coproduct(lengths: Vec<usize>, values: FiniteFunction) -> IndexedCoproduct<FiniteFunction> {
    IndexedCoproduct::from_semifinite(SemifiniteFunction(VecArray(lengths)), values).unwrap()
}

#[test]
fn from_semifinite_keeps_the_segment_lengths() {
    let c = coproduct(vec![2, 0, 1], ff(vec![4, 4, 1], 5));
    assert_eq!(c.sources.table, VecArray(vec![2usize, 0, 1]));
    assert_eq!(c.sources.target, 4);
    assert_eq!(c.values.table, VecArray(vec![4usize, 4, 1]));
    assert_eq!(c.len(), 3);
}

#[test]
fn from_semifinite_rejects_a_wrong_total() {
    let r = IndexedCoproduct::from_semifinite(
        SemifiniteFunction(VecArray(vec![2usize, 2])),
        ff(vec![0, 0, 0], 1),
    );
    assert!(r.is_none());
    let r = IndexedCoproduct::from_semifinite(
        SemifiniteFunction(VecArray(vec![usize::MAX, 2])),
        ff(vec![0], 1),
    );
    assert!(r.is_none());
}

#[test]
fn new_checks_the_declared_target() {
    let ok = IndexedCoproduct::new(ff(vec![1, 2], 4), ff(vec![0, 1, 2], 3));
    assert!(ok.is_some());
    let wrong = IndexedCoproduct::new(ff(vec![1, 2], 5), ff(vec![0, 1, 2], 3));
    assert!(wrong.is_none());
    let short = IndexedCoproduct::new(ff(vec![1, 1], 3), ff(vec![0, 1, 2], 3));
    assert!(short.is_none());
}

#[test]
fn singleton_has_one_element_per_segment() {
    let c = IndexedCoproduct::singleton(ff(vec![2, 0, 1], 3));
    assert_eq!(c.sources.table, VecArray(vec![1usize, 1, 1]));
    assert_eq!(c.sources.target, 4);
    assert_eq!(c.len(), 3);
    let e = IndexedCoproduct::singleton(ff(vec![], 3));
    assert!(e.is_empty());
}

#[test]
fn flatmap_sums_inner_segments() {
    // outer: two segments, listing inner segments [0, 1] and [2]
    let outer = coproduct(vec![2, 1], ff(vec![0, 1, 2], 3));
    // inner: three segments of lengths 1, 2, 3
    let inner = coproduct(vec![1, 2, 3], ff(vec![0, 1, 2, 3, 4, 5], 6));
    let r = outer.flatmap(&inner);
    assert_eq!(r.sources.table, VecArray(vec![3usize, 3]));
    assert_eq!(r.sources.target, 7);
    assert_eq!(r.values.table, VecArray(vec![0usize, 1, 2, 3, 4, 5]));
}

#[test]
fn initial_has_no_segments() {
    let c = IndexedCoproduct::initial(4);
    assert_eq!(c.len(), 0);
    assert_eq!(c.sources.target, 1);
    assert_eq!(c.values.target, 4);
}

#[test]
fn tensor_places_segments_side_by_side() {
    let a = coproduct(vec![2, 1], ff(vec![0, 1, 1], 2));
    let b = coproduct(vec![1], ff(vec![2], 3));
    let c = a.tensor(&b);
    assert_eq!(c.len(), 3);
    assert_eq!(c.sources.table, VecArray(vec![2usize, 1, 1]));
    assert_eq!(c.sources.target, 5);
    assert_eq!(c.values.table, VecArray(vec![0usize, 1, 1, 4]));
    assert_eq!(c.values.target, 5);
}

#[test]
fn map_values_composes_the_payload() {
    let c = coproduct(vec![1, 1], ff(vec![1, 0], 2));
    let x = ff(vec![7, 9], 10);
    let m = c.map_values(&x).unwrap();
    assert_eq!(m.values.table, VecArray(vec![9usize, 7]));
    assert_eq!(m.values.target, 10);
    assert_eq!(m.sources.table, VecArray(vec![1usize, 1]));
    assert!(c.map_values(&ff(vec![0], 1)).is_none());
}

#[test]
fn reserved_operations_give_nothing() {
    let c = coproduct(vec![1], ff(vec![0], 1));
    let x = ff(vec![0], 1);
    assert!(c.indexed_values(&x).is_none());
    assert!(c.map_indexes(&x).is_none());
}
