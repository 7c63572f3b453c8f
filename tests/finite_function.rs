use open_hypergraphs::array::VecArray;
use open_hypergraphs::finite_function::FiniteFunction;

fn ff(table: Vec<usize>, target: usize) -> FiniteFunction {
    FiniteFunction::new(VecArray(table), target).unwrap()
}

#[test]
fn new_checks_the_target() {
    assert!(FiniteFunction::new(VecArray(vec![0usize, 2]), 3).is_some());
    assert!(FiniteFunction::new(VecArray(vec![0usize, 3]), 3).is_none());
}

#[test]
fn compose_applies_second_after_first() {
    let f = ff(vec![1, 0, 1], 2);
    let g = ff(vec![5, 7], 8);
    let h = f.compose(&g).unwrap();
    assert_eq!(h.table, VecArray(vec![7usize, 5, 7]));
    assert_eq!(h.target, 8);
    assert!(g.compose(&f).is_none());
}

#[test]
fn coproduct_shifts_the_right_side() {
    let f = ff(vec![0, 1], 2);
    let g = ff(vec![2, 0], 3);
    let h = f.coproduct(&g);
    assert_eq!(h.table, VecArray(vec![0usize, 1, 4, 2]));
    assert_eq!(h.target, 5);
}

#[test]
fn coequalizer_merges_connected_points() {
    let s = ff(vec![3, 1], 5);
    let t = ff(vec![4, 0], 5);
    let q = s.coequalizer(&t).unwrap();
    assert_eq!(q.table, VecArray(vec![0usize, 0, 1, 2, 2]));
    assert_eq!(q.target, 3);
}

#[test]
fn coequalizer_of_mismatched_functions_is_none() {
    let s = ff(vec![0], 2);
    let t = ff(vec![0, 1], 2);
    assert!(s.coequalizer(&t).is_none());
    let u = ff(vec![0], 3);
    assert!(s.coequalizer(&u).is_none());
}

#[test]
fn identity_and_initial() {
    let i = FiniteFunction::identity(3);
    assert_eq!(i.table, VecArray(vec![0usize, 1, 2]));
    assert_eq!(i.target(), 3);
    let z = FiniteFunction::initial(4);
    assert_eq!(z.source(), 0);
    assert_eq!(z.target(), 4);
}
