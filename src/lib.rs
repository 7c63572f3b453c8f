//! Open hypergraphs: segmented arrays, finite functions and a lax hypergraph builder.
pub mod array;
pub mod finite_function;
pub mod semifinite;
pub mod indexed_coproduct;
pub mod hypergraph;
pub mod lax;
