pub mod aggregate;
pub mod field;
pub mod heapfileiter;
pub mod join;
pub mod opiterator;
pub mod tuple;
pub mod join_laws;
pub mod aggregate_laws;
