pub mod sparse_set;
pub mod typed_sparse_set;
pub mod bit_set;
