//! Polynomial evaluation, fitting and sparse polynomial algebra for
//! polynomial optics, together with the index bookkeeping of the lens
//! ghost and sensor mesh tables.

pub mod basic_polynom;
pub mod corner_fit;
pub mod dense_polynom;
pub mod ghosts;
pub mod iexp;
pub mod legendre;
pub mod mesh;
pub mod multi_index;
pub mod terms2_order;
pub mod polynom;
pub mod power;
pub mod sparse_polynom;
pub mod text;
