//! Interior-mutability and shared-ownership primitives with machine-checked
//! contracts: an unchecked cell, a dynamically borrow-checked cell, and a
//! reference-counted owner with weak handles.

pub mod cell;
pub mod refcell;
pub mod rc;
