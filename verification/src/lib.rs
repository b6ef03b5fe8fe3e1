//! A vector of fixed capacity that lives in a buffer borrowed from the caller.
//!
//! Nothing is allocated and the capacity never grows: operations that add
//! elements report `ErrorKind::NoSpace` once the buffer is full.

pub mod fixed_vec;
pub mod laws;
pub mod model;

pub use fixed_vec::ErrorKind;
pub use fixed_vec::FixedVec;
