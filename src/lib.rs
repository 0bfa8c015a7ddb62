//! A fixed-capacity cyclic container and a FIFO queue built on it.
//!
//! `List<SIZE, T, WRITE_OVER>` keeps at most `SIZE` elements in a block of
//! slots allocated once. With `WRITE_OVER == false` an insertion into a full
//! container fails; with `WRITE_OVER == true` it evicts the oldest element.

pub mod error;
pub mod laws;
pub mod list;
pub mod queue;
