//! The content modules the engine ships with: each populates its corner of
//! the tree through the mutation entry points and the generic node kinds.

pub mod bathroom;
pub mod classroom;
pub mod many_open;
pub mod start_mod;
