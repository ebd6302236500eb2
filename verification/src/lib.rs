//! Verified logic of two MPI exercises: the token-passing tree of Raymond's
//! mutual-exclusion algorithm, and the row distribution of a parallel
//! Gaussian elimination.
pub mod topology;
pub mod tree;
pub mod tree_laws;
pub mod messages;
pub mod network;
pub mod rows;
