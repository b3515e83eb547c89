//! Greedy balancing of weights over a fixed number of bins: the weights are
//! taken from the largest to the smallest, each to the bin that is least
//! loaded at that moment, and the result says whether all bins ended up
//! with the same load.

pub mod model;
pub mod sorting;
pub mod laws;
pub mod partition;
pub mod generate;
