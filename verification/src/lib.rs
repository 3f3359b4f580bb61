//! Maximal independent sets by Luby's randomized round algorithm.
//!
//! A graph is a vector of neighbor lists: vertex `v`'s neighbors are the
//! entries of `adj[v]`. Entries at or beyond the number of vertices stand
//! for vertices without a list of their own and are tolerated everywhere.
//! A vertex set is a membership vector of booleans.
//!
//! The engine runs rounds: every still-active vertex tosses a biased coin
//! (isolated vertices are picked outright), adjacent candidates are settled
//! by a deterministic degree-then-identifier rule, and the surviving winners
//! join the output while they and their neighbors leave the active set. On
//! every graph whose in-range adjacency is symmetric and loop-free the
//! result is proved independent and maximal.

pub mod engine;
pub mod model;
mod sched;
pub mod validator;

pub use engine::{
    luby, luby_algo, luby_algo_par_chunck, luby_algo_par_chunck2, luby_checked, luby_seq,
};
pub use validator::is_valid_mis;
