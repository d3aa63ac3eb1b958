//! Ordered mod lists, the profiles saved from them, and the rules that bring a
//! list in line with a profile.

pub mod error;
pub mod idempotence;
pub mod mod_data;
pub mod mod_file;
pub mod permutation;
pub mod profile_order;
pub mod reconcile;
pub mod round_trip;
pub mod seq_facts;
pub mod storage;
