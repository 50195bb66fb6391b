//! In-memory store and capture protocol for instruction-address execution
//! traces gathered while deterministically replaying a recorded program run.
//!
//! A trace is recorded one checkpoint ("frame time") at a time into an
//! [`address_recorder::AddressRecorder`], which supports exact range queries
//! over the recorded addresses afterwards.

pub mod address_recorder;
pub mod block;
pub mod capture;
pub mod file_parsing;
pub mod lcs;
pub mod query;
pub mod shared_structs;
