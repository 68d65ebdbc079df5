//! A governance-voting ledger: an owner registers proposals and eligible
//! voters, each voter casts one weighted vote, and the ledger tabulates the
//! winning choice. Every operation is stated over a mathematical view of the
//! ledger and proved against it.

pub mod uint256;
pub mod errors;
pub mod append_list;
pub mod namespaced_map;
pub mod state;
pub mod tally;
pub mod ledger;
pub mod msg;
pub mod contract;
pub mod laws;
