//! Verified core of a proof-of-work mining client: the byte encodings and
//! difficulty checks of the mining puzzle, the search over candidate
//! solutions, the submission retry rules, the RPC node load balancer and the
//! state kept for the terminal dashboard.

pub mod bytes;
pub mod u256;
pub mod hashing;
pub mod bigint;
pub mod mining;
pub mod text;
pub mod submission;
pub mod load_balancer;
pub mod dashboard;
pub mod display;
pub mod event;
pub mod rpc;
pub mod wallet;
pub mod settings;
