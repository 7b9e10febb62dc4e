//! Reconciliation of answers from several independent Ethereum JSON-RPC
//! providers into one verdict, before that verdict may influence minting.
//!
//! Alongside: the state changes of the ckBTC minter that its event log
//! records, the copying of inactive neurons to stable memory, and small
//! configuration records.

pub mod providers;
pub mod eth_rpc;
pub mod outcome_map;
pub mod eth_rpc_client;
pub mod state;
pub mod dispatch;
pub mod requests;
pub mod minter_state;
pub mod audit;
pub mod neuron_store;
pub mod embedders;
pub mod metrics;
