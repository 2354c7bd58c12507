//! Control-plane core of an endpoint-independent NAT: port-range algebra,
//! policy normalisation, runtime configuration building and reconciliation
//! planning, all stated over mathematical models and proved.

pub mod config;
pub mod diff;
pub mod engine;
pub mod error;
pub mod external;
pub mod instance;
pub mod ports;
pub mod prefix;
pub mod purge;
pub mod reconcile;
pub mod runtime;
pub mod tables;
pub mod trie;
