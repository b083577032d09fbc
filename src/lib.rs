//! Keeps one project's instance on a managed cloud reachable at a stable local
//! endpoint: the decisions of the reconciliation passes, the scanning of the
//! provisioning tool's output, and the cache that requests are answered from.

pub mod args;
pub mod info;
pub mod provision;
pub mod reconcile;
pub mod resolve;
pub mod scan;
pub mod state;
pub mod text;
pub mod urlgroup;
pub mod urls;
