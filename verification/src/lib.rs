//! Data logic of a package catalog and vulnerability view: a purl-keyed
//! aggregation engine for affected packages, a backtrace index, a
//! paginated search state machine, and the link targets the
//! presentation layer renders.

pub mod aggregate;
pub mod backtrace;
pub mod key;
pub mod laws;
pub mod links;
pub mod order;
pub mod purl;
pub mod search;
