//! A DNS dynamic-update client core: a set-based model of resource record
//! sets, builders for RFC 2136 update requests, and the decisions that drive
//! monitoring of a change until every authoritative server serves it.

pub mod backend;
pub mod monitor;
pub mod name;
pub mod options;
pub mod query;
pub mod record;
pub mod text;
pub mod update;
pub mod update_message;
pub mod util;
