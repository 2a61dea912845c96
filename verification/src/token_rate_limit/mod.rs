//! Token rate limiting: the quota ledger and the backends that keep it.
pub mod backend;
pub mod ledger;
