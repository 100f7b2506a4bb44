//! Tenants, users, capabilities, quotas and sessions.

pub mod audit;
pub mod auth;
pub mod caps;
pub mod cli;
pub mod cli_laws;
pub mod denial_laws;
pub mod entitlements;
pub mod exec;
pub mod exec_laws;
pub mod family_laws;
pub mod hierarchy;
pub mod namespace;
pub mod quota;
pub mod runtime;
pub mod session;
pub mod store;
pub mod store_laws;
pub mod store_runs;
pub mod tenant;
pub mod trail;
pub mod user;
