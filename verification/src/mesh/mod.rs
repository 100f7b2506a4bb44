//! Cluster fabric: membership, federation, VM hosts and the gossip engine's
//! decisions.

pub mod admin;
pub mod capabilities;
pub mod engine;
pub mod federation;
pub mod gossip_laws;
pub mod host;
pub mod host_laws;
pub mod hyper_host;
pub mod hyper_serial;
pub mod k8s;
pub mod kernel_laws;
pub mod membership;
pub mod metrics;
pub mod net;
pub mod observability;
pub mod path;
pub mod proto;
pub mod recovery_laws;
pub mod status;
pub mod supervisor;
pub mod table;
pub mod vault;
pub mod watch_laws;
