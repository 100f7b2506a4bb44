//! Celium: verified control-plane logic for a small virtualization stack.
//!
//! Three families of modules share one error type:
//!
//! * [`image`] decodes raw, qcow2, VMDK and VHDX disk images.
//! * [`mesh`] holds cluster membership, the federated VM namespace, the
//!   host-side VM life cycle and the decisions of the gossip engine.
//! * [`tenancy`] holds tenants, users, quotas, capabilities and sessions.
//!
//! Everything that touches a file, a socket or a clock lives outside this
//! crate and hands plain values in.

pub mod error;
pub mod image;
pub mod text;
pub mod mesh;
pub mod tenancy;
