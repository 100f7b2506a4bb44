//! Read-only disk images: raw, qcow2, VMDK and VHDX.
//!
//! An image is opened from the bytes of its file. Each format also offers its
//! decoding in stages, from the bytes that a stage needs to the next place to
//! read, for callers that hold a file rather than its bytes.

pub mod any;
pub mod digest;
pub mod disk;
pub mod fault_laws;
pub mod format;
pub mod layout;
pub mod qcow2;
pub mod raw;
pub mod util;
pub mod vhdx;
pub mod vmdk;
