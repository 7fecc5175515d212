//! The WireGuard device: what it should be, what it reports, and the parts of
//! its back ends that only compute.

pub mod kernel;
pub mod mock;
pub mod types;
