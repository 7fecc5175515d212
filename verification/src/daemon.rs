//! The decisions of the running node, peer by peer and event by event.
//!
//! Nothing here waits or touches the system. Each function takes what was
//! observed, changes the node's state, and hands back [`effects::Effect`]s and
//! relay commands for the caller to carry out.

pub mod discovery;
pub mod effects;
pub mod membership;
pub mod node;
pub mod peer;
pub mod relaying;
pub mod startup;
pub mod tick;
