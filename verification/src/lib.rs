//! Service discovery for a sidecar proxy: resolving a destination name to a
//! continuously updated set of endpoints.
//!
//! The library holds the decisions of discovery as verified state machines.
//! The surrounding program performs the waiting (the control-plane stream, DNS,
//! channels to subscribers) and hands every outcome to the library as a plain
//! value.

pub mod addr;
pub mod authority;
pub mod background;
pub mod background_laws;
pub mod cache;
pub mod cache_laws;
pub mod config;
pub mod ctx;
pub mod destination_laws;
pub mod destination_set;
pub mod existence;
pub mod messages;
pub mod metadata;
pub mod outbound;
pub mod rebind;
pub mod rebind_laws;
pub mod resolution;
pub mod responder;
