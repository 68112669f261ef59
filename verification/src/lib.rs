//! The logic of a provisioning proxy.
//!
//! A client in a guest connects over vsock and is connected to a server over TCP. A policy lists
//! the servers that may be connected to and how many bytes each may be sent in all.

pub mod address_laws;
pub mod cid;
pub mod connection;
pub mod conproto;
pub mod error;
pub mod ip;
pub mod notation_laws;
pub mod policy;
pub mod policy_laws;
pub mod protocol_laws;
pub mod relay_laws;
pub mod startup;
pub mod stream_helpers;
pub mod text;
