//! Core of an Interledger-style value-transfer protocol stack: the
//! variable-octet-string codec, the validated hierarchical address, the
//! transport-independent packet types, the peer-configuration sub-protocol,
//! and the settlement amount-scaling rules built on top of them.

pub mod errors;
pub mod oer;
pub mod address;
pub mod packet;
pub mod ildcp;
pub mod settlement;
pub mod spsp;
