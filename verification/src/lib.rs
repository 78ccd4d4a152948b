//! Host identity and network-interface inventory.
//!
//! The library normalizes OS-provided interface/address streams into one
//! consolidated record per active interface, formats link-layer, IPv4 and
//! IPv6 addresses, and assembles the interface table together with the two
//! host-identity scalars into a single result. All OS calls live outside the
//! library; they hand in plain values (raw entries, byte buffers, strings)
//! and receive plain values back.

pub mod types;
pub mod addr_fmt;
pub mod aggregate;
pub mod identity;
pub mod assemble;
