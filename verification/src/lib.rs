//! IPv4 subnet partitioning for CIDR lengths /24 through /31.
//!
//! Given the first three octets of a network and a CIDR length, the
//! library computes the fourth-octet subnet mask, the block size and the
//! subnet count, enumerates every subnet's role addresses (network ID,
//! gateway, switch, usable host range, broadcast), and renders the
//! enumeration as dotted-decimal text and as a comma-delimited table.

pub mod parse;
pub mod partition;
pub mod render;
pub mod subnet;
