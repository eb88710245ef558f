//! Unicast and multicast DNS and DNS service discovery.
use vstd::prelude::*;

pub mod hex;
pub mod laws;
pub mod name;
pub mod packet;
pub mod resolver;
pub mod service;

verus! {

/// Size of unicast DNS message buffers: unicast DNS messages are limited to 512 bytes.
pub const DNS_BUFFER_SIZE: usize = 512;

/// Size of multicast DNS message buffers.
pub const MDNS_BUFFER_SIZE: usize = 1500;

/// An IP address, by its octets.
#[derive(Clone, Copy, Debug, PartialEq, Eq)]
pub enum IpAddress {
    V4([u8; 4]),
    V6([u8; 16]),
}

} // verus!
