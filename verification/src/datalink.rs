//! Types shared by all datalink backends.
use vstd::prelude::*;

verus! {

/// The generic datalink channel configuration, as far as the WinpkFilter
/// backend reads it.
pub struct Config {
    /// Size of buffer to use when writing packets.
    pub write_buffer_size: usize,
    /// Size of buffer to use when reading packets.
    pub read_buffer_size: usize,
}

/// An IP address, by its octets in network order.
#[derive(Clone, Copy, Debug, PartialEq, Eq, Hash)]
pub enum IpAddress {
    /// An IPv4 address.
    V4([u8; 4]),
    /// An IPv6 address.
    V6([u8; 16]),
}

/// An IP network: an address and the length of its network prefix.
#[derive(Clone, Copy, Debug, PartialEq, Eq, Hash)]
pub struct IpPrefix {
    /// The address.
    pub addr: IpAddress,
    /// The number of leading bits that name the network.
    pub prefix: u8,
}

/// A network interface as the datalink layer describes it.
#[derive(Debug, PartialEq, Eq)]
pub struct NetworkInterface {
    /// The name of the interface.
    pub name: String,
    /// A description of the interface.
    pub description: String,
    /// The interface index (operating system specific).
    pub index: u32,
    /// A MAC address for the interface.
    pub mac: Option<[u8; 6]>,
    /// IP addresses and netmasks for the interface.
    pub ips: Vec<IpPrefix>,
    /// Operating system specific flags for the interface.
    pub flags: u32,
}

} // verus!
