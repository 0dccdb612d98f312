//! Network addresses as plain values.

use vstd::prelude::*;

verus! {

/// An IP address: the 32 bits of an IPv4 address or the 128 bits of an IPv6
/// address, most significant byte first.
#[derive(Clone, Copy, Debug, PartialEq, Eq, Hash, Structural)]
pub enum IpAddr {
    V4(u32),
    V6(u128),
}

/// A concrete endpoint address.
#[derive(Clone, Copy, Debug, PartialEq, Eq, Hash, Structural)]
pub struct SocketAddr {
    pub ip: IpAddr,
    pub port: u16,
}

/// The two halves of an IPv6 address as the control plane sends them.
#[derive(Clone, Copy, Debug, PartialEq, Eq, Structural)]
pub struct Ipv6Parts {
    pub first: u64,
    pub last: u64,
}

/// The address families of a control-plane message.
#[derive(Clone, Copy, Debug, PartialEq, Eq, Structural)]
pub enum Ip {
    Ipv4(u32),
    Ipv6(Ipv6Parts),
}

/// An IP address as the control plane sends it; the family may be missing.
#[derive(Clone, Copy, Debug, PartialEq, Eq, Structural)]
pub struct IpAddress {
    pub ip: Option<Ip>,
}

/// A TCP address as the control plane sends it.
#[derive(Clone, Copy, Debug, PartialEq, Eq, Structural)]
pub struct TcpAddress {
    pub ip: Option<IpAddress>,
    pub port: u32,
}

/// The integers by which an address is hashed and found again: the family
/// (4 or 6), the address bits and the port.
pub type AddrKey = (u8, u128, u16);

/// The 128 bits that two 64-bit halves make, `first` in the upper half.
pub open spec fn join_halves(first: u64, last: u64) -> u128 {
    ((first as u128) << 64) | (last as u128)
}

/// The low sixteen bits of a port field.
pub open spec fn low_port(port: u32) -> u16 {
    (port & 0xffff) as u16
}

/// The address that a control-plane address decodes to, if it names a
/// family.
pub open spec fn decoded(pb: TcpAddress) -> Option<SocketAddr> {
    match pb.ip {
        Some(IpAddress { ip: Some(Ip::Ipv4(bits)) }) => Some(
            SocketAddr { ip: IpAddr::V4(bits), port: low_port(pb.port) },
        ),
        Some(IpAddress { ip: Some(Ip::Ipv6(parts)) }) => Some(
            SocketAddr {
                ip: IpAddr::V6(join_halves(parts.first, parts.last)),
                port: low_port(pb.port),
            },
        ),
        _ => None,
    }
}

impl SocketAddr {
    pub fn new(ip: IpAddr, port: u16) -> (addr: SocketAddr)
        ensures
            addr.ip == ip,
            addr.port == port,
    {
        SocketAddr { ip, port }
    }

    /// The key of this address as a specification value.
    pub open spec fn spec_key(self) -> AddrKey {
        match self.ip {
            IpAddr::V4(bits) => (4u8, bits as u128, self.port),
            IpAddr::V6(bits) => (6u8, bits, self.port),
        }
    }

    /// The integers that identify this address.
    pub fn key(&self) -> (k: AddrKey)
        ensures
            k == self.spec_key(),
    {
        match self.ip {
            IpAddr::V4(bits) => (4u8, bits as u128, self.port),
            IpAddr::V6(bits) => (6u8, bits, self.port),
        }
    }

    /// Two addresses with one key are one address.
    pub proof fn key_is_injective(a: SocketAddr, b: SocketAddr)
        requires
            a.spec_key() == b.spec_key(),
        ensures
            a == b,
    {
    }
}

/// Decodes an address of a control-plane message. An address without a family
/// decodes to nothing; the port keeps its low sixteen bits.
pub fn pb_to_sock_addr(pb: TcpAddress) -> (addr: Option<SocketAddr>)
    ensures
        addr == decoded(pb),
{
    let port: u16 = (pb.port & 0xffff) as u16;
    match pb.ip {
        Some(ip) => match ip.ip {
            Some(Ip::Ipv4(bits)) => Some(SocketAddr { ip: IpAddr::V4(bits), port }),
            Some(Ip::Ipv6(v6)) => {
                let bits: u128 = ((v6.first as u128) << 64) | (v6.last as u128);
                Some(SocketAddr { ip: IpAddr::V6(bits), port })
            },
            None => None,
        },
        None => None,
    }
}

} // verus!
