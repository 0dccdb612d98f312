//! The name of a logical destination.

use vstd::prelude::*;

verus! {

/// A DNS name and a port: what a destination is asked for by. It does not
/// change once made, and is compared by value.
#[derive(Debug)]
pub struct DnsNameAndPort {
    pub host: String,
    pub port: u16,
}

impl View for DnsNameAndPort {
    type V = (Seq<char>, u16);

    open spec fn view(&self) -> (Seq<char>, u16) {
        (self.host@, self.port)
    }
}

impl Clone for DnsNameAndPort {
    fn clone(&self) -> (copy: DnsNameAndPort)
        ensures
            copy@ == self@,
    {
        DnsNameAndPort { host: self.host.clone(), port: self.port }
    }
}

impl DnsNameAndPort {
    pub fn new(host: String, port: u16) -> (authority: DnsNameAndPort)
        ensures
            authority@ == (host@, port),
    {
        DnsNameAndPort { host, port }
    }

    /// Whether two authorities name the same host and port.
    pub fn same(&self, other: &DnsNameAndPort) -> (b: bool)
        ensures
            b == (self@ == other@),
    {
        self.port == other.port && self.host == other.host
    }
}

} // verus!
