//! The messages of the control plane's destination stream, as plain values.

use vstd::prelude::*;
use crate::addr::{decoded, pb_to_sock_addr, SocketAddr, TcpAddress};
use crate::cache::{pair_views, EntryView};
use crate::metadata::{addr_meta, pb_to_addr_meta, Label, Metadata, WeightedAddr};

verus! {

/// Addresses that were added, with the labels that all of them share.
#[derive(Debug)]
pub struct WeightedAddrSet {
    pub addrs: Vec<WeightedAddr>,
    pub metric_labels: Vec<Label>,
}

/// Addresses that were removed.
#[derive(Debug)]
pub struct AddrSet {
    pub addrs: Vec<TcpAddress>,
}

/// The destination has no endpoints; `exists` says whether it is known at
/// all.
#[derive(Clone, Copy, Debug, PartialEq, Eq, Structural)]
pub struct NoEndpoints {
    pub exists: bool,
}

/// What one message of the stream says.
#[derive(Debug)]
pub enum PbUpdate2 {
    Add(WeightedAddrSet),
    Remove(AddrSet),
    NoEndpoints(NoEndpoints),
}

/// One message of the stream; it may say nothing.
#[derive(Debug)]
pub struct PbUpdate {
    pub update: Option<PbUpdate2>,
}

/// How a drain of the stream ended.
#[derive(Clone, Copy, Debug, PartialEq, Eq, Structural)]
pub enum StreamEnd {
    /// The stream is open and has nothing more for now.
    Pending,
    /// The stream ended.
    Ended,
    /// The stream failed.
    Errored,
}

/// The endpoints that the addresses of an "added" message stand for, in
/// order; an address that does not decode is passed over.
pub open spec fn decoded_adds(addrs: Seq<WeightedAddr>, labels: Seq<Label>) -> Seq<EntryView>
    decreases addrs.len(),
{
    if addrs.len() == 0 {
        Seq::empty()
    } else {
        match addr_meta(addrs.last(), labels) {
            Some(entry) => decoded_adds(addrs.drop_last(), labels).push(entry),
            None => decoded_adds(addrs.drop_last(), labels),
        }
    }
}

/// The addresses of a "removed" message, in order; an address that does not
/// decode is passed over.
pub open spec fn decoded_removes(addrs: Seq<TcpAddress>) -> Seq<SocketAddr>
    decreases addrs.len(),
{
    if addrs.len() == 0 {
        Seq::empty()
    } else {
        match decoded(addrs.last()) {
            Some(addr) => decoded_removes(addrs.drop_last()).push(addr),
            None => decoded_removes(addrs.drop_last()),
        }
    }
}

proof fn pair_views_push(pairs: Seq<(SocketAddr, Metadata)>, pair: (SocketAddr, Metadata))
    ensures
        pair_views(pairs.push(pair)) == pair_views(pairs).push((pair.0, pair.1@)),
{
    assert(pair_views(pairs.push(pair)) =~= pair_views(pairs).push((pair.0, pair.1@)));
}

/// Decodes the addresses of an "added" message.
pub fn decode_adds(set: &WeightedAddrSet) -> (pairs: Vec<(SocketAddr, Metadata)>)
    ensures
        pair_views(pairs@) == decoded_adds(set.addrs@, set.metric_labels@),
{
    let mut pairs: Vec<(SocketAddr, Metadata)> = Vec::new();
    assert(pair_views(pairs@) =~= Seq::<EntryView>::empty());
    let mut i: usize = 0;
    while i < set.addrs.len()
        invariant
            i <= set.addrs.len(),
            pair_views(pairs@) == decoded_adds(set.addrs@.take(i as int), set.metric_labels@),
        decreases set.addrs.len() - i,
    {
        proof {
            assert(set.addrs@.take(i + 1).drop_last() == set.addrs@.take(i as int));
            assert(set.addrs@.take(i + 1).last() == set.addrs@[i as int]);
        }
        match pb_to_addr_meta(&set.addrs[i], &set.metric_labels) {
            Some(pair) => {
                proof {
                    pair_views_push(pairs@, pair);
                }
                pairs.push(pair);
            },
            None => {},
        }
        i += 1;
    }
    proof {
        assert(set.addrs@.take(i as int) == set.addrs@);
    }
    pairs
}

/// Decodes the addresses of a "removed" message.
pub fn decode_removes(set: &AddrSet) -> (keys: Vec<SocketAddr>)
    ensures
        keys@ == decoded_removes(set.addrs@),
{
    let mut keys: Vec<SocketAddr> = Vec::new();
    let mut i: usize = 0;
    while i < set.addrs.len()
        invariant
            i <= set.addrs.len(),
            keys@ == decoded_removes(set.addrs@.take(i as int)),
        decreases set.addrs.len() - i,
    {
        proof {
            assert(set.addrs@.take(i + 1).drop_last() == set.addrs@.take(i as int));
            assert(set.addrs@.take(i + 1).last() == set.addrs@[i as int]);
        }
        match pb_to_sock_addr(set.addrs[i]) {
            Some(addr) => {
                keys.push(addr);
            },
            None => {},
        }
        i += 1;
    }
    proof {
        assert(set.addrs@.take(i as int) == set.addrs@);
    }
    keys
}

} // verus!
