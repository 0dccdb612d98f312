//! Where an outbound request goes, and how a destination that is not
//! resolved by name is discovered.

use vstd::prelude::*;
use crate::addr::SocketAddr;
use crate::metadata::{Endpoint, Metadata};
use crate::rebind::{stepped, to_rebind};
use crate::resolution::{Bind, Change, Resolution, Step};

verus! {

/// Where an outbound request is sent.
#[derive(Debug)]
pub enum Destination {
    /// A service inside the cluster, by its fully qualified name.
    LocalSvc(String),
    /// An address outside of it.
    External(SocketAddr),
}

/// A destination as a specification value.
pub ghost enum DestinationView {
    LocalSvc(Seq<char>),
    External(SocketAddr),
}

impl View for Destination {
    type V = DestinationView;

    open spec fn view(&self) -> DestinationView {
        match self {
            Destination::LocalSvc(name) => DestinationView::LocalSvc(name@),
            Destination::External(addr) => DestinationView::External(*addr),
        }
    }
}

/// The protocol that a request is forwarded with.
#[derive(Clone, Copy, Debug, PartialEq, Eq, Hash, Structural)]
pub enum Protocol {
    Http1,
    Http2,
}

/// The key under which a request is routed: a request whose authority is a
/// name inside the cluster goes to that service; any other goes to the
/// address it was first sent to, and nowhere if that is not known or is the
/// proxy itself. HTTP/2 requests are forwarded as HTTP/2, all others as
/// HTTP/1.
pub fn recognize(local: Option<String>, orig_dst: Option<SocketAddr>, is_http2: bool) -> (key:
    Option<(Destination, Protocol)>)
    ensures
        key is None <==> local is None && orig_dst is None,
        key is Some ==> ({
            let (dest, proto) = key->0;
            &&& proto == if is_http2 {
                Protocol::Http2
            } else {
                Protocol::Http1
            }
            &&& dest@ == match local {
                Some(name) => DestinationView::LocalSvc(name@),
                None => DestinationView::External(orig_dst->0),
            }
        }),
{
    let dest = match local {
        Some(name) => Destination::LocalSvc(name),
        None => match orig_dst {
            Some(addr) => Destination::External(addr),
            None => {
                return None;
            },
        },
    };
    let proto = if is_http2 {
        Protocol::Http2
    } else {
        Protocol::Http1
    };
    Some((dest, proto))
}

/// What a poll of a discovery gave.
pub enum Discovered<S> {
    /// A change for the load balancer.
    Ready(Change<S>),
    /// Nothing now, and nothing later unless something else changes.
    NotReady,
    /// Binding an endpoint failed.
    Failed,
    /// Nothing is left to bind again: the next update decides.
    AwaitUpdate,
}

/// How the endpoints of a destination are discovered.
pub enum Discovery<B: Bind> {
    /// A service inside the cluster: by its resolution.
    LocalSvc(Resolution<B>),
    /// An address outside of it: found once, never changed.
    External(Option<(SocketAddr, B)>),
}

impl<B: Bind> Discovery<B> {
    /// The invariant of a discovery: that of its resolution, if it has one.
    pub open spec fn wf(&self) -> bool {
        match self {
            Discovery::LocalSvc(resolution) => resolution.wf(),
            Discovery::External(_) => true,
        }
    }

    /// One poll. A resolution hands out an endpoint that is to be bound
    /// again, if there is one, and else waits for the next update. A fixed
    /// address is handed out, bound, at the first poll; nothing is ready at
    /// any later one.
    pub fn poll(&mut self) -> (found: Discovered<B::Service>)
        requires
            old(self).wf(),
        ensures
            final(self).wf(),
            match *old(self) {
                Discovery::LocalSvc(before) => {
                    &&& *final(self) is LocalSvc
                    &&& (*final(self))->LocalSvc_0.rebind_view() == stepped(before.rebind_view())
                    &&& !(found is NotReady)
                    &&& found is AwaitUpdate <==> to_rebind(before.rebind_view()) is None
                    &&& found is Ready ==> found->Ready_0 is Insert && Some(
                        found->Ready_0->Insert_0,
                    ) == first_of(to_rebind(before.rebind_view()))
                },
                Discovery::External(pending) => {
                    &&& *final(self) == Discovery::<B>::External(None)
                    &&& !(found is AwaitUpdate)
                    &&& found is NotReady <==> pending is None
                    &&& found is Ready ==> found->Ready_0 is Insert && Some(
                        found->Ready_0->Insert_0,
                    ) == first_of(pending)
                },
            },
    {
        match self {
            Discovery::LocalSvc(resolution) => match resolution.poll_rebind() {
                Some(Step::Ready(change)) => Discovered::Ready(change),
                Some(Step::Failed) => Discovered::Failed,
                _ => Discovered::AwaitUpdate,
            },
            Discovery::External(pending) => {
                let mut taken: Option<(SocketAddr, B)> = None;
                std::mem::swap(pending, &mut taken);
                match taken {
                    Some((addr, bind)) => {
                        let endpoint = Endpoint::new(addr, Metadata::no_metadata());
                        match bind.bind(&endpoint) {
                            Ok(service) => Discovered::Ready(Change::Insert(addr, service)),
                            Err(_) => Discovered::Failed,
                        }
                    },
                    None => Discovered::NotReady,
                }
            },
        }
    }
}

/// The address of a pair that may be missing.
pub open spec fn first_of<T>(pair: Option<(SocketAddr, T)>) -> Option<SocketAddr> {
    match pair {
        Some((addr, _)) => Some(addr),
        None => None,
    }
}

} // verus!
