//! The background process: every destination that someone watches, and the
//! work that keeps them resolved.
//!
//! The process decides; its owner waits. The owner polls the control-plane
//! client, the streams, the DNS queries and the queue of requests, and hands
//! each outcome to the process, which returns what to start next.

use vstd::prelude::*;
use crate::authority::DnsNameAndPort;
use crate::destination_set::{
    dns_next, dns_polled, joined, service_outcome, serviced, DestinationSet, DnsPoll, DnsQuery,
    Remote, ServiceOutcome, SetView,
};
use crate::existence::Exists;
use crate::messages::{PbUpdate, StreamEnd};
use crate::responder::{
    closed_for, delivery_views, live, queued_for, with_empty_queues, Delivery, Responder,
    ResponderView,
};

verus! {

/// The scheme under which the control plane is asked for a destination.
pub open spec fn scheme() -> Seq<char> {
    "k8s"@
}

/// A request to the control plane for the updates of one destination.
#[derive(Debug)]
pub struct Destination {
    pub scheme: String,
    pub path: String,
}

/// A request that updates for `authority` be sent on `responder`.
///
/// `qualified` is the authority as a fully qualified name inside the
/// cluster, without a trailing dot, where it can be so qualified. Only such
/// a destination is asked of the control plane; any other relies on DNS.
#[derive(Debug)]
pub struct ResolveRequest {
    pub authority: DnsNameAndPort,
    pub qualified: Option<String>,
    pub responder: Responder,
}

/// What the poll of the control-plane client gave.
#[derive(Clone, Copy, Debug, PartialEq, Eq, Structural)]
pub enum Readiness {
    Ready,
    NotReady,
    Failed,
}

/// What a resolve request asks the owner to start: a stream to the control
/// plane, or a DNS query.
#[derive(Debug)]
pub struct Started {
    pub query: Option<Destination>,
    pub dns: Option<DnsQuery>,
}

/// What a drain of one control-plane stream gave.
#[derive(Debug)]
pub struct Drained {
    pub messages: Vec<PbUpdate>,
    pub end: StreamEnd,
}

/// How one round of draining the request queue goes on.
#[derive(Debug)]
pub enum Drain {
    /// The client is not ready: stop, and leave the requests queued.
    Stop,
    /// A reconnect was started; poll the client again.
    Reconnected(Reconnect),
    /// No reconnect is wanted: take the next request off the queue.
    TakeRequest,
}

/// A reconnect that was started: for which destination, and the request to
/// send where the control plane is asked.
#[derive(Debug)]
pub struct Reconnect {
    pub authority: DnsNameAndPort,
    pub query: Option<Destination>,
}

/// One watched destination.
#[derive(Debug)]
pub struct Watch {
    authority: DnsNameAndPort,
    qualified: Option<String>,
    set: DestinationSet,
}

/// A watched destination as a specification value.
pub ghost struct WatchView {
    pub authority: (Seq<char>, u16),
    pub qualified: Option<Seq<char>>,
    pub set: SetView,
}

/// The view of a name that may be missing.
pub open spec fn name_view(name: Option<String>) -> Option<Seq<char>> {
    match name {
        Some(s) => Some(s@),
        None => None,
    }
}

impl View for Watch {
    type V = WatchView;

    closed spec fn view(&self) -> WatchView {
        WatchView {
            authority: self.authority@,
            qualified: name_view(self.qualified),
            set: self.set@,
        }
    }
}

impl Watch {
    pub fn authority(&self) -> (authority: &DnsNameAndPort)
        ensures
            authority@ == self@.authority,
    {
        &self.authority
    }

    pub fn set(&self) -> (set: &DestinationSet)
        ensures
            set@ == self@.set,
    {
        &self.set
    }
}

/// Stores the configuration for a background process.
#[derive(Debug)]
pub struct Config {
    default_destination_namespace: String,
}

impl Config {
    pub fn new(default_destination_namespace: String) -> (config: Config)
        ensures
            config.namespace() == default_destination_namespace@,
    {
        Config { default_destination_namespace }
    }

    /// The namespace relative to which names are qualified.
    pub closed spec fn namespace(&self) -> Seq<char> {
        self.default_destination_namespace@
    }

    /// The process that this configuration describes: it watches nothing
    /// yet, and takes its client for not ready until told otherwise.
    pub fn process(self) -> (process: Process)
        ensures
            process.wf(),
            process@ == (ProcessView {
                default_destination_namespace: self.namespace(),
                destinations: Seq::empty(),
                reconnects: Seq::empty(),
                rpc_ready: false,
            }),
    {
        Process::new(self.default_destination_namespace)
    }
}

/// Satisfies resolutions as they are requested.
#[derive(Debug)]
pub struct Process {
    default_destination_namespace: String,
    destinations: Vec<Watch>,
    /// Authorities whose stream must be opened again, oldest first.
    reconnects: Vec<DnsNameAndPort>,
    /// Whether the control-plane client was ready at its last poll.
    rpc_ready: bool,
}

/// A process as a specification value.
pub ghost struct ProcessView {
    pub default_destination_namespace: Seq<char>,
    pub destinations: Seq<WatchView>,
    pub reconnects: Seq<(Seq<char>, u16)>,
    pub rpc_ready: bool,
}

/// The watches of a list, each by its view.
pub open spec fn watch_views(watches: Seq<Watch>) -> Seq<WatchView> {
    watches.map_values(|w: Watch| w@)
}

/// The authorities of a list, each by its view.
pub open spec fn authority_views(authorities: Seq<DnsNameAndPort>) -> Seq<(Seq<char>, u16)> {
    authorities.map_values(|a: DnsNameAndPort| a@)
}

/// Whether the authority is watched.
pub open spec fn is_watched(ws: Seq<WatchView>, authority: (Seq<char>, u16)) -> bool {
    exists|i: int| 0 <= i < ws.len() && (#[trigger] ws[i]).authority == authority
}

/// The place of the watch of an authority, where it is watched.
pub open spec fn watch_position(ws: Seq<WatchView>, authority: (Seq<char>, u16)) -> int {
    choose|i: int| 0 <= i < ws.len() && (#[trigger] ws[i]).authority == authority
}

/// No authority is watched twice.
pub open spec fn distinct_authorities(ws: Seq<WatchView>) -> bool {
    forall|i: int, j: int|
        0 <= i < j < ws.len() ==> (#[trigger] ws[i]).authority != (#[trigger] ws[j]).authority
}

/// The state of the control-plane query of a destination that is asked for:
/// a stream where the name is qualified, none where it is not.
pub open spec fn query_for(qualified: Option<Seq<char>>) -> Option<Remote> {
    match qualified {
        Some(_) => Some(Remote::ConnectedOrConnecting),
        None => None,
    }
}

/// The set of a destination that was asked for the first time. A
/// destination that the control plane is not asked of starts with a DNS
/// query without delay.
pub open spec fn first_set(qualified: Option<Seq<char>>, r: ResponderView) -> SetView {
    SetView {
        existence: Exists::Unknown,
        entries: Seq::empty(),
        resets_next: false,
        query: query_for(qualified),
        dns_query: match qualified {
            Some(_) => None,
            None => Some(DnsQuery { delay_secs: 0 }),
        },
        responders: seq![r],
    }
}

/// The watches after a resolve request: a watched destination gets one more
/// responder, which is first told of all that is cached; a new destination
/// gets its watch, last.
pub open spec fn requested(
    ws: Seq<WatchView>,
    authority: (Seq<char>, u16),
    qualified: Option<Seq<char>>,
    r: ResponderView,
) -> Seq<WatchView> {
    if is_watched(ws, authority) {
        let i = watch_position(ws, authority);
        ws.update(i, WatchView { set: joined(ws[i].set, r), ..ws[i] })
    } else {
        ws.push(WatchView { authority, qualified, set: first_set(qualified, r) })
    }
}

/// The watches without dead responders, and without the destinations that
/// no live responder is left for.
pub open spec fn retained(ws: Seq<WatchView>) -> Seq<WatchView>
    decreases ws.len(),
{
    if ws.len() == 0 {
        ws
    } else if live(ws.last().set.responders).len() > 0 {
        retained(ws.drop_last()).push(
            WatchView {
                set: SetView { responders: live(ws.last().set.responders), ..ws.last().set },
                ..ws.last()
            },
        )
    } else {
        retained(ws.drop_last())
    }
}

/// The watches after the subscriber `id` went away.
pub open spec fn dropped(ws: Seq<WatchView>, id: u64) -> Seq<WatchView> {
    ws.map_values(
        |w: WatchView|
            WatchView {
                set: SetView { responders: closed_for(w.set.responders, id), ..w.set },
                ..w
            },
    )
}

/// The watches after a service tick of each, given what the drain of each
/// one's stream gave.
pub open spec fn serviced_all(ws: Seq<WatchView>, drained: Seq<Drained>) -> Seq<WatchView> {
    Seq::new(
        ws.len(),
        |i: int|
            WatchView { set: serviced(ws[i].set, drained[i].messages@, drained[i].end), ..ws[i] },
    )
}

/// What the service tick of each watch asks for.
pub open spec fn outcomes_all(ws: Seq<WatchView>, drained: Seq<Drained>) -> Seq<ServiceOutcome> {
    Seq::new(
        ws.len(),
        |i: int| service_outcome(ws[i].set, drained[i].messages@, drained[i].end),
    )
}

/// The authorities among the first `n` watches whose stream is gone after
/// the service tick, in the watches' order.
pub open spec fn gone_among(ws: Seq<WatchView>, drained: Seq<Drained>, n: int) -> Seq<
    (Seq<char>, u16),
>
    decreases n,
{
    if n <= 0 {
        Seq::empty()
    } else if service_outcome(
        ws[n - 1].set,
        drained[n - 1].messages@,
        drained[n - 1].end,
    ).reconnect {
        gone_among(ws, drained, n - 1).push(ws[n - 1].authority)
    } else {
        gone_among(ws, drained, n - 1)
    }
}

/// How many authorities at the head of the reconnect queue are passed over
/// because they are no longer watched.
pub open spec fn stale_reconnects(ws: Seq<WatchView>, queue: Seq<(Seq<char>, u16)>) -> int
    decreases queue.len(),
{
    if queue.len() == 0 {
        0
    } else if is_watched(ws, queue[0]) {
        0
    } else {
        1 + stale_reconnects(ws, queue.skip(1))
    }
}

/// The place in the reconnect queue of the first authority that is still
/// watched; the length of the queue where there is none.
pub open spec fn first_wanted(p: ProcessView) -> int {
    stale_reconnects(p.destinations, p.reconnects)
}

/// What a poll of the reconnect queue does. Where no authority of the
/// queue is watched any more, the queue is emptied and nothing is started.
/// Otherwise the queue loses everything up to and with the first authority
/// that is still watched, and that destination's query is a stream again
/// where its name is qualified, and none where it is not.
pub open spec fn reconnected(before: ProcessView, started: Option<Reconnect>, after: ProcessView) -> bool {
    let ws = before.destinations;
    let queue = before.reconnects;
    let stale = first_wanted(before);
    &&& after.rpc_ready == before.rpc_ready
    &&& after.default_destination_namespace == before.default_destination_namespace
    &&& 0 <= stale <= queue.len()
    &&& started is None <==> stale == queue.len()
    &&& started is None ==> after.reconnects == Seq::<(Seq<char>, u16)>::empty()
        && after.destinations == ws
    &&& started is Some ==> ({
        let i = watch_position(ws, queue[stale]);
        &&& started->0.authority@ == queue[stale]
        &&& (started->0.query is Some <==> ws[i].qualified is Some)
        &&& (started->0.query is Some ==> started->0.query->0.scheme@ == scheme() && Some(
            started->0.query->0.path@,
        ) == ws[i].qualified)
        &&& after.reconnects == queue.skip(stale + 1)
        &&& after.destinations == ws.update(
            i,
            WatchView { set: SetView { query: query_for(ws[i].qualified), ..ws[i].set }, ..ws[i] },
        )
    })
}

proof fn stale_reconnects_in_range(ws: Seq<WatchView>, queue: Seq<(Seq<char>, u16)>)
    ensures
        0 <= stale_reconnects(ws, queue) <= queue.len(),
    decreases queue.len(),
{
    if queue.len() > 0 && !is_watched(ws, queue[0]) {
        stale_reconnects_in_range(ws, queue.skip(1));
    }
}

/// In a sequence without repeated authorities, the watch of an authority is
/// found at its one place.
pub proof fn watch_position_is_unique(ws: Seq<WatchView>, i: int)
    requires
        distinct_authorities(ws),
        0 <= i < ws.len(),
    ensures
        is_watched(ws, ws[i].authority),
        watch_position(ws, ws[i].authority) == i,
{
    let a = ws[i].authority;
    assert(is_watched(ws, a));
    let p = watch_position(ws, a);
    assert(ws[p].authority == a);
    if p < i {
        assert(ws[p].authority != ws[i].authority);
    } else if i < p {
        assert(ws[i].authority != ws[p].authority);
    }
}

fn copy_name(name: &Option<String>) -> (copy: Option<String>)
    ensures
        name_view(copy) == name_view(*name),
{
    match name {
        Some(s) => Some(s.clone()),
        None => None,
    }
}

/// The request to the control plane for a destination, where its name is
/// qualified inside the cluster; nothing where it is not.
pub fn query_destination_service_if_relevant(qualified: &Option<String>) -> (request: Option<
    Destination,
>)
    ensures
        request is Some <==> qualified is Some,
        request is Some ==> request->0.scheme@ == scheme() && request->0.path@
            == qualified->0@,
{
    match qualified {
        Some(name) => Some(Destination { scheme: "k8s".to_owned(), path: name.clone() }),
        None => None,
    }
}

impl View for Process {
    type V = ProcessView;

    closed spec fn view(&self) -> ProcessView {
        ProcessView {
            default_destination_namespace: self.default_destination_namespace@,
            destinations: watch_views(self.destinations@),
            reconnects: authority_views(self.reconnects@),
            rpc_ready: self.rpc_ready,
        }
    }
}

proof fn watch_views_push(ws: Seq<Watch>, w: Watch)
    ensures
        watch_views(ws.push(w)) == watch_views(ws).push(w@),
{
    assert(watch_views(ws.push(w)) =~= watch_views(ws).push(w@));
}

proof fn watch_views_replace(ws: Seq<Watch>, i: int, w: Watch)
    requires
        0 <= i < ws.len(),
    ensures
        watch_views(ws.remove(i).insert(i, w)) == watch_views(ws).update(i, w@),
{
    assert(watch_views(ws.remove(i).insert(i, w)) =~= watch_views(ws).update(i, w@));
}

proof fn authority_views_push(queue: Seq<DnsNameAndPort>, a: DnsNameAndPort)
    ensures
        authority_views(queue.push(a)) == authority_views(queue).push(a@),
{
    assert(authority_views(queue.push(a)) =~= authority_views(queue).push(a@));
}

proof fn authority_views_skip(queue: Seq<DnsNameAndPort>)
    requires
        queue.len() > 0,
    ensures
        authority_views(queue.remove(0)) == authority_views(queue).skip(1),
{
    assert(authority_views(queue.remove(0)) =~= authority_views(queue).skip(1));
}

impl Process {
    /// The invariant of a process: no authority is watched twice, and every
    /// destination set is well formed.
    pub closed spec fn wf(&self) -> bool {
        &&& distinct_authorities(self@.destinations)
        &&& forall|i: int| 0 <= i < self.destinations@.len() ==> (#[trigger] self.destinations@[i]).set.wf()
    }

    /// In a well-formed process no authority is watched twice.
    pub proof fn wf_means(&self)
        requires
            self.wf(),
        ensures
            distinct_authorities(self@.destinations),
    {
    }

    /// A process that watches nothing.
    pub fn new(default_destination_namespace: String) -> (process: Process)
        ensures
            process.wf(),
            process@ == (ProcessView {
                default_destination_namespace: default_destination_namespace@,
                destinations: Seq::empty(),
                reconnects: Seq::empty(),
                rpc_ready: false,
            }),
    {
        let process = Process {
            default_destination_namespace,
            destinations: Vec::new(),
            reconnects: Vec::new(),
            rpc_ready: false,
        };
        assert(process@.destinations =~= Seq::<WatchView>::empty());
        assert(process@.reconnects =~= Seq::<(Seq<char>, u16)>::empty());
        process
    }

    /// The namespace relative to which names are qualified.
    pub fn default_destination_namespace(&self) -> (namespace: &String)
        ensures
            namespace@ == self@.default_destination_namespace,
    {
        &self.default_destination_namespace
    }

    /// The watched destinations, in the order in which they were first
    /// asked for.
    pub fn destinations(&self) -> (watches: &Vec<Watch>)
        ensures
            watch_views(watches@) == self@.destinations,
    {
        &self.destinations
    }

    /// The authorities whose stream must be opened again, oldest first.
    pub fn reconnects(&self) -> (queue: &Vec<DnsNameAndPort>)
        ensures
            authority_views(queue@) == self@.reconnects,
    {
        &self.reconnects
    }

    pub fn rpc_ready(&self) -> (ready: bool)
        ensures
            ready == self@.rpc_ready,
    {
        self.rpc_ready
    }

    /// Records what the poll of the control-plane client gave. Returns
    /// whether requests may be handled now: only a ready client lets them.
    pub fn poll_ready(&mut self, readiness: Readiness) -> (ready: bool)
        ensures
            ready == (readiness is Ready),
            final(self)@ == (ProcessView { rpc_ready: ready, ..old(self)@ }),
            old(self).wf() ==> final(self).wf(),
    {
        self.rpc_ready = match readiness {
            Readiness::Ready => true,
            _ => false,
        };
        self.rpc_ready
    }

    /// Whether the steps of a tick must be run once more: there is
    /// reconnect work and the client is ready for it.
    pub fn has_reconnect_work(&self) -> (more: bool)
        ensures
            more == (self@.reconnects.len() > 0 && self@.rpc_ready),
    {
        self.reconnects.len() > 0 && self.rpc_ready
    }

    fn find(&self, authority: &DnsNameAndPort) -> (found: Option<usize>)
        requires
            self.wf(),
        ensures
            found is Some <==> is_watched(self@.destinations, authority@),
            found is Some ==> found->0 == watch_position(self@.destinations, authority@)
                && found->0 < self.destinations@.len(),
    {
        let mut i: usize = 0;
        while i < self.destinations.len()
            invariant
                i <= self.destinations.len(),
                self.wf(),
                forall|j: int| 0 <= j < i ==> (#[trigger] self@.destinations[j]).authority != authority@,
            decreases self.destinations.len() - i,
        {
            if self.destinations[i].authority.same(authority) {
                proof {
                    assert(self@.destinations[i as int].authority == authority@);
                    watch_position_is_unique(self@.destinations, i as int);
                }
                return Some(i);
            }
            i += 1;
        }
        None
    }

    /// The place of the watch of an authority, if it is watched.
    pub fn position_of(&self, authority: &DnsNameAndPort) -> (found: Option<usize>)
        requires
            self.wf(),
        ensures
            found is Some <==> is_watched(self@.destinations, authority@),
            found is Some ==> found->0 == watch_position(self@.destinations, authority@)
                && found->0 < self@.destinations.len(),
    {
        self.find(authority)
    }

    /// Handles one resolve request. For a destination that is watched
    /// already, the new responder is first told of every cached endpoint
    /// and then joins the others; nothing is started. For a new destination
    /// a stream to the control plane is started where its name is
    /// qualified, and a DNS query without delay where it is not.
    pub fn handle_resolve(&mut self, resolve: ResolveRequest) -> (started: Started)
        requires
            old(self).wf(),
        ensures
            final(self).wf(),
            final(self)@ == (ProcessView {
                destinations: requested(
                    old(self)@.destinations,
                    resolve.authority@,
                    name_view(resolve.qualified),
                    resolve.responder@,
                ),
                ..old(self)@
            }),
            is_watched(old(self)@.destinations, resolve.authority@) ==> started.query is None
                && started.dns is None,
            !is_watched(old(self)@.destinations, resolve.authority@) ==> (started.query is Some
                <==> resolve.qualified is Some) && (started.query is Some ==> started.query->0.scheme@
                == scheme() && started.query->0.path@ == resolve.qualified->0@) && started.dns == (
            if resolve.qualified is Some {
                None
            } else {
                Some(DnsQuery { delay_secs: 0 })
            }),
    {
        let ResolveRequest { authority, qualified, responder } = resolve;
        match self.find(&authority) {
            Some(i) => {
                let ghost before = self.destinations@;
                let mut watch = self.destinations.remove(i);
                watch.set.subscribe(responder);
                proof {
                    watch_views_replace(before, i as int, watch);
                }
                self.destinations.insert(i, watch);
                proof {
                    assert forall|k: int| 0 <= k < self.destinations@.len() implies (
                    #[trigger] self.destinations@[k]).set.wf() by {
                        if k != i {
                            assert(self.destinations@[k] == before[k]);
                        }
                    }
                    assert(self@.destinations[i as int].authority == authority@);
                }
                Started { query: None, dns: None }
            },
            None => {
                let query = query_destination_service_if_relevant(&qualified);
                let state = match &query {
                    Some(_) => Some(Remote::ConnectedOrConnecting),
                    None => None,
                };
                let mut set = DestinationSet::new(state, responder);
                let dns = if query.is_none() {
                    Some(set.reset_dns_query(0))
                } else {
                    None
                };
                let ghost before = self.destinations@;
                let watch = Watch { authority, qualified, set };
                proof {
                    watch_views_push(before, watch);
                }
                self.destinations.push(watch);
                proof {
                    assert forall|k: int| 0 <= k < self.destinations@.len() implies (
                    #[trigger] self.destinations@[k]).set.wf() by {
                        if k < before.len() {
                            assert(self.destinations@[k] == before[k]);
                        }
                    }
                    let ws = old(self)@.destinations;
                    assert forall|a: int, b: int| 0 <= a < b < self@.destinations.len() implies (
                    #[trigger] self@.destinations[a]).authority != (
                    #[trigger] self@.destinations[b]).authority by {
                        if b == ws.len() {
                            assert(ws[a].authority != authority@);
                        } else {
                            assert(ws[a].authority != ws[b].authority);
                        }
                    }
                }
                Started { query, dns }
            },
        }
    }

    /// Starts the oldest reconnect that is still wanted. Authorities that
    /// are no longer watched are taken off the queue and passed over.
    /// Returns nothing when the queue ran empty.
    pub fn poll_reconnect(&mut self) -> (started: Option<Reconnect>)
        requires
            old(self).wf(),
        ensures
            final(self).wf(),
            final(self)@.rpc_ready == old(self)@.rpc_ready,
            final(self)@.default_destination_namespace == old(
                self,
            )@.default_destination_namespace,
            reconnected(old(self)@, started, final(self)@),
    {
        let ghost ws = self@.destinations;
        let ghost queue = self@.reconnects;
        let ghost mut passed: int = 0;
        proof {
            stale_reconnects_in_range(ws, queue);
            assert(queue.skip(0) =~= queue);
        }
        while self.reconnects.len() > 0
            invariant
                self.wf(),
                ws == old(self)@.destinations,
                queue == old(self)@.reconnects,
                self@.destinations == ws,
                self@.rpc_ready == old(self)@.rpc_ready,
                self@.default_destination_namespace == old(self)@.default_destination_namespace,
                0 <= passed <= queue.len(),
                self@.reconnects == queue.skip(passed),
                stale_reconnects(ws, queue) == passed + stale_reconnects(ws, queue.skip(passed)),
            decreases self.reconnects.len(),
        {
            let ghost waiting = self.reconnects@;
            let auth = self.reconnects.remove(0);
            proof {
                authority_views_skip(waiting);
                assert(auth@ == queue.skip(passed)[0]);
                assert(queue.skip(passed).skip(1) =~= queue.skip(passed + 1));
            }
            match self.find(&auth) {
                Some(i) => {
                    let ghost before = self.destinations@;
                    let mut watch = self.destinations.remove(i);
                    proof {
                        assert(watch == before[i as int]);
                        assert(watch@ == watch_views(before)[i as int]);
                        assert(watch@ == ws[i as int]);
                    }
                    let query = query_destination_service_if_relevant(&watch.qualified);
                    let state = match &query {
                        Some(_) => Some(Remote::ConnectedOrConnecting),
                        None => None,
                    };
                    watch.set.set_query(state);
                    proof {
                        watch_views_replace(before, i as int, watch);
                    }
                    self.destinations.insert(i, watch);
                    proof {
                        assert forall|k: int| 0 <= k < self.destinations@.len() implies (
                        #[trigger] self.destinations@[k]).set.wf() by {
                            if k != i {
                                assert(self.destinations@[k] == before[k]);
                            }
                        }
                        assert forall|a: int, b: int|
                            0 <= a < b < self@.destinations.len() implies (
                        #[trigger] self@.destinations[a]).authority != (
                        #[trigger] self@.destinations[b]).authority by {
                            assert(self@.destinations[a].authority == ws[a].authority);
                            assert(self@.destinations[b].authority == ws[b].authority);
                        }
                        assert(is_watched(ws, queue.skip(passed)[0]));
                        assert(stale_reconnects(ws, queue.skip(passed)) == 0);
                        assert(queue[passed] == auth@);
                    }
                    return Some(Reconnect { authority: auth, query });
                },
                None => {
                    proof {
                        passed = passed + 1;
                    }
                },
            }
        }
        proof {
            assert(queue.skip(passed).len() == 0);
            assert(stale_reconnects(ws, queue.skip(passed)) == 0);
            assert(self@.reconnects =~= Seq::<(Seq<char>, u16)>::empty());
        }
        None
    }

    /// One round of draining the request queue, given what the poll of the
    /// client gave. A client that is not ready, or failed, stops the
    /// draining. With a ready client a pending reconnect comes first; only
    /// where none is wanted is the next request taken.
    pub fn poll_resolve_requests(&mut self, readiness: Readiness) -> (drain: Drain)
        requires
            old(self).wf(),
        ensures
            final(self).wf(),
            !(readiness is Ready) ==> drain is Stop && final(self)@ == (ProcessView {
                rpc_ready: false,
                ..old(self)@
            }),
            readiness is Ready ==> !(drain is Stop) && final(self)@.rpc_ready && reconnected(
                ProcessView { rpc_ready: true, ..old(self)@ },
                match drain {
                    Drain::Reconnected(started) => Some(started),
                    _ => None,
                },
                final(self)@,
            ),
    {
        if !self.poll_ready(readiness) {
            return Drain::Stop;
        }
        match self.poll_reconnect() {
            Some(started) => Drain::Reconnected(started),
            None => Drain::TakeRequest,
        }
    }

    /// Drops the responders whose subscriber is gone, and every destination
    /// that no responder is left for.
    pub fn retain_active_destinations(&mut self)
        requires
            old(self).wf(),
        ensures
            final(self).wf(),
            final(self)@ == (ProcessView {
                destinations: retained(old(self)@.destinations),
                ..old(self)@
            }),
    {
        let ghost before = self@.destinations;
        let mut all: Vec<Watch> = Vec::new();
        std::mem::swap(&mut self.destinations, &mut all);
        let total: usize = all.len();
        let mut i: usize = 0;
        while all.len() > 0
            invariant
                i + all@.len() == total,
                total == before.len(),
                distinct_authorities(before),
                watch_views(all@) == before.skip(i as int),
                forall|k: int| 0 <= k < all@.len() ==> (#[trigger] all@[k]).set.wf(),
                forall|k: int| 0 <= k < self.destinations@.len() ==> (
                #[trigger] self.destinations@[k]).set.wf(),
                self@.destinations == retained(before.take(i as int)),
                self@.reconnects == old(self)@.reconnects,
                self@.rpc_ready == old(self)@.rpc_ready,
                self@.default_destination_namespace == old(self)@.default_destination_namespace,
            decreases all.len(),
        {
            let ghost rest = all@;
            let ghost kept = self.destinations@;
            let mut watch = all.remove(0);
            proof {
                assert(watch == rest[0]);
                assert(watch@ == watch_views(rest)[0]);
                assert(watch@ == before[i as int]);
                assert forall|k: int| 0 <= k < all@.len() implies watch_views(all@)[k]
                    == before.skip(i + 1)[k] by {
                    assert(all@[k] == rest[k + 1]);
                    assert(watch_views(rest)[k + 1] == rest[k + 1]@);
                    assert(before.skip(i as int)[k + 1] == before[i + k + 1]);
                }
                assert(watch_views(all@) =~= before.skip(i + 1));
                assert forall|k: int| 0 <= k < all@.len() implies (#[trigger] all@[k]).set.wf() by {
                    assert(all@[k] == rest[k + 1]);
                }
                assert(before.take(i + 1).drop_last() == before.take(i as int));
                assert(before.take(i + 1).last() == before[i as int]);
            }
            if watch.set.retain_active() {
                proof {
                    watch_views_push(kept, watch);
                }
                self.destinations.push(watch);
                proof {
                    assert forall|k: int| 0 <= k < self.destinations@.len() implies (
                    #[trigger] self.destinations@[k]).set.wf() by {
                        if k < kept.len() {
                            assert(self.destinations@[k] == kept[k]);
                        }
                    }
                }
            }
            i += 1;
        }
        proof {
            assert(before.take(i as int) == before);
            retained_is_distinct(before);
        }
    }

    /// Takes out what is queued for the subscribers of the watch at
    /// `index`, to be sent on.
    pub fn take_updates(&mut self, index: usize) -> (deliveries: Vec<Delivery>)
        requires
            old(self).wf(),
            index < old(self)@.destinations.len(),
        ensures
            final(self).wf(),
            ({
                let ws = old(self)@.destinations;
                let w = ws[index as int];
                &&& delivery_views(deliveries@) == queued_for(w.set.responders)
                &&& final(self)@ == (ProcessView {
                    destinations: ws.update(
                        index as int,
                        WatchView {
                            set: SetView {
                                responders: with_empty_queues(w.set.responders),
                                ..w.set
                            },
                            ..w
                        },
                    ),
                    ..old(self)@
                })
            }),
    {
        let ghost ws = self@.destinations;
        let ghost before = self.destinations@;
        assert(before.len() == ws.len());
        let mut watch = self.destinations.remove(index);
        assert(watch == before[index as int]);
        let deliveries = watch.set.take_updates();
        proof {
            watch_views_replace(before, index as int, watch);
        }
        self.destinations.insert(index, watch);
        proof {
            assert forall|k: int| 0 <= k < self.destinations@.len() implies (
            #[trigger] self.destinations@[k]).set.wf() by {
                if k != index {
                    assert(self.destinations@[k] == before[k]);
                }
            }
            assert forall|a: int, b: int| 0 <= a < b < self@.destinations.len() implies (
            #[trigger] self@.destinations[a]).authority != (
            #[trigger] self@.destinations[b]).authority by {
                assert(self@.destinations[a].authority == ws[a].authority);
                assert(self@.destinations[b].authority == ws[b].authority);
            }
        }
        deliveries
    }

    /// Records that the subscriber `id` is gone. Its responders, and the
    /// destinations that only it watched, leave at the next sweep.
    pub fn subscriber_dropped(&mut self, id: u64)
        requires
            old(self).wf(),
        ensures
            final(self).wf(),
            final(self)@ == (ProcessView {
                destinations: dropped(old(self)@.destinations, id),
                ..old(self)@
            }),
    {
        let ghost ws = self@.destinations;
        let mut i: usize = 0;
        while i < self.destinations.len()
            invariant
                self.wf(),
                i <= self.destinations@.len(),
                ws == old(self)@.destinations,
                self@.destinations.len() == ws.len(),
                self@.reconnects == old(self)@.reconnects,
                self@.rpc_ready == old(self)@.rpc_ready,
                self@.default_destination_namespace == old(self)@.default_destination_namespace,
                forall|k: int| 0 <= k < i ==> #[trigger] self@.destinations[k] == dropped(ws, id)[k],
                forall|k: int| i <= k < ws.len() ==> #[trigger] self@.destinations[k] == ws[k],
            decreases self.destinations.len() - i,
        {
            let ghost before = self.destinations@;
            let ghost views = self@.destinations;
            let mut watch = self.destinations.remove(i);
            assert(watch == before[i as int]);
            assert(watch@ == views[i as int]);
            watch.set.close_responder(id);
            proof {
                watch_views_replace(before, i as int, watch);
            }
            self.destinations.insert(i, watch);
            proof {
                assert forall|k: int| 0 <= k < self.destinations@.len() implies (
                #[trigger] self.destinations@[k]).set.wf() by {
                    if k != i {
                        assert(self.destinations@[k] == before[k]);
                    }
                }
                assert forall|a: int, b: int| 0 <= a < b < self@.destinations.len() implies (
                #[trigger] self@.destinations[a]).authority != (
                #[trigger] self@.destinations[b]).authority by {
                    assert(self@.destinations[a].authority == views[a].authority);
                    assert(self@.destinations[b].authority == views[b].authority);
                }
            }
            i += 1;
        }
        proof {
            assert(self@.destinations =~= dropped(ws, id));
        }
    }

    /// One service tick of the watch at `index`, given what a drain of its
    /// control-plane stream gave. A destination whose stream is gone joins
    /// the reconnect queue, last.
    pub fn poll_destination(&mut self, index: usize, messages: &Vec<PbUpdate>, end: StreamEnd) -> (outcome:
        ServiceOutcome)
        requires
            old(self).wf(),
            index < old(self)@.destinations.len(),
        ensures
            final(self).wf(),
            ({
                let ws = old(self)@.destinations;
                let w = ws[index as int];
                &&& outcome == service_outcome(w.set, messages@, end)
                &&& final(self)@.rpc_ready == old(self)@.rpc_ready
                &&& final(self)@.default_destination_namespace == old(
                    self,
                )@.default_destination_namespace
                &&& final(self)@.destinations == ws.update(
                    index as int,
                    WatchView { set: serviced(w.set, messages@, end), ..w },
                )
                &&& final(self)@.reconnects == if outcome.reconnect {
                    old(self)@.reconnects.push(w.authority)
                } else {
                    old(self)@.reconnects
                }
            }),
    {
        let ghost ws = self@.destinations;
        let ghost before = self.destinations@;
        assert(before.len() == ws.len());
        let mut watch = self.destinations.remove(index);
        assert(watch == before[index as int]);
        let outcome = watch.set.service(messages, end);
        if outcome.reconnect {
            let auth = watch.authority.clone();
            proof {
                authority_views_push(self.reconnects@, auth);
            }
            self.reconnects.push(auth);
        }
        proof {
            watch_views_replace(before, index as int, watch);
        }
        self.destinations.insert(index, watch);
        proof {
            assert forall|k: int| 0 <= k < self.destinations@.len() implies (
            #[trigger] self.destinations@[k]).set.wf() by {
                if k != index {
                    assert(self.destinations@[k] == before[k]);
                }
            }
            assert forall|a: int, b: int| 0 <= a < b < self@.destinations.len() implies (
            #[trigger] self@.destinations[a]).authority != (
            #[trigger] self@.destinations[b]).authority by {
                assert(self@.destinations[a].authority == ws[a].authority);
                assert(self@.destinations[b].authority == ws[b].authority);
            }
        }
        outcome
    }

    /// One service tick of every watch, in order, given what the drain of
    /// each one's control-plane stream gave. The destinations whose stream
    /// is gone join the reconnect queue in the watches' order.
    pub fn poll_destinations(&mut self, drained: &Vec<Drained>) -> (outcomes: Vec<ServiceOutcome>)
        requires
            old(self).wf(),
            drained@.len() == old(self)@.destinations.len(),
        ensures
            final(self).wf(),
            final(self)@.rpc_ready == old(self)@.rpc_ready,
            final(self)@.default_destination_namespace == old(
                self,
            )@.default_destination_namespace,
            final(self)@.destinations == serviced_all(old(self)@.destinations, drained@),
            outcomes@ == outcomes_all(old(self)@.destinations, drained@),
            final(self)@.reconnects == old(self)@.reconnects + gone_among(
                old(self)@.destinations,
                drained@,
                drained@.len() as int,
            ),
    {
        let ghost ws = self@.destinations;
        let ghost queue = self@.reconnects;
        let mut outcomes: Vec<ServiceOutcome> = Vec::new();
        let mut i: usize = 0;
        proof {
            assert(queue + gone_among(ws, drained@, 0) =~= queue);
        }
        while i < drained.len()
            invariant
                self.wf(),
                i <= drained@.len(),
                ws == old(self)@.destinations,
                queue == old(self)@.reconnects,
                drained@.len() == ws.len(),
                self@.destinations.len() == ws.len(),
                self@.rpc_ready == old(self)@.rpc_ready,
                self@.default_destination_namespace == old(self)@.default_destination_namespace,
                outcomes@.len() == i,
                forall|k: int| 0 <= k < i ==> #[trigger] outcomes@[k] == outcomes_all(ws, drained@)[k],
                forall|k: int|
                    0 <= k < i ==> #[trigger] self@.destinations[k] == serviced_all(ws, drained@)[k],
                forall|k: int| i <= k < ws.len() ==> #[trigger] self@.destinations[k] == ws[k],
                self@.reconnects == queue + gone_among(ws, drained@, i as int),
            decreases drained.len() - i,
        {
            let ghost before = self@.destinations;
            let outcome = self.poll_destination(i, &drained[i].messages, drained[i].end);
            outcomes.push(outcome);
            proof {
                assert(before[i as int] == ws[i as int]);
                assert(self@.reconnects =~= queue + gone_among(ws, drained@, i + 1));
            }
            i += 1;
        }
        proof {
            assert(outcomes@ =~= outcomes_all(ws, drained@));
            assert(self@.destinations =~= serviced_all(ws, drained@));
        }
        outcomes
    }

    /// Applies what a poll of the DNS query of the watch at `index` gave,
    /// and returns the query to start next, if any.
    pub fn poll_dns(&mut self, index: usize, polled: &DnsPoll) -> (next: Option<DnsQuery>)
        requires
            old(self).wf(),
            index < old(self)@.destinations.len(),
        ensures
            final(self).wf(),
            ({
                let ws = old(self)@.destinations;
                let w = ws[index as int];
                &&& next == dns_next(w.set, *polled)
                &&& final(self)@ == (ProcessView {
                    destinations: ws.update(
                        index as int,
                        WatchView { set: dns_polled(w.set, w.authority.1, *polled), ..w },
                    ),
                    ..old(self)@
                })
            }),
    {
        let ghost ws = self@.destinations;
        let ghost before = self.destinations@;
        assert(before.len() == ws.len());
        let mut watch = self.destinations.remove(index);
        assert(watch == before[index as int]);
        let next = watch.set.poll_dns(&watch.authority, polled);
        proof {
            watch_views_replace(before, index as int, watch);
        }
        self.destinations.insert(index, watch);
        proof {
            assert forall|k: int| 0 <= k < self.destinations@.len() implies (
            #[trigger] self.destinations@[k]).set.wf() by {
                if k != index {
                    assert(self.destinations@[k] == before[k]);
                }
            }
            assert forall|a: int, b: int| 0 <= a < b < self@.destinations.len() implies (
            #[trigger] self@.destinations[a]).authority != (
            #[trigger] self@.destinations[b]).authority by {
                assert(self@.destinations[a].authority == ws[a].authority);
                assert(self@.destinations[b].authority == ws[b].authority);
            }
        }
        next
    }
}

/// Every watch that is retained was there before, so that no authority is
/// watched twice afterwards either.
pub proof fn retained_is_distinct(ws: Seq<WatchView>)
    requires
        distinct_authorities(ws),
    ensures
        distinct_authorities(retained(ws)),
        forall|k: int|
            0 <= k < retained(ws).len() ==> is_watched(ws, (#[trigger] retained(ws)[k]).authority),
    decreases ws.len(),
{
    if ws.len() > 0 {
        let front = ws.drop_last();
        assert(distinct_authorities(front)) by {
            assert forall|i: int, j: int| 0 <= i < j < front.len() implies (
            #[trigger] front[i]).authority != (#[trigger] front[j]).authority by {
                assert(ws[i].authority != ws[j].authority);
            }
        }
        retained_is_distinct(front);
        let r = retained(ws);
        assert forall|k: int| 0 <= k < r.len() implies is_watched(
            ws,
            (#[trigger] r[k]).authority,
        ) by {
            if k < retained(front).len() {
                assert(r[k] == retained(front)[k]);
                let p = watch_position(front, r[k].authority);
                assert(ws[p].authority == r[k].authority);
            } else {
                assert(ws[ws.len() - 1].authority == r[k].authority);
            }
        }
        assert forall|i: int, j: int| 0 <= i < j < r.len() implies (#[trigger] r[i]).authority != (
        #[trigger] r[j]).authority by {
            if j < retained(front).len() {
                assert(r[i] == retained(front)[i] && r[j] == retained(front)[j]);
            } else {
                assert(r[i] == retained(front)[i]);
                let p = watch_position(front, r[i].authority);
                assert(ws[p].authority != ws[ws.len() - 1].authority);
            }
        }
    }
}

} // verus!
