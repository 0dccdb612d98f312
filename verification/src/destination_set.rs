//! The state of one resolution: what is known of a destination, where the
//! knowledge comes from, and who is told.

use vstd::prelude::*;
use crate::addr::{IpAddr, SocketAddr};
use crate::authority::DnsNameAndPort;
use crate::cache::{
    change_views, clear_changes, distinct_keys, endpoint_views, pair_views, removal_changes, removed_entries,
    union_changes, union_entries, Cache, CacheChange, ChangeView, EntryView,
};
use crate::existence::Exists;
use crate::messages::{
    decode_adds, decode_removes, decoded_adds, decoded_removes, PbUpdate, PbUpdate2, StreamEnd,
};
use crate::metadata::{no_metadata_view, Metadata};
use crate::responder::{
    close_responders, closed_for, deliver, delivery_views, live, on_change, queued_for,
    responder_views, responder_views_push, take_all_updates, update_of, updates_of,
    with_empty_queues, with_update, Delivery, Responder, ResponderView, Update, UpdateView,
};

verus! {

/// The seconds after which DNS is asked again, whatever it answered.
pub const DNS_REQUERY_DELAY_SECS: u64 = 5;

/// The state of the query to the control plane.
#[derive(Clone, Copy, Debug, PartialEq, Eq, Structural)]
pub enum Remote {
    /// A stream is open, or being opened.
    ConnectedOrConnecting,
    /// The stream is gone and a new one must be opened.
    NeedsReconnect,
}

/// A DNS query in flight: it answers no sooner than after its delay.
#[derive(Clone, Copy, Debug, PartialEq, Eq, Structural)]
pub struct DnsQuery {
    pub delay_secs: u64,
}

/// What a poll of the DNS query in flight gave.
#[derive(Debug)]
pub enum DnsPoll {
    /// No answer yet.
    NotReady,
    /// The name resolves to these addresses.
    Exists(Vec<IpAddr>),
    /// The name does not exist.
    DoesNotExist,
    /// The query failed for now.
    Failed,
}

/// What is to be done about the DNS query after the control plane was heard.
#[derive(Clone, Copy, Debug, PartialEq, Eq, Structural)]
pub enum DnsAction {
    /// Leave the query as it is.
    Keep,
    /// Drop the query in flight.
    Cancel,
    /// Start this query in place of any in flight.
    Start(DnsQuery),
}

/// What servicing a destination set asks of its owner.
#[derive(Clone, Copy, Debug, PartialEq, Eq, Structural)]
pub struct ServiceOutcome {
    /// The control-plane stream is gone: queue the destination for a
    /// reconnect.
    pub reconnect: bool,
    /// What to do about the DNS query.
    pub dns: DnsAction,
}

/// Holds the state of a single resolution.
#[derive(Debug)]
pub struct DestinationSet {
    addrs: Exists<Cache>,
    query: Option<Remote>,
    dns_query: Option<DnsQuery>,
    responders: Vec<Responder>,
}

/// A destination set as a specification value. Where the destination is not
/// known to exist there are no entries and no reset is due.
pub ghost struct SetView {
    pub existence: Exists<()>,
    pub entries: Seq<EntryView>,
    pub resets_next: bool,
    pub query: Option<Remote>,
    pub dns_query: Option<DnsQuery>,
    pub responders: Seq<ResponderView>,
}

/// The entries that the next change builds on.
pub open spec fn base_of(v: SetView) -> Seq<EntryView> {
    if v.existence is Yes && !v.resets_next {
        v.entries
    } else {
        Seq::empty()
    }
}

/// What the next change reports first: every entry as removed, once a reset
/// is due.
pub open spec fn reset_changes_of(v: SetView) -> Seq<ChangeView> {
    if v.existence is Yes && v.resets_next {
        clear_changes(v.entries)
    } else {
        Seq::empty()
    }
}

/// The set after endpoints were added: the destination exists, the cache
/// holds the union, and every responder was told of every change.
pub open spec fn added(v: SetView, pairs: Seq<EntryView>) -> SetView {
    SetView {
        existence: Exists::Yes(()),
        entries: union_entries(base_of(v), pairs),
        resets_next: false,
        responders: deliver(
            v.responders,
            updates_of(reset_changes_of(v) + union_changes(base_of(v), pairs)),
        ),
        ..v
    }
}

/// The set after addresses were removed: the destination exists, and every
/// responder was told of every endpoint that left.
pub open spec fn removed(v: SetView, keys: Seq<SocketAddr>) -> SetView {
    if v.existence is Yes {
        SetView {
            entries: removed_entries(base_of(v), keys),
            resets_next: false,
            responders: deliver(
                v.responders,
                updates_of(reset_changes_of(v) + removal_changes(base_of(v), keys)),
            ),
            ..v
        }
    } else {
        SetView { existence: Exists::Yes(()), entries: Seq::empty(), resets_next: false, ..v }
    }
}

/// The set after it was told that the destination has no endpoints: every
/// responder was told of every endpoint that left; the destination exists
/// with nothing in it, or is known not to exist.
pub open spec fn emptied(v: SetView, exists: bool) -> SetView {
    SetView {
        existence: if exists {
            Exists::Yes(())
        } else {
            Exists::No
        },
        entries: Seq::empty(),
        resets_next: false,
        responders: if v.existence is Yes {
            deliver(v.responders, updates_of(clear_changes(v.entries)))
        } else {
            v.responders
        },
        ..v
    }
}

/// The set after its cache, if it has one, was marked to start from nothing
/// at its next change.
pub open spec fn marked(v: SetView) -> SetView {
    if v.existence is Yes {
        SetView { resets_next: true, ..v }
    } else {
        v
    }
}

/// The set after a DNS query was started: the cache is marked, and the query
/// is the one in flight.
pub open spec fn dns_restarted(v: SetView, delay_secs: u64) -> SetView {
    SetView { dns_query: Some(DnsQuery { delay_secs }), ..marked(v) }
}

/// The set after one message of the control plane. Added and removed
/// addresses change the cache; "no endpoints" empties it where the
/// destination exists, and changes nothing where it does not.
pub open spec fn after_message(v: SetView, m: PbUpdate) -> SetView {
    match m.update {
        Some(PbUpdate2::Add(set)) => added(v, decoded_adds(set.addrs@, set.metric_labels@)),
        Some(PbUpdate2::Remove(set)) => removed(v, decoded_removes(set.addrs@)),
        Some(PbUpdate2::NoEndpoints(n)) => if n.exists {
            emptied(v, true)
        } else {
            v
        },
        None => v,
    }
}

/// The set after a run of messages, in order.
pub open spec fn after_messages(v: SetView, ms: Seq<PbUpdate>) -> SetView
    decreases ms.len(),
{
    if ms.len() == 0 {
        v
    } else {
        after_message(after_messages(v, ms.drop_last()), ms.last())
    }
}

/// What a message says of the destination's existence: removed addresses
/// and "no endpoints, but it exists" confirm it, "no endpoints, and it does
/// not exist" denies it, anything else leaves the earlier word standing.
pub open spec fn signal_after(signal: Exists<()>, m: PbUpdate) -> Exists<()> {
    match m.update {
        Some(PbUpdate2::Remove(_)) => Exists::Yes(()),
        Some(PbUpdate2::NoEndpoints(n)) => if n.exists {
            Exists::Yes(())
        } else {
            Exists::No
        },
        _ => signal,
    }
}

/// What a run of messages says of the destination's existence: the word of
/// the last message that speaks of it; `Unknown` stands for "no change".
pub open spec fn signal_of(ms: Seq<PbUpdate>) -> Exists<()>
    decreases ms.len(),
{
    if ms.len() == 0 {
        Exists::Unknown
    } else {
        signal_after(signal_of(ms.drop_last()), ms.last())
    }
}

/// The state of the query after a drain that ended this way.
pub open spec fn remote_after(end: StreamEnd) -> Remote {
    if end is Pending {
        Remote::ConnectedOrConnecting
    } else {
        Remote::NeedsReconnect
    }
}

/// The set after the word of the control plane was applied to the DNS
/// query: a confirmation cancels it, a denial starts one without delay,
/// no change leaves it.
pub open spec fn after_signal(v: SetView, signal: Exists<()>) -> SetView {
    match signal {
        Exists::Yes(_) => SetView { dns_query: None, ..v },
        Exists::No => dns_restarted(v, 0),
        Exists::Unknown => v,
    }
}

/// What is to be done about the DNS query on this word of the control plane.
pub open spec fn dns_action(signal: Exists<()>) -> DnsAction {
    match signal {
        Exists::Yes(_) => DnsAction::Cancel,
        Exists::No => DnsAction::Start(DnsQuery { delay_secs: 0 }),
        Exists::Unknown => DnsAction::Keep,
    }
}

/// The set after one service tick of its control-plane query. A set without
/// an open stream is left alone. Otherwise the messages are applied; a
/// stream that is gone is marked for reconnect, and the cache for a reset;
/// then the word of the control plane is applied to the DNS query.
pub open spec fn serviced(v: SetView, ms: Seq<PbUpdate>, end: StreamEnd) -> SetView {
    if v.query == Some(Remote::ConnectedOrConnecting) {
        let polled = after_messages(v, ms);
        let kept = if end is Pending {
            polled
        } else {
            marked(polled)
        };
        after_signal(SetView { query: Some(remote_after(end)), ..kept }, signal_of(ms))
    } else {
        v
    }
}

/// What a service tick asks of the owner of the set.
pub open spec fn service_outcome(v: SetView, ms: Seq<PbUpdate>, end: StreamEnd) -> ServiceOutcome {
    if v.query == Some(Remote::ConnectedOrConnecting) {
        ServiceOutcome { reconnect: !(end is Pending), dns: dns_action(signal_of(ms)) }
    } else {
        ServiceOutcome { reconnect: false, dns: DnsAction::Keep }
    }
}

/// The endpoints that resolved addresses stand for: each with the port of
/// the authority and no metadata.
pub open spec fn resolved(ips: Seq<IpAddr>, port: u16) -> Seq<EntryView> {
    ips.map_values(|ip: IpAddr| (SocketAddr { ip, port }, no_metadata_view()))
}

/// The set after a poll of its DNS query. Without a query in flight, and
/// while the query has no answer, nothing changes. Addresses are added to
/// the cache; a name that does not exist empties it and denies the
/// destination; a failure leaves the cache alone. After any answer the next
/// query is started with the fixed delay.
pub open spec fn dns_polled(v: SetView, port: u16, outcome: DnsPoll) -> SetView {
    if v.dns_query is None {
        v
    } else {
        match outcome {
            DnsPoll::NotReady => v,
            DnsPoll::Exists(ips) => dns_restarted(
                added(v, resolved(ips@, port)),
                DNS_REQUERY_DELAY_SECS,
            ),
            DnsPoll::DoesNotExist => dns_restarted(emptied(v, false), DNS_REQUERY_DELAY_SECS),
            DnsPoll::Failed => dns_restarted(v, DNS_REQUERY_DELAY_SECS),
        }
    }
}

/// The query that a poll of DNS asks the owner to start, if any.
pub open spec fn dns_next(v: SetView, outcome: DnsPoll) -> Option<DnsQuery> {
    if v.dns_query is None || outcome is NotReady {
        None
    } else {
        Some(DnsQuery { delay_secs: DNS_REQUERY_DELAY_SECS })
    }
}

/// Tells every responder of every change, in order, and drops the
/// responders that are dead.
pub fn on_changes(responders: &mut Vec<Responder>, changes: &Vec<CacheChange>)
    ensures
        responder_views(final(responders)@) == deliver(
            responder_views(old(responders)@),
            updates_of(change_views(changes@)),
        ),
{
    let ghost before = responder_views(responders@);
    let ghost updates = updates_of(change_views(changes@));
    let mut i: usize = 0;
    while i < changes.len()
        invariant
            i <= changes.len(),
            updates == updates_of(change_views(changes@)),
            responder_views(responders@) == deliver(before, updates.take(i as int)),
        decreases changes.len() - i,
    {
        proof {
            assert(updates.take(i + 1).drop_last() == updates.take(i as int));
            assert(updates.take(i + 1).last() == update_of(changes@[i as int]@));
        }
        on_change(responders, &changes[i]);
        i += 1;
    }
    proof {
        assert(updates.take(i as int) == updates);
    }
}

fn dns_endpoints(ips: &Vec<IpAddr>, port: u16) -> (pairs: Vec<(SocketAddr, Metadata)>)
    ensures
        pair_views(pairs@) == resolved(ips@, port),
{
    let mut pairs: Vec<(SocketAddr, Metadata)> = Vec::new();
    let mut i: usize = 0;
    while i < ips.len()
        invariant
            i <= ips.len(),
            pairs@.len() == i,
            forall|j: int| 0 <= j < i ==> pair_views(pairs@)[j] == #[trigger] resolved(ips@, port)[j],
        decreases ips.len() - i,
    {
        let ghost before = pairs@;
        let pair = (SocketAddr { ip: ips[i], port }, Metadata::no_metadata());
        pairs.push(pair);
        proof {
            assert forall|j: int| 0 <= j < i + 1 implies pair_views(pairs@)[j] == #[trigger] resolved(
                ips@,
                port,
            )[j] by {
                if j < i {
                    assert(pairs@[j] == before[j]);
                    assert(pair_views(before)[j] == resolved(ips@, port)[j]);
                }
            }
        }
        i += 1;
    }
    proof {
        assert(pair_views(pairs@) =~= resolved(ips@, port));
    }
    pairs
}

impl View for DestinationSet {
    type V = SetView;

    closed spec fn view(&self) -> SetView {
        SetView {
            existence: match self.addrs {
                Exists::Yes(_) => Exists::Yes(()),
                Exists::No => Exists::No,
                Exists::Unknown => Exists::Unknown,
            },
            entries: match self.addrs {
                Exists::Yes(cache) => cache@,
                _ => Seq::empty(),
            },
            resets_next: match self.addrs {
                Exists::Yes(cache) => cache.resets_next(),
                _ => false,
            },
            query: self.query,
            dns_query: self.dns_query,
            responders: responder_views(self.responders@),
        }
    }
}

impl DestinationSet {
    /// The invariant of a set: its cache, if it has one, is well formed.
    pub closed spec fn wf(&self) -> bool {
        match self.addrs {
            Exists::Yes(cache) => cache.wf(),
            _ => true,
        }
    }

    /// In a well-formed set no address is cached twice; a set that is not
    /// known to exist caches nothing and has no reset due.
    pub proof fn wf_means(&self)
        requires
            self.wf(),
        ensures
            distinct_keys(self@.entries),
            !(self@.existence is Yes) ==> self@.entries.len() == 0 && !self@.resets_next,
    {
        match self.addrs {
            Exists::Yes(cache) => {
                cache.wf_means();
            },
            _ => {},
        }
    }

    /// A set for a destination of which nothing is known yet, with its first
    /// responder.
    pub fn new(query: Option<Remote>, responder: Responder) -> (set: DestinationSet)
        ensures
            set.wf(),
            set@ == (SetView {
                existence: Exists::Unknown,
                entries: Seq::empty(),
                resets_next: false,
                query,
                dns_query: None,
                responders: seq![responder@],
            }),
    {
        let mut responders: Vec<Responder> = Vec::new();
        responders.push(responder);
        let set = DestinationSet { addrs: Exists::Unknown, query, dns_query: None, responders };
        assert(set@.responders =~= seq![responder@]);
        set
    }

    /// The cache, where the destination is known to exist.
    pub fn addrs(&self) -> (addrs: &Exists<Cache>)
        ensures
            addrs is Yes <==> self@.existence is Yes,
            addrs is No <==> self@.existence is No,
            addrs is Yes ==> addrs->Yes_0@ == self@.entries && addrs->Yes_0.resets_next()
                == self@.resets_next && (self.wf() ==> addrs->Yes_0.wf()),
    {
        &self.addrs
    }

    pub fn query(&self) -> (query: Option<Remote>)
        ensures
            query == self@.query,
    {
        self.query
    }

    pub fn dns_query(&self) -> (query: Option<DnsQuery>)
        ensures
            query == self@.dns_query,
    {
        self.dns_query
    }

    pub fn responders(&self) -> (responders: &Vec<Responder>)
        ensures
            responder_views(responders@) == self@.responders,
    {
        &self.responders
    }

    /// Sets the state of the control-plane query.
    pub fn set_query(&mut self, query: Option<Remote>)
        ensures
            final(self)@ == (SetView { query, ..old(self)@ }),
            old(self).wf() ==> final(self).wf(),
    {
        self.query = query;
    }

    /// Marks the cache, if there is one, to start from nothing at its next
    /// change.
    pub fn reset_on_next_modification(&mut self)
        ensures
            final(self)@ == marked(old(self)@),
            old(self).wf() ==> final(self).wf(),
    {
        let mut addrs = self.addrs.take();
        match &mut addrs {
            Exists::Yes(cache) => {
                cache.set_reset_on_next_modification();
            },
            _ => {},
        }
        self.addrs = addrs;
    }

    /// Starts a DNS query in place of any in flight. What is cached is
    /// taken to be stale until DNS confirms it, so the cache is marked.
    pub fn reset_dns_query(&mut self, delay_secs: u64) -> (started: DnsQuery)
        ensures
            started == (DnsQuery { delay_secs }),
            final(self)@ == dns_restarted(old(self)@, delay_secs),
            old(self).wf() ==> final(self).wf(),
    {
        self.reset_on_next_modification();
        let started = DnsQuery { delay_secs };
        self.dns_query = Some(started);
        started
    }

    /// Adds endpoints from one source. The destination exists from now on.
    pub fn add(&mut self, addrs_to_add: &Vec<(SocketAddr, Metadata)>)
        requires
            old(self).wf(),
        ensures
            final(self).wf(),
            final(self)@ == added(old(self)@, pair_views(addrs_to_add@)),
    {
        let mut cache = match self.addrs.take() {
            Exists::Yes(cache) => cache,
            _ => Cache::new(),
        };
        let changes = cache.update_union(addrs_to_add);
        on_changes(&mut self.responders, &changes);
        self.addrs = Exists::Yes(cache);
    }

    /// Removes addresses. The destination exists from now on, even if
    /// nothing is left of it.
    pub fn remove(&mut self, addrs_to_remove: &Vec<SocketAddr>)
        requires
            old(self).wf(),
        ensures
            final(self).wf(),
            final(self)@ == removed(old(self)@, addrs_to_remove@),
    {
        let cache = match self.addrs.take() {
            Exists::Yes(cache) => {
                let mut cache = cache;
                let changes = cache.remove(addrs_to_remove);
                on_changes(&mut self.responders, &changes);
                cache
            },
            _ => Cache::new(),
        };
        self.addrs = Exists::Yes(cache);
    }

    /// Records that the destination has no endpoints, and whether it exists
    /// at all.
    pub fn no_endpoints(&mut self, exists: bool)
        ensures
            final(self).wf(),
            final(self)@ == emptied(old(self)@, exists),
    {
        match self.addrs.take() {
            Exists::Yes(cache) => {
                let mut cache = cache;
                let changes = cache.clear();
                on_changes(&mut self.responders, &changes);
            },
            _ => {},
        }
        self.addrs = if exists {
            Exists::Yes(Cache::new())
        } else {
            Exists::No
        };
    }

    /// Applies the messages that a drain of the control-plane stream gave,
    /// in order. Returns the new state of the query and what the messages
    /// say of the destination's existence, where `Unknown` stands for "no
    /// change".
    pub fn poll_destination_service(&mut self, messages: &Vec<PbUpdate>, end: StreamEnd) -> (polled:
        (Remote, Exists<()>))
        requires
            old(self).wf(),
        ensures
            final(self).wf(),
            final(self)@ == after_messages(old(self)@, messages@),
            polled.0 == remote_after(end),
            polled.1 == signal_of(messages@),
    {
        let mut exists: Exists<()> = Exists::Unknown;
        let mut i: usize = 0;
        while i < messages.len()
            invariant
                i <= messages.len(),
                self.wf(),
                self@ == after_messages(old(self)@, messages@.take(i as int)),
                exists == signal_of(messages@.take(i as int)),
            decreases messages.len() - i,
        {
            proof {
                assert(messages@.take(i + 1).drop_last() == messages@.take(i as int));
                assert(messages@.take(i + 1).last() == messages@[i as int]);
            }
            match &messages[i].update {
                Some(PbUpdate2::Add(a_set)) => {
                    let addrs = decode_adds(a_set);
                    self.add(&addrs);
                },
                Some(PbUpdate2::Remove(r_set)) => {
                    exists = Exists::Yes(());
                    let addrs = decode_removes(r_set);
                    self.remove(&addrs);
                },
                Some(PbUpdate2::NoEndpoints(no_endpoints)) => {
                    if no_endpoints.exists {
                        exists = Exists::Yes(());
                        self.no_endpoints(true);
                    } else {
                        exists = Exists::No;
                    }
                },
                None => {},
            }
            i += 1;
        }
        proof {
            assert(messages@.take(i as int) == messages@);
        }
        let query = match end {
            StreamEnd::Pending => Remote::ConnectedOrConnecting,
            _ => Remote::NeedsReconnect,
        };
        (query, exists)
    }

    /// One service tick of the control-plane query, given what a drain of
    /// its stream gave. The word of the control plane decides about the DNS
    /// query: a confirmation cancels it, a denial starts one without delay,
    /// and a stream that merely went away changes nothing about it.
    pub fn service(&mut self, messages: &Vec<PbUpdate>, end: StreamEnd) -> (outcome: ServiceOutcome)
        requires
            old(self).wf(),
        ensures
            final(self).wf(),
            final(self)@ == serviced(old(self)@, messages@, end),
            outcome == service_outcome(old(self)@, messages@, end),
            old(self)@.query == Some(Remote::ConnectedOrConnecting) && signal_of(messages@) is Yes
                ==> final(self)@.dns_query is None,
            old(self)@.query == Some(Remote::ConnectedOrConnecting) && signal_of(messages@) is No
                ==> final(self)@.dns_query == Some(DnsQuery { delay_secs: 0 }),
            old(self)@.query == Some(Remote::ConnectedOrConnecting) && signal_of(messages@)
                is Unknown ==> final(self)@.dns_query == old(self)@.dns_query,
    {
        match self.query {
            Some(Remote::ConnectedOrConnecting) => {
                proof {
                    after_messages_keep_queries(self@, messages@);
                }
                let (new_query, found) = self.poll_destination_service(messages, end);
                let mut reconnect = false;
                match new_query {
                    Remote::NeedsReconnect => {
                        self.reset_on_next_modification();
                        reconnect = true;
                    },
                    Remote::ConnectedOrConnecting => {},
                }
                self.query = Some(new_query);
                let dns = match found {
                    Exists::Yes(_) => {
                        self.dns_query = None;
                        DnsAction::Cancel
                    },
                    Exists::No => {
                        let started = self.reset_dns_query(0);
                        DnsAction::Start(started)
                    },
                    Exists::Unknown => DnsAction::Keep,
                };
                ServiceOutcome { reconnect, dns }
            },
            _ => ServiceOutcome { reconnect: false, dns: DnsAction::Keep },
        }
    }

    /// Applies what a poll of the DNS query in flight gave, and returns the
    /// query to start next, if any.
    pub fn poll_dns(&mut self, authority: &DnsNameAndPort, outcome: &DnsPoll) -> (next: Option<
        DnsQuery,
    >)
        requires
            old(self).wf(),
        ensures
            final(self).wf(),
            final(self)@ == dns_polled(old(self)@, authority.port, *outcome),
            next == dns_next(old(self)@, *outcome),
    {
        if self.dns_query.is_none() {
            return None;
        }
        match outcome {
            DnsPoll::NotReady => {
                return None;
            },
            DnsPoll::Exists(ips) => {
                let pairs = dns_endpoints(ips, authority.port);
                self.add(&pairs);
            },
            DnsPoll::DoesNotExist => {
                self.no_endpoints(false);
            },
            DnsPoll::Failed => {},
        }
        Some(self.reset_dns_query(DNS_REQUERY_DELAY_SECS))
    }

    /// Adds a responder and first tells it of every cached endpoint, in
    /// order, so that it starts from the complete state.
    pub fn subscribe(&mut self, responder: Responder)
        ensures
            final(self)@ == joined(old(self)@, responder@),
            old(self).wf() ==> final(self).wf(),
    {
        let mut responder = responder;
        let ghost first = responder@;
        match &self.addrs {
            Exists::Yes(cache) => {
                let entries = cache.entries();
                let mut i: usize = 0;
                while i < entries.len()
                    invariant
                        i <= entries.len(),
                        endpoint_views(entries@) == self@.entries,
                        responder@ == replayed_to(first, self@.entries.take(i as int)),
                    decreases entries.len() - i,
                {
                    proof {
                        assert(self@.entries.take(i + 1).drop_last() == self@.entries.take(
                            i as int,
                        ));
                        assert(self@.entries.take(i + 1).last() == entries@[i as int]@);
                    }
                    let update = Update::Bind(
                        entries[i].address(),
                        entries[i].metadata().clone(),
                    );
                    responder.send(update);
                    i += 1;
                }
                proof {
                    assert(self@.entries.take(i as int) == self@.entries);
                }
            },
            _ => {},
        }
        proof {
            responder_views_push(self.responders@, responder);
        }
        self.responders.push(responder);
    }

    /// Takes out what is queued for the subscribers, to be sent on.
    pub fn take_updates(&mut self) -> (deliveries: Vec<Delivery>)
        ensures
            final(self)@ == (SetView {
                responders: with_empty_queues(old(self)@.responders),
                ..old(self)@
            }),
            delivery_views(deliveries@) == queued_for(old(self)@.responders),
            old(self).wf() ==> final(self).wf(),
    {
        take_all_updates(&mut self.responders)
    }

    /// Records that the subscriber `id` is gone. Its responders are dropped
    /// at the next sweep or the next update, whichever comes first.
    pub fn close_responder(&mut self, id: u64)
        ensures
            final(self)@ == (SetView {
                responders: closed_for(old(self)@.responders, id),
                ..old(self)@
            }),
            old(self).wf() ==> final(self).wf(),
    {
        close_responders(&mut self.responders, id);
    }

    /// Drops the responders whose subscriber is gone. Returns whether any
    /// responder is left.
    pub fn retain_active(&mut self) -> (any: bool)
        ensures
            final(self)@ == (SetView {
                responders: live(old(self)@.responders),
                ..old(self)@
            }),
            any == (live(old(self)@.responders).len() > 0),
            old(self).wf() ==> final(self).wf(),
    {
        let ghost before = responder_views(self.responders@);
        let mut all: Vec<Responder> = Vec::new();
        std::mem::swap(&mut self.responders, &mut all);
        let total: usize = all.len();
        let mut i: usize = 0;
        while all.len() > 0
            invariant
                i + all@.len() == total,
                total == before.len(),
                responder_views(all@) == before.skip(i as int),
                responder_views(self.responders@) == live(before.take(i as int)),
                self.addrs == old(self).addrs,
                self.query == old(self).query,
                self.dns_query == old(self).dns_query,
            decreases all.len(),
        {
            let ghost rest = all@;
            let ghost kept = self.responders@;
            let r = all.remove(0);
            proof {
                assert(r@ == responder_views(rest)[0]);
                assert(r@ == before[i as int]);
                assert forall|k: int| 0 <= k < all@.len() implies responder_views(all@)[k]
                    == before.skip(i + 1)[k] by {
                    assert(all@[k] == rest[k + 1]);
                    assert(responder_views(rest)[k + 1] == rest[k + 1]@);
                    assert(before.skip(i as int)[k + 1] == before[i + k + 1]);
                }
                assert(responder_views(all@) =~= before.skip(i + 1));
                assert(before.take(i + 1).drop_last() == before.take(i as int));
                assert(before.take(i + 1).last() == before[i as int]);
            }
            if r.is_active() {
                self.responders.push(r);
                proof {
                    responder_views_push(kept, r);
                }
            }
            i += 1;
        }
        proof {
            assert(before.take(i as int) == before);
        }
        self.responders.len() > 0
    }
}

/// A responder after it was told of every entry, in order.
pub open spec fn replayed_to(r: ResponderView, entries: Seq<EntryView>) -> ResponderView
    decreases entries.len(),
{
    if entries.len() == 0 {
        r
    } else if replayed_to(r, entries.drop_last()).active {
        with_update(
            replayed_to(r, entries.drop_last()),
            UpdateView::Bind(entries.last().0, entries.last().1),
        )
    } else {
        replayed_to(r, entries.drop_last())
    }
}

/// The set after a responder joined it: the responder was told of every
/// cached endpoint and stands last.
pub open spec fn joined(v: SetView, r: ResponderView) -> SetView {
    SetView { responders: v.responders.push(replayed_to(r, v.entries)), ..v }
}

/// Messages change neither the state of the query nor the DNS query.
pub proof fn after_messages_keep_queries(v: SetView, ms: Seq<PbUpdate>)
    ensures
        after_messages(v, ms).query == v.query,
        after_messages(v, ms).dns_query == v.dns_query,
    decreases ms.len(),
{
    if ms.len() > 0 {
        after_messages_keep_queries(v, ms.drop_last());
    }
}

} // verus!
