use conduit_proxy::addr::{pb_to_sock_addr, Ip, IpAddr, IpAddress, Ipv6Parts, SocketAddr, TcpAddress};
use conduit_proxy::authority::DnsNameAndPort;
use conduit_proxy::background::{
    query_destination_service_if_relevant, Config, Drain, Process, Readiness, ResolveRequest,
};
use conduit_proxy::destination_set::{
    DestinationSet, DnsAction, DnsPoll, DnsQuery, Remote, DNS_REQUERY_DELAY_SECS,
};
use conduit_proxy::existence::Exists;
use conduit_proxy::messages::{
    decode_adds, decode_removes, AddrSet, NoEndpoints, PbUpdate, PbUpdate2, StreamEnd,
    WeightedAddrSet,
};
use conduit_proxy::metadata::{
    merge_labels, pb_to_addr_meta, DstLabels, Identity, Label, Metadata, TlsIdentity, WeightedAddr,
};
use conduit_proxy::responder::{on_change, send_to_all, Responder, Update};
use conduit_proxy::cache::CacheChange;

fn v4(last: u32, port: u16) -> SocketAddr {
    SocketAddr::new(IpAddr::V4(0x0a00_0000 + last), port)
}

fn tcp(last: u32, port: u32) -> TcpAddress {
    TcpAddress { ip: Some(IpAddress { ip: Some(Ip::Ipv4(0x0a00_0000 + last)) }), port }
}

fn weighted(last: u32, port: u32) -> WeightedAddr {
    WeightedAddr { addr: Some(tcp(last, port)), weight: 1, metric_labels: vec![], tls_identity: None }
}

fn add(addrs: Vec<WeightedAddr>) -> PbUpdate {
    PbUpdate { update: Some(PbUpdate2::Add(WeightedAddrSet { addrs, metric_labels: vec![] })) }
}

fn remove(addrs: Vec<TcpAddress>) -> PbUpdate {
    PbUpdate { update: Some(PbUpdate2::Remove(AddrSet { addrs })) }
}

fn no_endpoints(exists: bool) -> PbUpdate {
    PbUpdate { update: Some(PbUpdate2::NoEndpoints(NoEndpoints { exists })) }
}

fn request(host: &str, qualified: Option<&str>, id: u64) -> ResolveRequest {
    ResolveRequest {
        authority: DnsNameAndPort::new(host.to_owned(), 80),
        qualified: qualified.map(|q| q.to_owned()),
        responder: Responder::new(id),
    }
}

#[derive(Debug, PartialEq)]
enum Told {
    Bind(SocketAddr),
    Remove(SocketAddr),
    Rebind,
}

fn told(responder: &Responder) -> Vec<Told> {
    responder
        .queued()
        .iter()
        .map(|u| match u {
            Update::Bind(addr, _) => Told::Bind(*addr),
            Update::Remove(addr) => Told::Remove(*addr),
            Update::RebindIfTls => Told::Rebind,
        })
        .collect()
}

fn told_at(process: &Process, watch: usize, responder: usize) -> Vec<Told> {
    told(&process.destinations()[watch].set().responders()[responder])
}

fn cached(set: &DestinationSet) -> Vec<SocketAddr> {
    match set.addrs() {
        Exists::Yes(cache) => cache.entries().iter().map(|e| e.address()).collect(),
        _ => vec![],
    }
}

#[test]
fn decodes_ipv4_addresses() {
    assert_eq!(pb_to_sock_addr(tcp(1, 80)), Some(v4(1, 80)));
    assert_eq!(
        pb_to_sock_addr(TcpAddress { ip: Some(IpAddress { ip: Some(Ip::Ipv4(0xc0a8_0001)) }), port: 8080 }),
        Some(SocketAddr::new(IpAddr::V4(0xc0a8_0001), 8080))
    );
}

#[test]
fn decodes_ipv6_addresses_from_two_halves() {
    let pb = TcpAddress {
        ip: Some(IpAddress {
            ip: Some(Ip::Ipv6(Ipv6Parts { first: 0x2001_0db8_0000_0000, last: 0x0000_0000_0000_0001 })),
        }),
        port: 443,
    };
    assert_eq!(
        pb_to_sock_addr(pb),
        Some(SocketAddr::new(IpAddr::V6(0x2001_0db8_0000_0000_0000_0000_0000_0001), 443))
    );
}

#[test]
fn keeps_the_low_sixteen_bits_of_a_port() {
    assert_eq!(pb_to_sock_addr(tcp(1, 65536 + 80)), Some(v4(1, 80)));
    assert_eq!(pb_to_sock_addr(tcp(1, 65535)), Some(v4(1, 65535)));
}

#[test]
fn an_address_without_a_family_decodes_to_nothing() {
    assert_eq!(pb_to_sock_addr(TcpAddress { ip: None, port: 80 }), None);
    assert_eq!(pb_to_sock_addr(TcpAddress { ip: Some(IpAddress { ip: None }), port: 80 }), None);
}

#[test]
fn address_keys_tell_families_apart() {
    let a = SocketAddr::new(IpAddr::V4(1), 80);
    let b = SocketAddr::new(IpAddr::V6(1), 80);
    assert_eq!(a.key(), (4, 1, 80));
    assert_eq!(b.key(), (6, 1, 80));
    assert_ne!(a.key(), b.key());
}

#[test]
fn own_labels_are_laid_over_shared_labels() {
    let label = |k: &str, v: &str| Label::new(k.to_owned(), v.to_owned());
    let shared = vec![label("zone", "a"), label("app", "web"), label("tier", "front")];
    let own = vec![label("app", "api"), label("pod", "alpha")];
    let all = merge_labels(&shared, &own);
    let pairs: Vec<(String, String)> = all.iter().map(|l| (l.key.clone(), l.value.clone())).collect();
    assert_eq!(
        pairs,
        vec![
            ("zone".to_owned(), "a".to_owned()),
            ("tier".to_owned(), "front".to_owned()),
            ("app".to_owned(), "api".to_owned()),
            ("pod".to_owned(), "alpha".to_owned()),
        ]
    );
}

#[test]
fn an_address_of_a_message_becomes_a_labelled_endpoint() {
    let label = |k: &str, v: &str| Label::new(k.to_owned(), v.to_owned());
    let pb = WeightedAddr {
        addr: Some(tcp(1, 80)),
        weight: 1,
        metric_labels: vec![label("pod", "alpha")],
        tls_identity: Some(Identity { name: "alpha.ns.example".to_owned() }),
    };
    let (addr, meta) = pb_to_addr_meta(&pb, &vec![label("app", "web")]).unwrap();
    assert_eq!(addr, v4(1, 80));
    let expected = Metadata::new(
        DstLabels::new(vec![label("app", "web"), label("pod", "alpha")]),
        TlsIdentity::Identified(Identity { name: "alpha.ns.example".to_owned() }),
    );
    assert!(meta.same(&expected));

    let bare = pb_to_addr_meta(&weighted(2, 80), &vec![]).unwrap();
    assert!(bare.1.same(&Metadata::no_metadata()));

    let broken = WeightedAddr { addr: None, weight: 1, metric_labels: vec![], tls_identity: None };
    assert!(pb_to_addr_meta(&broken, &vec![]).is_none());
}

#[test]
fn malformed_addresses_are_skipped() {
    let broken = WeightedAddr {
        addr: Some(TcpAddress { ip: None, port: 80 }),
        weight: 1,
        metric_labels: vec![],
        tls_identity: None,
    };
    let set = WeightedAddrSet { addrs: vec![weighted(1, 80), broken, weighted(2, 80)], metric_labels: vec![] };
    let pairs = decode_adds(&set);
    let addrs: Vec<SocketAddr> = pairs.iter().map(|p| p.0).collect();
    assert_eq!(addrs, vec![v4(1, 80), v4(2, 80)]);

    let removes = AddrSet { addrs: vec![tcp(1, 80), TcpAddress { ip: None, port: 1 }, tcp(3, 80)] };
    assert_eq!(decode_removes(&removes), vec![v4(1, 80), v4(3, 80)]);
}

#[test]
fn updates_reach_live_responders_and_dead_ones_are_dropped() {
    let mut dead = Responder::new(2);
    dead.close();
    assert!(!dead.is_active());
    assert!(!dead.send(Update::Remove(v4(1, 80))));
    assert!(dead.queued().is_empty());

    let mut responders = vec![Responder::new(1), dead, Responder::new(3)];
    send_to_all(&mut responders, &Update::Remove(v4(1, 80)));
    let ids: Vec<u64> = responders.iter().map(|r| r.id()).collect();
    assert_eq!(ids, vec![1, 3]);
    assert_eq!(told(&responders[0]), vec![Told::Remove(v4(1, 80))]);
    assert_eq!(told(&responders[1]), vec![Told::Remove(v4(1, 80))]);

    on_change(
        &mut responders,
        &CacheChange::Modification { key: v4(2, 80), new_value: Metadata::no_metadata() },
    );
    assert_eq!(told(&responders[0]), vec![Told::Remove(v4(1, 80)), Told::Bind(v4(2, 80))]);
    let taken = responders[0].take_updates();
    assert_eq!(taken.len(), 2);
    assert!(responders[0].queued().is_empty());
}

#[test]
fn control_plane_is_only_asked_of_qualified_names() {
    let request = query_destination_service_if_relevant(&Some("svc.ns.svc.cluster.local".to_owned())).unwrap();
    assert_eq!(request.scheme, "k8s");
    assert_eq!(request.path, "svc.ns.svc.cluster.local");
    assert!(query_destination_service_if_relevant(&None).is_none());
}

#[test]
fn resolve_then_stream_close_then_reconnect_replaces_the_endpoints() {
    let mut process = Process::new("conduit".to_owned());
    assert!(process.poll_ready(Readiness::Ready));
    let started = process.handle_resolve(request("svc.local", Some("svc.local.svc.cluster.local"), 1));
    assert_eq!(started.query.unwrap().path, "svc.local.svc.cluster.local");
    assert!(started.dns.is_none());

    let outcome = process.poll_destination(0, &vec![add(vec![weighted(1, 80)])], StreamEnd::Ended);
    assert!(outcome.reconnect);
    assert_eq!(outcome.dns, DnsAction::Keep);
    assert_eq!(told_at(&process, 0, 0), vec![Told::Bind(v4(1, 80))]);
    assert_eq!(process.destinations()[0].set().query(), Some(Remote::NeedsReconnect));
    assert_eq!(process.reconnects().len(), 1);
    assert!(process.has_reconnect_work());

    let reconnect = process.poll_reconnect().unwrap();
    assert_eq!(reconnect.authority.host, "svc.local");
    assert_eq!(reconnect.query.unwrap().path, "svc.local.svc.cluster.local");
    assert_eq!(process.destinations()[0].set().query(), Some(Remote::ConnectedOrConnecting));
    assert!(!process.has_reconnect_work());

    let outcome = process.poll_destination(0, &vec![add(vec![weighted(2, 80)])], StreamEnd::Pending);
    assert!(!outcome.reconnect);
    assert_eq!(
        told_at(&process, 0, 0),
        vec![Told::Bind(v4(1, 80)), Told::Remove(v4(1, 80)), Told::Bind(v4(2, 80))]
    );
    assert_eq!(cached(process.destinations()[0].set()), vec![v4(2, 80)]);
}

#[test]
fn unqualified_name_is_resolved_by_dns_at_once() {
    let mut process = Process::new("conduit".to_owned());
    process.poll_ready(Readiness::Ready);
    let started = process.handle_resolve(request("ext.example.com", None, 1));
    assert!(started.query.is_none());
    assert_eq!(started.dns, Some(DnsQuery { delay_secs: 0 }));
    let set = process.destinations()[0].set();
    assert_eq!(set.query(), None);
    assert_eq!(set.dns_query(), Some(DnsQuery { delay_secs: 0 }));
    assert!(set.addrs().is_unknown());

    let outcome = process.poll_destination(0, &vec![add(vec![weighted(1, 80)])], StreamEnd::Ended);
    assert!(!outcome.reconnect);
    assert_eq!(process.destinations()[0].set().query(), None);
    assert!(cached(process.destinations()[0].set()).is_empty());
    assert!(process.reconnects().is_empty());
}

#[test]
fn late_subscriber_is_told_of_every_cached_endpoint_first() {
    let mut process = Process::new("conduit".to_owned());
    process.poll_ready(Readiness::Ready);
    process.handle_resolve(request("svc.local", Some("svc.local.svc.cluster.local"), 1));
    process.poll_destination(0, &vec![add(vec![weighted(1, 80), weighted(2, 80)])], StreamEnd::Pending);

    let started = process.handle_resolve(request("svc.local", Some("svc.local.svc.cluster.local"), 2));
    assert!(started.query.is_none());
    assert!(started.dns.is_none());
    assert_eq!(process.destinations().len(), 1);
    assert_eq!(told_at(&process, 0, 1), vec![Told::Bind(v4(1, 80)), Told::Bind(v4(2, 80))]);

    process.poll_destination(0, &vec![remove(vec![tcp(1, 80)])], StreamEnd::Pending);
    assert_eq!(
        told_at(&process, 0, 1),
        vec![Told::Bind(v4(1, 80)), Told::Bind(v4(2, 80)), Told::Remove(v4(1, 80))]
    );
    assert_eq!(
        told_at(&process, 0, 0),
        vec![Told::Bind(v4(1, 80)), Told::Bind(v4(2, 80)), Told::Remove(v4(1, 80))]
    );
}

#[test]
fn dropping_every_subscriber_removes_the_destination() {
    let mut process = Process::new("conduit".to_owned());
    process.poll_ready(Readiness::Ready);
    process.handle_resolve(request("svc.local", Some("svc.local.svc.cluster.local"), 1));
    process.handle_resolve(request("svc.local", Some("svc.local.svc.cluster.local"), 2));
    process.handle_resolve(request("other.local", Some("other.local.svc.cluster.local"), 3));
    process.poll_destination(0, &vec![], StreamEnd::Errored);
    assert_eq!(process.reconnects().len(), 1);

    process.subscriber_dropped(1);
    process.retain_active_destinations();
    assert_eq!(process.destinations().len(), 2);
    assert_eq!(process.destinations()[0].set().responders().len(), 1);

    process.subscriber_dropped(2);
    process.retain_active_destinations();
    assert_eq!(process.destinations().len(), 1);
    assert_eq!(process.destinations()[0].authority().host, "other.local");
    assert!(process.position_of(&DnsNameAndPort::new("svc.local".to_owned(), 80)).is_none());

    assert!(process.poll_reconnect().is_none());
    assert!(process.reconnects().is_empty());
}

#[test]
fn client_that_is_not_ready_stops_the_draining() {
    let mut process = Process::new("conduit".to_owned());
    assert!(!process.rpc_ready());
    assert!(!process.poll_ready(Readiness::NotReady));
    assert!(!process.poll_ready(Readiness::Failed));
    assert!(process.poll_ready(Readiness::Ready));
    assert!(process.rpc_ready());
    process.handle_resolve(request("svc.local", Some("svc.local.svc.cluster.local"), 1));
    process.poll_destination(0, &vec![], StreamEnd::Ended);
    assert!(process.has_reconnect_work());
    process.poll_ready(Readiness::NotReady);
    assert!(!process.has_reconnect_work());
}

#[test]
fn confirmation_cancels_dns_and_denial_starts_it() {
    let mut set = DestinationSet::new(Some(Remote::ConnectedOrConnecting), Responder::new(1));
    let outcome = set.service(&vec![no_endpoints(false)], StreamEnd::Pending);
    assert_eq!(outcome.dns, DnsAction::Start(DnsQuery { delay_secs: 0 }));
    assert_eq!(set.dns_query(), Some(DnsQuery { delay_secs: 0 }));
    assert!(set.addrs().is_unknown());

    let outcome = set.service(&vec![], StreamEnd::Pending);
    assert_eq!(outcome.dns, DnsAction::Keep);
    assert_eq!(set.dns_query(), Some(DnsQuery { delay_secs: 0 }));

    let outcome = set.service(&vec![add(vec![weighted(1, 80)])], StreamEnd::Pending);
    assert_eq!(outcome.dns, DnsAction::Keep);
    assert_eq!(set.dns_query(), Some(DnsQuery { delay_secs: 0 }));

    let outcome = set.service(&vec![remove(vec![tcp(9, 80)])], StreamEnd::Pending);
    assert_eq!(outcome.dns, DnsAction::Cancel);
    assert_eq!(set.dns_query(), None);
    assert!(set.addrs().is_yes());

    let outcome = set.service(&vec![no_endpoints(true), no_endpoints(false)], StreamEnd::Pending);
    assert_eq!(outcome.dns, DnsAction::Start(DnsQuery { delay_secs: 0 }));

    let outcome = set.service(&vec![no_endpoints(false), no_endpoints(true)], StreamEnd::Ended);
    assert_eq!(outcome.dns, DnsAction::Cancel);
    assert!(outcome.reconnect);
    assert_eq!(set.dns_query(), None);
    assert!(cached(&set).is_empty());
    assert!(set.addrs().is_yes());
}

#[test]
fn disconnect_alone_leaves_dns_as_it_was() {
    let mut set = DestinationSet::new(Some(Remote::ConnectedOrConnecting), Responder::new(1));
    let outcome = set.service(&vec![], StreamEnd::Errored);
    assert!(outcome.reconnect);
    assert_eq!(outcome.dns, DnsAction::Keep);
    assert_eq!(set.dns_query(), None);
    assert_eq!(set.query(), Some(Remote::NeedsReconnect));

    let outcome = set.service(&vec![no_endpoints(false)], StreamEnd::Pending);
    assert!(!outcome.reconnect);
    assert_eq!(outcome.dns, DnsAction::Keep);
    assert_eq!(set.dns_query(), None);
}

#[test]
fn dns_answers_fill_the_cache_and_requery_after_the_fixed_delay() {
    let authority = DnsNameAndPort::new("ext.example.com".to_owned(), 8080);
    let mut set = DestinationSet::new(None, Responder::new(1));
    assert_eq!(set.poll_dns(&authority, &DnsPoll::Exists(vec![IpAddr::V4(7)])), None);
    assert!(cached(&set).is_empty());

    set.reset_dns_query(0);
    assert_eq!(set.poll_dns(&authority, &DnsPoll::NotReady), None);
    assert_eq!(set.dns_query(), Some(DnsQuery { delay_secs: 0 }));

    let next = set.poll_dns(&authority, &DnsPoll::Exists(vec![IpAddr::V4(7), IpAddr::V6(9)]));
    assert_eq!(DNS_REQUERY_DELAY_SECS, 5);
    assert_eq!(next, Some(DnsQuery { delay_secs: 5 }));
    assert_eq!(set.dns_query(), Some(DnsQuery { delay_secs: 5 }));
    assert_eq!(
        cached(&set),
        vec![SocketAddr::new(IpAddr::V4(7), 8080), SocketAddr::new(IpAddr::V6(9), 8080)]
    );
    match set.addrs() {
        Exists::Yes(cache) => {
            assert!(cache.is_reset_pending());
            assert!(cache.get(SocketAddr::new(IpAddr::V4(7), 8080)).unwrap().same(&Metadata::no_metadata()));
        }
        _ => panic!("the destination exists"),
    }

    let next = set.poll_dns(&authority, &DnsPoll::Failed);
    assert_eq!(next, Some(DnsQuery { delay_secs: 5 }));
    assert_eq!(cached(&set).len(), 2);

    let next = set.poll_dns(&authority, &DnsPoll::DoesNotExist);
    assert_eq!(next, Some(DnsQuery { delay_secs: 5 }));
    assert!(set.addrs().is_no());
    assert_eq!(
        told(&set.responders()[0]),
        vec![
            Told::Bind(SocketAddr::new(IpAddr::V4(7), 8080)),
            Told::Bind(SocketAddr::new(IpAddr::V6(9), 8080)),
            Told::Remove(SocketAddr::new(IpAddr::V4(7), 8080)),
            Told::Remove(SocketAddr::new(IpAddr::V6(9), 8080)),
        ]
    );
}

#[test]
fn no_endpoints_but_exists_empties_the_cache() {
    let mut set = DestinationSet::new(Some(Remote::ConnectedOrConnecting), Responder::new(1));
    set.add(&vec![(v4(1, 80), Metadata::no_metadata())]);
    set.no_endpoints(true);
    assert!(set.addrs().is_yes());
    assert!(cached(&set).is_empty());
    assert_eq!(told(&set.responders()[0]), vec![Told::Bind(v4(1, 80)), Told::Remove(v4(1, 80))]);
    set.remove(&vec![v4(1, 80)]);
    assert_eq!(told(&set.responders()[0]).len(), 2);

    let mut unknown = DestinationSet::new(None, Responder::new(2));
    unknown.remove(&vec![v4(1, 80)]);
    assert!(unknown.addrs().is_yes());
    unknown.reset_on_next_modification();
    let mut taken = unknown.addrs().is_yes();
    taken = taken && cached(&unknown).is_empty();
    assert!(taken);
}

#[test]
fn exists_take_leaves_unknown() {
    let mut e = Exists::Yes(5u32);
    assert!(e.is_yes());
    match e.take() {
        Exists::Yes(v) => assert_eq!(v, 5),
        _ => panic!("the value was there"),
    }
    assert!(e.is_unknown());
    let mut n: Exists<u32> = Exists::No;
    assert!(n.is_no());
    assert!(n.take().is_no());
    assert!(n.is_unknown());
}

#[test]
fn reconnects_for_destinations_that_went_away_are_passed_over() {
    let mut process = Process::new("conduit".to_owned());
    process.poll_ready(Readiness::Ready);
    process.handle_resolve(request("a.local", Some("a.local.svc.cluster.local"), 1));
    process.handle_resolve(request("b.local", Some("b.local.svc.cluster.local"), 2));
    process.poll_destination(0, &vec![], StreamEnd::Ended);
    process.poll_destination(1, &vec![], StreamEnd::Ended);
    assert_eq!(process.reconnects().len(), 2);
    process.subscriber_dropped(1);
    process.retain_active_destinations();
    let reconnect = process.poll_reconnect().unwrap();
    assert_eq!(reconnect.authority.host, "b.local");
    assert!(process.reconnects().is_empty());
    assert!(process.poll_reconnect().is_none());
}

#[test]
fn process_starts_from_its_configuration() {
    let process = Config::new("emojivoto".to_owned()).process();
    assert_eq!(process.default_destination_namespace(), "emojivoto");
    assert!(process.destinations().is_empty());
    assert!(process.reconnects().is_empty());
    assert!(!process.rpc_ready());
}

#[test]
fn draining_puts_reconnects_before_new_requests() {
    let mut process = Process::new("conduit".to_owned());
    assert!(matches!(process.poll_resolve_requests(Readiness::NotReady), Drain::Stop));
    assert!(matches!(process.poll_resolve_requests(Readiness::Failed), Drain::Stop));
    assert!(!process.rpc_ready());
    assert!(matches!(process.poll_resolve_requests(Readiness::Ready), Drain::TakeRequest));
    assert!(process.rpc_ready());
    process.handle_resolve(request("svc.local", Some("svc.local.svc.cluster.local"), 1));
    process.poll_destination(0, &vec![], StreamEnd::Ended);
    match process.poll_resolve_requests(Readiness::Ready) {
        Drain::Reconnected(started) => {
            assert_eq!(started.authority.host, "svc.local");
            assert_eq!(started.authority.port, 80);
            let query = started.query.unwrap();
            assert_eq!(query.scheme, "k8s");
            assert_eq!(query.path, "svc.local.svc.cluster.local");
        }
        _ => panic!("a reconnect was pending"),
    }
    assert!(matches!(process.poll_resolve_requests(Readiness::Ready), Drain::TakeRequest));
    process.poll_destination(0, &vec![], StreamEnd::Ended);
    assert!(matches!(process.poll_resolve_requests(Readiness::NotReady), Drain::Stop));
    assert_eq!(process.reconnects().len(), 1);
}

#[test]
fn subscriber_that_applies_its_queue_ends_with_the_cache() {
    let labelled = |value: &str| {
        Metadata::new(
            DstLabels::new(vec![Label::new("pod".to_owned(), value.to_owned())]),
            TlsIdentity::Unidentified(conduit_proxy::metadata::ReasonForNoIdentity::NotHttp),
        )
    };
    let mut set = DestinationSet::new(None, Responder::new(1));
    set.add(&vec![(v4(1, 80), labelled("a")), (v4(2, 80), labelled("b"))]);
    set.add(&vec![(v4(2, 80), labelled("c")), (v4(3, 80), labelled("d"))]);
    set.add(&vec![(v4(1, 80), labelled("a"))]);

    let mut seen: Vec<(SocketAddr, Metadata)> = Vec::new();
    let mut binds = 0;
    for update in set.responders()[0].queued() {
        match update {
            Update::Bind(addr, meta) => {
                binds += 1;
                match seen.iter().position(|(a, _)| a == addr) {
                    Some(i) => {
                        assert!(!seen[i].1.same(meta));
                        seen[i].1 = meta.clone();
                    }
                    None => seen.push((*addr, meta.clone())),
                }
            }
            Update::Remove(addr) => {
                let i = seen.iter().position(|(a, _)| a == addr).unwrap();
                seen.remove(i);
            }
            Update::RebindIfTls => panic!("the cache reports no rebind"),
        }
    }
    assert_eq!(binds, 4);
    let cache = match set.addrs() {
        Exists::Yes(cache) => cache,
        _ => panic!("the destination exists"),
    };
    assert_eq!(cache.len(), seen.len());
    for (i, endpoint) in cache.entries().iter().enumerate() {
        assert_eq!(endpoint.address(), seen[i].0);
        assert!(endpoint.metadata().same(&seen[i].1));
    }
    assert!(cache.get(v4(2, 80)).unwrap().same(&labelled("c")));
}
