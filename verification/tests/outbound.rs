use conduit_proxy::addr::{IpAddr, SocketAddr};
use conduit_proxy::authority::DnsNameAndPort;
use conduit_proxy::background::{Drained, Process, Readiness, ResolveRequest};
use conduit_proxy::destination_set::{DnsAction, DnsQuery, Remote};
use conduit_proxy::messages::NoEndpoints;
use conduit_proxy::ctx;
use conduit_proxy::messages::{PbUpdate, PbUpdate2, StreamEnd, WeightedAddrSet};
use conduit_proxy::metadata::{Endpoint, WeightedAddr};
use conduit_proxy::addr::{Ip, IpAddress, TcpAddress};
use conduit_proxy::outbound::{recognize, Destination, Discovered, Discovery, Protocol};
use conduit_proxy::resolution::{Bind, Change, Resolution};
use conduit_proxy::metadata::{Identity, Metadata, TlsIdentity};
use conduit_proxy::responder::Update;

struct Binder {
    fails: bool,
}

impl Bind for Binder {
    type Service = u16;
    type BindError = ();

    fn bind(&self, endpoint: &Endpoint) -> Result<u16, ()> {
        if self.fails {
            Err(())
        } else {
            Ok(endpoint.address().port)
        }
    }
}

#[test]
fn request_for_a_local_name_goes_to_the_service() {
    let orig = SocketAddr::new(IpAddr::V4(0x0808_0808), 443);
    match recognize(Some("web.ns.svc.cluster.local:80".to_owned()), Some(orig), true) {
        Some((Destination::LocalSvc(name), proto)) => {
            assert_eq!(name, "web.ns.svc.cluster.local:80");
            assert_eq!(proto, Protocol::Http2);
        }
        _ => panic!("the name is local"),
    }
}

#[test]
fn request_for_another_name_goes_to_where_it_was_sent() {
    let orig = SocketAddr::new(IpAddr::V4(0x0808_0808), 443);
    match recognize(None, Some(orig), false) {
        Some((Destination::External(addr), proto)) => {
            assert_eq!(addr, orig);
            assert_eq!(proto, Protocol::Http1);
        }
        _ => panic!("the address is known"),
    }
    assert!(recognize(None, None, false).is_none());
    assert!(recognize(None, None, true).is_none());
}

#[test]
fn external_address_is_discovered_once() {
    let addr = SocketAddr::new(IpAddr::V4(0x0808_0808), 443);
    let mut discovery = Discovery::External(Some((addr, Binder { fails: false })));
    match discovery.poll() {
        Discovered::Ready(Change::Insert(got, service)) => {
            assert_eq!(got, addr);
            assert_eq!(service, 443);
        }
        _ => panic!("the address is handed out at the first poll"),
    }
    assert!(matches!(discovery.poll(), Discovered::NotReady));
    assert!(matches!(discovery.poll(), Discovered::NotReady));

    let mut failing = Discovery::External(Some((addr, Binder { fails: true })));
    assert!(matches!(failing.poll(), Discovered::Failed));
    assert!(matches!(failing.poll(), Discovered::NotReady));
}

#[test]
fn local_service_is_discovered_through_its_resolution() {
    let addr = SocketAddr::new(IpAddr::V4(0x0a00_0001), 8443);
    let meta = Metadata::new(None, TlsIdentity::Identified(Identity { name: "web.ns.example".to_owned() }));
    let mut resolution = Resolution::new(Binder { fails: false });
    resolution.poll_update(Update::Bind(addr, meta));
    resolution.poll_update(Update::RebindIfTls);
    let mut discovery = Discovery::LocalSvc(resolution);
    match discovery.poll() {
        Discovered::Ready(Change::Insert(got, service)) => {
            assert_eq!(got, addr);
            assert_eq!(service, 8443);
        }
        _ => panic!("the endpoint is bound again"),
    }
    assert!(matches!(discovery.poll(), Discovered::AwaitUpdate));
    assert!(matches!(discovery.poll(), Discovered::AwaitUpdate));
}

#[test]
fn proxy_context_knows_its_orientation() {
    let process = ctx::Process::new("ns-one", 1_500_000_000);
    assert_eq!(process.scheduled_namespace, "ns-one");
    assert_eq!(process.start_time_secs, 1_500_000_000);
    let inbound = ctx::Proxy::inbound(&process);
    let outbound = ctx::Proxy::outbound(&process);
    assert!(inbound.is_inbound());
    assert!(!inbound.is_outbound());
    assert!(outbound.is_outbound());
    assert!(!outbound.is_inbound());
    match outbound {
        ctx::Proxy::Outbound(p) => assert_eq!(p.scheduled_namespace, "ns-one"),
        ctx::Proxy::Inbound(_) => panic!("the proxy is outbound"),
    }
}

#[test]
fn queued_updates_are_taken_out_per_subscriber() {
    let mut process = Process::new("conduit".to_owned());
    process.poll_ready(Readiness::Ready);
    for id in [7, 8] {
        process.handle_resolve(ResolveRequest {
            authority: DnsNameAndPort::new("svc.local".to_owned(), 80),
            qualified: Some("svc.local.svc.cluster.local".to_owned()),
            responder: conduit_proxy::responder::Responder::new(id),
        });
    }
    let pb = WeightedAddr {
        addr: Some(TcpAddress { ip: Some(IpAddress { ip: Some(Ip::Ipv4(0x0a00_0001)) }), port: 80 }),
        weight: 1,
        metric_labels: vec![],
        tls_identity: None,
    };
    let message = PbUpdate {
        update: Some(PbUpdate2::Add(WeightedAddrSet { addrs: vec![pb], metric_labels: vec![] })),
    };
    process.poll_destination(0, &vec![message, PbUpdate { update: None }], StreamEnd::Pending);

    let deliveries = process.take_updates(0);
    assert_eq!(deliveries.len(), 2);
    assert_eq!(deliveries[0].to, 7);
    assert_eq!(deliveries[1].to, 8);
    for delivery in &deliveries {
        assert_eq!(delivery.updates.len(), 1);
        match &delivery.updates[0] {
            Update::Bind(addr, _) => {
                assert_eq!(*addr, SocketAddr::new(IpAddr::V4(0x0a00_0001), 80))
            }
            _ => panic!("the endpoint was bound"),
        }
    }
    let again = process.take_updates(0);
    assert_eq!(again.len(), 2);
    assert!(again[0].updates.is_empty());
    assert!(again[1].updates.is_empty());
}

#[test]
fn every_destination_is_serviced_in_one_tick() {
    let mut process = Process::new("conduit".to_owned());
    process.poll_ready(Readiness::Ready);
    for (id, host) in [(1, "a.local"), (2, "b.local"), (3, "c.example.com")] {
        process.handle_resolve(ResolveRequest {
            authority: DnsNameAndPort::new(host.to_owned(), 80),
            qualified: if id < 3 { Some(format!("{}.svc.cluster.local", host)) } else { None },
            responder: conduit_proxy::responder::Responder::new(id),
        });
    }
    let denied = PbUpdate { update: Some(PbUpdate2::NoEndpoints(NoEndpoints { exists: false })) };
    let drained = vec![
        Drained { messages: vec![], end: StreamEnd::Ended },
        Drained { messages: vec![denied], end: StreamEnd::Errored },
        Drained { messages: vec![], end: StreamEnd::Ended },
    ];
    let outcomes = process.poll_destinations(&drained);
    assert_eq!(outcomes.len(), 3);
    assert!(outcomes[0].reconnect);
    assert_eq!(outcomes[0].dns, DnsAction::Keep);
    assert!(outcomes[1].reconnect);
    assert_eq!(outcomes[1].dns, DnsAction::Start(DnsQuery { delay_secs: 0 }));
    assert!(!outcomes[2].reconnect);
    assert_eq!(outcomes[2].dns, DnsAction::Keep);
    let queued: Vec<String> = process.reconnects().iter().map(|a| a.host.clone()).collect();
    assert_eq!(queued, vec!["a.local".to_owned(), "b.local".to_owned()]);
    assert_eq!(process.destinations()[1].set().query(), Some(Remote::NeedsReconnect));
    assert_eq!(process.destinations()[1].set().dns_query(), Some(DnsQuery { delay_secs: 0 }));
    assert_eq!(process.destinations()[2].set().query(), None);
    assert_eq!(process.destinations()[2].set().dns_query(), Some(DnsQuery { delay_secs: 0 }));
}
