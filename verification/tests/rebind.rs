use conduit_proxy::addr::{IpAddr, SocketAddr};
use conduit_proxy::metadata::{Endpoint, Identity, Metadata, TlsIdentity};
use conduit_proxy::rebind::RebindState;
use conduit_proxy::resolution::{Bind, Change, Resolution, Step};
use conduit_proxy::responder::Update;

fn addr(last: u32) -> SocketAddr {
    SocketAddr::new(IpAddr::V4(0x0a00_0000 + last), 443)
}

fn tls() -> Metadata {
    Metadata::new(None, TlsIdentity::Identified(Identity { name: "pod.ns.example".to_owned() }))
}

struct Binder {
    refuse: Option<SocketAddr>,
}

impl Bind for Binder {
    type Service = SocketAddr;
    type BindError = ();

    fn bind(&self, endpoint: &Endpoint) -> Result<SocketAddr, ()> {
        if Some(endpoint.address()) == self.refuse {
            Err(())
        } else {
            Ok(endpoint.address())
        }
    }
}

fn inserted(step: Option<Step<SocketAddr>>) -> Option<SocketAddr> {
    match step {
        Some(Step::Ready(Change::Insert(addr, service))) => {
            assert_eq!(addr, service);
            Some(addr)
        }
        Some(_) => panic!("a rebind inserts"),
        None => None,
    }
}

#[test]
fn one_invalidation_rebinds_each_tls_endpoint_once() {
    let mut resolution = Resolution::new(Binder { refuse: None });
    for a in [addr(1), addr(2)] {
        match resolution.poll_update(Update::Bind(a, tls())) {
            Step::Ready(Change::Insert(got, _)) => assert_eq!(got, a),
            _ => panic!("a bind inserts"),
        }
    }
    match resolution.poll_update(Update::Bind(addr(3), Metadata::no_metadata())) {
        Step::Ready(Change::Insert(got, _)) => assert_eq!(got, addr(3)),
        _ => panic!("a bind inserts"),
    }
    assert!(inserted(resolution.poll_rebind()).is_none());

    assert!(matches!(resolution.poll_update(Update::RebindIfTls), Step::Again));
    let mut rebound = vec![
        inserted(resolution.poll_rebind()).unwrap(),
        inserted(resolution.poll_rebind()).unwrap(),
    ];
    rebound.sort_by_key(|a| a.key());
    assert_eq!(rebound, vec![addr(1), addr(2)]);
    assert!(inserted(resolution.poll_rebind()).is_none());
    assert!(inserted(resolution.poll_rebind()).is_none());
    assert!(!resolution.rebind().is_rebinding());

    assert!(matches!(resolution.poll_update(Update::RebindIfTls), Step::Again));
    let mut again = vec![
        inserted(resolution.poll_rebind()).unwrap(),
        inserted(resolution.poll_rebind()).unwrap(),
    ];
    again.sort_by_key(|a| a.key());
    assert_eq!(again, vec![addr(1), addr(2)]);
    assert!(inserted(resolution.poll_rebind()).is_none());
}

#[test]
fn removed_endpoint_is_not_rebound() {
    let mut resolution = Resolution::new(Binder { refuse: None });
    resolution.poll_update(Update::Bind(addr(1), tls()));
    resolution.poll_update(Update::Bind(addr(2), tls()));
    match resolution.poll_update(Update::Remove(addr(1))) {
        Step::Ready(Change::Remove(got)) => assert_eq!(got, addr(1)),
        _ => panic!("a removal is handed on"),
    }
    resolution.poll_update(Update::RebindIfTls);
    assert_eq!(inserted(resolution.poll_rebind()), Some(addr(2)));
    assert!(inserted(resolution.poll_rebind()).is_none());
    match resolution.poll_update(Update::Remove(addr(2))) {
        Step::Ready(Change::Remove(got)) => assert_eq!(got, addr(2)),
        _ => panic!("a removal is handed on"),
    }
    resolution.poll_update(Update::RebindIfTls);
    assert!(inserted(resolution.poll_rebind()).is_none());
}

#[test]
fn endpoint_that_fails_to_bind_is_not_remembered() {
    let mut resolution = Resolution::new(Binder { refuse: Some(addr(1)) });
    assert!(matches!(resolution.poll_update(Update::Bind(addr(1), tls())), Step::Failed));
    assert_eq!(resolution.rebind().counts(), (0, 0));
    resolution.poll_update(Update::RebindIfTls);
    assert!(resolution.poll_rebind().is_none());
}

#[test]
fn rebind_state_moves_endpoints_from_now_to_next_and_back() {
    let mut state = RebindState::new();
    assert!(!state.is_rebinding());
    state.add_endpoint(Endpoint::new(addr(1), tls()));
    state.add_endpoint(Endpoint::new(addr(2), tls()));
    state.add_endpoint(Endpoint::new(addr(3), Metadata::no_metadata()));
    state.add_endpoint(Endpoint::new(addr(1), tls()));
    assert_eq!(state.counts(), (2, 0));
    assert!(state.next_to_rebind().is_none());

    state.invalidate();
    assert!(state.is_rebinding());
    let first = state.next_to_rebind().unwrap();
    assert_eq!(first.address(), addr(2));
    assert!(first.metadata().same(&tls()));
    assert_eq!(state.counts(), (1, 1));

    state.add_endpoint(Endpoint::new(addr(2), tls()));
    assert_eq!(state.counts(), (2, 0));
    state.remove_endpoint(&addr(1));
    assert_eq!(state.counts(), (1, 0));

    assert_eq!(state.next_to_rebind().unwrap().address(), addr(2));
    assert_eq!(state.counts(), (0, 1));
    assert!(state.next_to_rebind().is_none());
    assert!(!state.is_rebinding());
    assert_eq!(state.counts(), (1, 0));

    state.remove_endpoint(&addr(2));
    assert_eq!(state.counts(), (0, 0));
    state.remove_endpoint(&addr(2));
    assert_eq!(state.counts(), (0, 0));
}

#[test]
fn removal_swaps_the_last_endpoint_into_the_gap() {
    let mut state = RebindState::new();
    for a in [addr(1), addr(2), addr(3)] {
        state.add_endpoint(Endpoint::new(a, tls()));
    }
    state.remove_endpoint(&addr(1));
    state.invalidate();
    assert_eq!(state.next_to_rebind().unwrap().address(), addr(2));
    assert_eq!(state.next_to_rebind().unwrap().address(), addr(3));
    assert!(state.next_to_rebind().is_none());
}

#[test]
fn what_the_binder_gave_decides_the_step() {
    let mut resolution = Resolution::new(Binder { refuse: None });
    match resolution.after_bind(Endpoint::new(addr(1), tls()), Ok(addr(9))) {
        Step::Ready(Change::Insert(got, service)) => {
            assert_eq!(got, addr(1));
            assert_eq!(service, addr(9));
        }
        _ => panic!("a bound service is handed on"),
    }
    assert_eq!(resolution.rebind().counts(), (1, 0));
    assert!(matches!(
        resolution.after_bind(Endpoint::new(addr(2), tls()), Err(())),
        Step::Failed
    ));
    assert_eq!(resolution.rebind().counts(), (1, 0));
    match resolution.after_bind(Endpoint::new(addr(3), Metadata::no_metadata()), Ok(addr(3))) {
        Step::Ready(Change::Insert(got, _)) => assert_eq!(got, addr(3)),
        _ => panic!("a bound service is handed on"),
    }
    assert_eq!(resolution.rebind().counts(), (1, 0));
}

#[test]
fn rebinds_come_before_updates() {
    let mut resolution = Resolution::new(Binder { refuse: None });
    assert!(!resolution.awaits_rebind());
    resolution.poll_update(Update::Bind(addr(1), tls()));
    assert!(!resolution.awaits_rebind());
    resolution.poll_update(Update::RebindIfTls);
    assert!(resolution.awaits_rebind());
    assert_eq!(inserted(resolution.poll_rebind()), Some(addr(1)));
    assert!(!resolution.awaits_rebind());
    assert!(resolution.rebind().is_rebinding());
    assert!(resolution.poll_rebind().is_none());
    assert!(!resolution.rebind().is_rebinding());
    assert!(!resolution.awaits_rebind());
}

#[test]
fn removed_address_is_kept_in_neither_map() {
    let mut state = RebindState::new();
    state.add_endpoint(Endpoint::new(addr(1), tls()));
    state.add_endpoint(Endpoint::new(addr(2), tls()));
    state.invalidate();
    assert!(state.awaits_rebind());
    assert_eq!(state.next_to_rebind().unwrap().address(), addr(2));
    assert_eq!(state.counts(), (1, 1));
    state.remove_endpoint(&addr(2));
    assert_eq!(state.counts(), (1, 0));
    state.remove_endpoint(&addr(1));
    assert_eq!(state.counts(), (0, 0));
    assert!(!state.awaits_rebind());
    assert!(state.next_to_rebind().is_none());
    state.invalidate();
    assert!(state.next_to_rebind().is_none());
}
