use conduit_proxy::addr::{IpAddr, SocketAddr};
use conduit_proxy::cache::{Cache, CacheChange};
use conduit_proxy::metadata::{DstLabels, Identity, Label, Metadata, TlsIdentity};

fn addr(last: u32, port: u16) -> SocketAddr {
    SocketAddr::new(IpAddr::V4(0x0a00_0000 + last), port)
}

fn labelled(value: &str) -> Metadata {
    let labels = vec![Label::new("pod".to_owned(), value.to_owned())];
    Metadata::new(
        DstLabels::new(labels),
        TlsIdentity::Identified(Identity { name: "pod.ns.example".to_owned() }),
    )
}

#[derive(Debug, PartialEq)]
enum Seen {
    Insertion(SocketAddr, bool),
    Removal(SocketAddr),
    Modification(SocketAddr, bool),
}

fn seen(changes: &Vec<CacheChange>, expected: &Metadata) -> Vec<Seen> {
    let mut all = Vec::new();
    for change in changes {
        all.push(match change {
            CacheChange::Insertion { key, value } => Seen::Insertion(*key, value.same(expected)),
            CacheChange::Removal { key } => Seen::Removal(*key),
            CacheChange::Modification { key, new_value } => {
                Seen::Modification(*key, new_value.same(expected))
            }
        });
    }
    all
}

fn contents(cache: &Cache) -> Vec<SocketAddr> {
    cache.entries().iter().map(|e| e.address()).collect()
}

#[test]
fn union_reports_new_keys_as_insertions() {
    let mut cache = Cache::new();
    let meta = Metadata::no_metadata();
    let changes = cache.update_union(&vec![(addr(1, 80), meta.clone()), (addr(2, 80), meta.clone())]);
    assert_eq!(
        seen(&changes, &meta),
        vec![Seen::Insertion(addr(1, 80), true), Seen::Insertion(addr(2, 80), true)]
    );
    assert_eq!(contents(&cache), vec![addr(1, 80), addr(2, 80)]);
    assert_eq!(cache.len(), 2);
    assert!(!cache.is_empty());
}

#[test]
fn union_reports_changed_values_as_modifications() {
    let mut cache = Cache::new();
    cache.update_union(&vec![(addr(1, 80), labelled("a")), (addr(2, 80), labelled("b"))]);
    let changes = cache.update_union(&vec![(addr(1, 80), labelled("a")), (addr(2, 80), labelled("c"))]);
    assert_eq!(seen(&changes, &labelled("c")), vec![Seen::Modification(addr(2, 80), true)]);
    assert!(cache.get(addr(2, 80)).unwrap().same(&labelled("c")));
    assert!(cache.get(addr(1, 80)).unwrap().same(&labelled("a")));
    assert_eq!(contents(&cache), vec![addr(1, 80), addr(2, 80)]);
}

#[test]
fn union_keeps_keys_that_the_update_does_not_name() {
    let mut cache = Cache::new();
    let meta = Metadata::no_metadata();
    cache.update_union(&vec![(addr(1, 80), meta.clone())]);
    let changes = cache.update_union(&vec![(addr(2, 80), meta.clone())]);
    assert_eq!(seen(&changes, &meta), vec![Seen::Insertion(addr(2, 80), true)]);
    assert_eq!(contents(&cache), vec![addr(1, 80), addr(2, 80)]);
}

#[test]
fn union_applied_twice_reports_nothing_the_second_time() {
    let mut cache = Cache::new();
    let update = vec![(addr(1, 80), labelled("a")), (addr(2, 80), labelled("b"))];
    assert_eq!(cache.update_union(&update).len(), 2);
    assert_eq!(cache.update_union(&update).len(), 0);
    assert_eq!(contents(&cache), vec![addr(1, 80), addr(2, 80)]);
}

#[test]
fn union_with_a_key_given_two_values_is_not_idempotent() {
    let mut cache = Cache::new();
    let update = vec![(addr(1, 80), labelled("a")), (addr(1, 80), labelled("b"))];
    let first = cache.update_union(&update);
    assert_eq!(first.len(), 2);
    let second = cache.update_union(&update);
    assert_eq!(second.len(), 2);
    assert!(cache.get(addr(1, 80)).unwrap().same(&labelled("b")));
}

#[test]
fn last_update_decides_when_it_names_every_earlier_key() {
    let mut cache = Cache::new();
    cache.update_union(&vec![(addr(1, 80), labelled("a"))]);
    cache.update_union(&vec![(addr(2, 80), labelled("b")), (addr(1, 80), labelled("c"))]);
    let last = vec![(addr(2, 80), labelled("x")), (addr(1, 80), labelled("y")), (addr(3, 80), labelled("z"))];
    cache.update_union(&last);
    assert_eq!(cache.len(), 3);
    for (key, value) in &last {
        assert!(cache.get(*key).unwrap().same(value));
    }
}

#[test]
fn reported_changes_rebuild_the_cache_from_empty() {
    let mut cache = Cache::new();
    let mut all = Vec::new();
    all.extend(cache.update_union(&vec![(addr(1, 80), labelled("a")), (addr(2, 80), labelled("b"))]));
    all.extend(cache.remove(&vec![addr(1, 80), addr(9, 80)]));
    all.extend(cache.update_union(&vec![(addr(2, 80), labelled("c")), (addr(3, 80), labelled("d"))]));
    cache.set_reset_on_next_modification();
    all.extend(cache.update_union(&vec![(addr(4, 80), labelled("e"))]));

    let mut rebuilt = Cache::new();
    for change in &all {
        match change {
            CacheChange::Insertion { key, value } => {
                rebuilt.update_union(&vec![(*key, value.clone())]);
            }
            CacheChange::Modification { key, new_value } => {
                rebuilt.update_union(&vec![(*key, new_value.clone())]);
            }
            CacheChange::Removal { key } => {
                rebuilt.remove(&vec![*key]);
            }
        }
    }
    assert_eq!(contents(&rebuilt), contents(&cache));
    assert_eq!(contents(&cache), vec![addr(4, 80)]);
    assert!(rebuilt.get(addr(4, 80)).unwrap().same(&labelled("e")));
}

#[test]
fn remove_reports_only_keys_that_were_present() {
    let mut cache = Cache::new();
    let meta = Metadata::no_metadata();
    cache.update_union(&vec![(addr(1, 80), meta.clone()), (addr(2, 80), meta.clone()), (addr(3, 80), meta.clone())]);
    let changes = cache.remove(&vec![addr(2, 80), addr(7, 80), addr(2, 80)]);
    assert_eq!(seen(&changes, &meta), vec![Seen::Removal(addr(2, 80))]);
    assert_eq!(contents(&cache), vec![addr(1, 80), addr(3, 80)]);
    assert!(cache.get(addr(2, 80)).is_none());
}

#[test]
fn clear_reports_every_entry_as_removed() {
    let mut cache = Cache::new();
    let meta = Metadata::no_metadata();
    cache.update_union(&vec![(addr(1, 80), meta.clone()), (addr(2, 80), meta.clone())]);
    let changes = cache.clear();
    assert_eq!(
        seen(&changes, &meta),
        vec![Seen::Removal(addr(1, 80)), Seen::Removal(addr(2, 80))]
    );
    assert!(cache.is_empty());
    assert_eq!(cache.clear().len(), 0);
}

#[test]
fn reset_clears_before_the_next_update_and_only_that_one() {
    let mut cache = Cache::new();
    let meta = Metadata::no_metadata();
    cache.update_union(&vec![(addr(1, 80), meta.clone())]);
    cache.set_reset_on_next_modification();
    assert!(cache.is_reset_pending());
    assert_eq!(contents(&cache), vec![addr(1, 80)]);
    let changes = cache.update_union(&vec![(addr(2, 80), meta.clone())]);
    assert_eq!(
        seen(&changes, &meta),
        vec![Seen::Removal(addr(1, 80)), Seen::Insertion(addr(2, 80), true)]
    );
    assert!(!cache.is_reset_pending());
    let changes = cache.update_union(&vec![(addr(3, 80), meta.clone())]);
    assert_eq!(seen(&changes, &meta), vec![Seen::Insertion(addr(3, 80), true)]);
    assert_eq!(contents(&cache), vec![addr(2, 80), addr(3, 80)]);
}

#[test]
fn reset_clears_before_the_next_removal() {
    let mut cache = Cache::new();
    let meta = Metadata::no_metadata();
    cache.update_union(&vec![(addr(1, 80), meta.clone()), (addr(2, 80), meta.clone())]);
    cache.set_reset_on_next_modification();
    let changes = cache.remove(&vec![addr(1, 80)]);
    assert_eq!(
        seen(&changes, &meta),
        vec![Seen::Removal(addr(1, 80)), Seen::Removal(addr(2, 80))]
    );
    assert!(cache.is_empty());
    assert!(!cache.is_reset_pending());
}

#[test]
fn metadata_is_compared_by_value() {
    assert!(labelled("a").same(&labelled("a")));
    assert!(!labelled("a").same(&labelled("b")));
    assert!(!labelled("a").same(&Metadata::no_metadata()));
    assert!(Metadata::no_metadata().same(&Metadata::no_metadata()));
    assert!(Metadata::no_metadata().dst_labels().is_none());
    assert!(!Metadata::no_metadata().tls_identity().is_some());
    assert!(labelled("a").tls_identity().is_some());
    assert_eq!(labelled("a").dst_labels().unwrap().labels().len(), 1);
}

#[test]
fn labels_are_compared_in_order_and_in_full() {
    let label = |k: &str, v: &str| Label::new(k.to_owned(), v.to_owned());
    assert!(label("a", "1").same(&label("a", "1")));
    assert!(!label("a", "1").same(&label("a", "2")));
    assert!(!label("a", "1").same(&label("b", "1")));
    assert!(DstLabels::new(vec![]).is_none());
    let one = DstLabels::new(vec![label("a", "1")]).unwrap();
    let two = DstLabels::new(vec![label("a", "1"), label("b", "2")]).unwrap();
    let swapped = DstLabels::new(vec![label("b", "2"), label("a", "1")]).unwrap();
    assert!(one.same(&one.clone()));
    assert!(!one.same(&two));
    assert!(!two.same(&swapped));
    assert!(two.same(&two.clone()));
    let known = TlsIdentity::Identified(Identity { name: "a.example".to_owned() });
    let other = TlsIdentity::Identified(Identity { name: "b.example".to_owned() });
    assert!(known.same(&known.clone()));
    assert!(!known.same(&other));
    assert!(!known.same(Metadata::no_metadata().tls_identity()));
}

#[test]
fn empty_update_changes_nothing() {
    let mut cache = Cache::new();
    assert_eq!(cache.update_union(&vec![]).len(), 0);
    assert_eq!(cache.remove(&vec![]).len(), 0);
    assert!(cache.is_empty());
    cache.update_union(&vec![(addr(1, 80), Metadata::no_metadata())]);
    assert_eq!(cache.update_union(&vec![]).len(), 0);
    assert_eq!(contents(&cache), vec![addr(1, 80)]);
    cache.set_reset_on_next_modification();
    let changes = cache.update_union(&vec![]);
    assert_eq!(seen(&changes, &Metadata::no_metadata()), vec![Seen::Removal(addr(1, 80))]);
    assert!(cache.is_empty());
}
