//! Which bound endpoints must be bound again after the TLS configuration
//! changed.

use vstd::prelude::*;
use indexmap::IndexMap;
use std::collections::hash_map::RandomState;
use crate::addr::{AddrKey, SocketAddr};
use crate::cache::{distinct_keys, has_key, position, put, EntryView};
use crate::metadata::Endpoint;

verus! {

/// `indexmap::IndexMap`: a hash map that keeps its pairs in order. Nothing
/// inside it is visible here; what a map holds is named by `held`.
#[verifier::external_type_specification]
#[verifier::external_body]
#[verifier::reject_recursive_types(K)]
#[verifier::reject_recursive_types(V)]
#[verifier::reject_recursive_types(S)]
pub struct ExIndexMap<K, V, S>(IndexMap<K, V, S>);

/// The pairs of key and endpoint that a map holds, in the map's order.
pub uninterp spec fn held(m: IndexMap<AddrKey, Endpoint, RandomState>) -> Seq<
    (AddrKey, Endpoint),
>;

/// Whether some pair has this key.
pub open spec fn holds_key(s: Seq<(AddrKey, Endpoint)>, key: AddrKey) -> bool {
    exists|i: int| 0 <= i < s.len() && (#[trigger] s[i]).0 == key
}

/// The place of a pair with this key, where there is one.
pub open spec fn place_of(s: Seq<(AddrKey, Endpoint)>, key: AddrKey) -> int {
    choose|i: int| 0 <= i < s.len() && (#[trigger] s[i]).0 == key
}

/// `IndexMap::new`: a map that holds nothing.
#[verifier::external_body]
fn map_new() -> (m: IndexMap<AddrKey, Endpoint, RandomState>)
    ensures
        held(m) == Seq::<(AddrKey, Endpoint)>::empty(),
{
    IndexMap::new()
}

/// `IndexMap::len`: the number of pairs.
#[verifier::external_body]
fn map_len(m: &IndexMap<AddrKey, Endpoint, RandomState>) -> (n: usize)
    ensures
        n == held(*m).len(),
{
    m.len()
}

/// `IndexMap::insert`: a key that is present keeps its place, its value is
/// replaced and the old value returned; a new key is put last and nothing is
/// returned.
#[verifier::external_body]
fn map_insert(m: &mut IndexMap<AddrKey, Endpoint, RandomState>, key: AddrKey, value: Endpoint) -> (replaced:
    Option<Endpoint>)
    ensures
        holds_key(held(*old(m)), key) ==> replaced == Some(
            held(*old(m))[place_of(held(*old(m)), key)].1,
        ) && held(*final(m)) == held(*old(m)).update(
            place_of(held(*old(m)), key),
            (key, value),
        ),
        !holds_key(held(*old(m)), key) ==> replaced is None && held(*final(m)) == held(
            *old(m),
        ).push((key, value)),
{
    m.insert(key, value)
}

/// `IndexMap::swap_remove`: a key that is present leaves with its value,
/// which is returned, and the last pair takes its place; for a key that is
/// not present nothing changes and nothing is returned.
#[verifier::external_body]
fn map_swap_remove(m: &mut IndexMap<AddrKey, Endpoint, RandomState>, key: AddrKey) -> (removed:
    Option<Endpoint>)
    ensures
        holds_key(held(*old(m)), key) ==> removed == Some(
            held(*old(m))[place_of(held(*old(m)), key)].1,
        ) && held(*final(m)) == held(*old(m)).update(
            place_of(held(*old(m)), key),
            held(*old(m)).last(),
        ).drop_last(),
        !holds_key(held(*old(m)), key) ==> removed is None && held(*final(m)) == held(
            *old(m),
        ),
{
    m.swap_remove(&key)
}

/// `IndexMap::pop`: the last pair leaves and is returned, the others keep
/// their order; an empty map stays empty and gives nothing.
#[verifier::external_body]
fn map_pop(m: &mut IndexMap<AddrKey, Endpoint, RandomState>) -> (last: Option<(AddrKey, Endpoint)>)
    ensures
        held(*old(m)).len() > 0 ==> last == Some(held(*old(m)).last()) && held(*final(m))
            == held(*old(m)).drop_last(),
        held(*old(m)).len() == 0 ==> last is None && held(*final(m)) == held(*old(m)),
{
    m.pop()
}

/// The endpoints of the pairs, each by its view.
pub open spec fn held_views(s: Seq<(AddrKey, Endpoint)>) -> Seq<EntryView> {
    s.map_values(|p: (AddrKey, Endpoint)| p.1@)
}

/// Every pair is filed under the key of its endpoint's address.
pub open spec fn keyed_by_address(s: Seq<(AddrKey, Endpoint)>) -> bool {
    forall|i: int| 0 <= i < s.len() ==> (#[trigger] s[i]).0 == s[i].1@.0.spec_key()
}

/// The entries without `key`, the last entry in its place.
pub open spec fn swap_without(s: Seq<EntryView>, key: SocketAddr) -> Seq<EntryView> {
    if has_key(s, key) {
        s.update(position(s, key), s.last()).drop_last()
    } else {
        s
    }
}

/// No address of one sequence is an address of the other.
pub open spec fn disjoint(a: Seq<EntryView>, b: Seq<EntryView>) -> bool {
    forall|i: int, j: int|
        0 <= i < a.len() && 0 <= j < b.len() ==> (#[trigger] a[i]).0 != (#[trigger] b[j]).0
}

/// Every endpoint has a TLS identity.
pub open spec fn all_identified(s: Seq<EntryView>) -> bool {
    forall|i: int| 0 <= i < s.len() ==> (#[trigger] s[i]).1.tls_identity is Identified
}

/// Tracks what is needed to rebind endpoints when the TLS configuration is
/// invalidated.
///
/// `now` holds the endpoints that await a rebind; `next` holds those that
/// were rebound in this round and must be rebound again in the following
/// one. An address is in at most one of the two, and only endpoints with a
/// TLS identity are kept.
pub struct RebindState {
    rebinding: bool,
    now: IndexMap<AddrKey, Endpoint, RandomState>,
    next: IndexMap<AddrKey, Endpoint, RandomState>,
}

/// A rebind state as a specification value.
pub ghost struct RebindView {
    pub rebinding: bool,
    pub now: Seq<EntryView>,
    pub next: Seq<EntryView>,
}

/// The state after an endpoint was bound: one with a TLS identity is
/// kept in `now`, and no longer in `next`; any other changes nothing.
pub open spec fn with_endpoint(v: RebindView, ep: EntryView) -> RebindView {
    if ep.1.tls_identity is Identified {
        RebindView { now: put(v.now, ep.0, ep.1), next: swap_without(v.next, ep.0), ..v }
    } else {
        v
    }
}

/// The state after an address was removed from whichever of the two holds
/// it.
pub open spec fn without_endpoint(v: RebindView, addr: SocketAddr) -> RebindView {
    if has_key(v.now, addr) {
        RebindView { now: swap_without(v.now, addr), ..v }
    } else {
        RebindView { next: swap_without(v.next, addr), ..v }
    }
}

/// The state after one step of rebinding. Idle, nothing changes. While
/// rebinding, the last endpoint of `now` moves to `next`; once `now` is
/// empty the round is over, and `next` becomes the `now` of the following
/// round.
pub open spec fn stepped(v: RebindView) -> RebindView {
    if !v.rebinding {
        v
    } else if v.now.len() > 0 {
        RebindView {
            now: v.now.drop_last(),
            next: put(v.next, v.now.last().0, v.now.last().1),
            ..v
        }
    } else {
        RebindView { rebinding: false, now: v.next, next: Seq::empty() }
    }
}

/// The endpoint that one step of rebinding hands out, if any.
pub open spec fn to_rebind(v: RebindView) -> Option<EntryView> {
    if v.rebinding && v.now.len() > 0 {
        Some(v.now.last())
    } else {
        None
    }
}

proof fn views_agree(s: Seq<(AddrKey, Endpoint)>, addr: SocketAddr)
    requires
        keyed_by_address(s),
        distinct_keys(held_views(s)),
    ensures
        holds_key(s, addr.spec_key()) == has_key(held_views(s), addr),
        holds_key(s, addr.spec_key()) ==> place_of(s, addr.spec_key()) == position(
            held_views(s),
            addr,
        ),
{
    let v = held_views(s);
    let key = addr.spec_key();
    if holds_key(s, key) {
        let i = place_of(s, key);
        SocketAddr::key_is_injective(s[i].1@.0, addr);
        assert(v[i].0 == addr);
        crate::cache::position_is_unique(v, i);
    }
    if has_key(v, addr) {
        let j = position(v, addr);
        assert(s[j].0 == key);
    }
}

impl View for RebindState {
    type V = RebindView;

    closed spec fn view(&self) -> RebindView {
        RebindView {
            rebinding: self.rebinding,
            now: held_views(held(self.now)),
            next: held_views(held(self.next)),
        }
    }
}

impl RebindState {
    /// The invariant of a rebind state.
    pub closed spec fn wf(&self) -> bool {
        &&& keyed_by_address(held(self.now))
        &&& keyed_by_address(held(self.next))
        &&& distinct_keys(self@.now)
        &&& distinct_keys(self@.next)
        &&& disjoint(self@.now, self@.next)
        &&& all_identified(self@.now)
        &&& all_identified(self@.next)
    }

    /// In a well-formed state no address is kept twice, and every
    /// endpoint that is kept has a TLS identity.
    pub proof fn wf_means(&self)
        requires
            self.wf(),
        ensures
            distinct_keys(self@.now),
            distinct_keys(self@.next),
            disjoint(self@.now, self@.next),
            all_identified(self@.now),
            all_identified(self@.next),
    {
    }

    /// An idle state that tracks nothing.
    pub fn new() -> (state: RebindState)
        ensures
            state.wf(),
            state@ == (RebindView { rebinding: false, now: Seq::empty(), next: Seq::empty() }),
    {
        let state = RebindState { rebinding: false, now: map_new(), next: map_new() };
        assert(state@.now =~= Seq::<EntryView>::empty());
        assert(state@.next =~= Seq::<EntryView>::empty());
        state
    }

    pub fn is_rebinding(&self) -> (b: bool)
        ensures
            b == self@.rebinding,
    {
        self.rebinding
    }

    /// Whether an endpoint awaits a rebind in this round.
    pub fn awaits_rebind(&self) -> (b: bool)
        ensures
            b == (to_rebind(self@) is Some),
    {
        self.rebinding && map_len(&self.now) > 0
    }

    /// How many endpoints await a rebind, and how many were rebound in this
    /// round.
    pub fn counts(&self) -> (n: (usize, usize))
        ensures
            n.0 == self@.now.len(),
            n.1 == self@.next.len(),
    {
        (map_len(&self.now), map_len(&self.next))
    }

    /// Tracks an endpoint that was bound, if it has a TLS identity; only
    /// then can a change of the TLS configuration concern it.
    pub fn add_endpoint(&mut self, ep: Endpoint)
        requires
            old(self).wf(),
        ensures
            final(self).wf(),
            final(self)@ == with_endpoint(old(self)@, ep@),
    {
        if ep.tls_identity().is_some() {
            let addr = ep.address();
            let key = addr.key();
            let ghost now0 = held(self.now);
            let ghost next0 = held(self.next);
            proof {
                views_agree(now0, addr);
                views_agree(next0, addr);
                crate::cache::put_keeps_distinct(self@.now, addr, ep@.1);
            }
            let _ = map_swap_remove(&mut self.next, key);
            let _ = map_insert(&mut self.now, key, ep);
            proof {
                let now1 = held(self.now);
                let next1 = held(self.next);
                assert(held_views(now1) =~= put(held_views(now0), addr, ep@.1));
                assert(held_views(next1) =~= swap_without(held_views(next0), addr));
                swap_without_keeps(held_views(next0), addr);
                assert(keyed_by_address(now1));
                assert(keyed_by_address(next1));
                assert(all_identified(self@.now));
                assert(disjoint(self@.now, self@.next)) by {
                    let a = self@.now;
                    let b = self@.next;
                    assert forall|i: int, j: int| 0 <= i < a.len() && 0 <= j < b.len() implies (
                    #[trigger] a[i]).0 != (#[trigger] b[j]).0 by {
                        assert(held_views(next0).contains(b[j]));
                        let q = choose|q: int|
                            0 <= q < held_views(next0).len() && held_views(next0)[q] == b[j];
                        if a[i].0 == addr {
                            assert(b[j].0 != addr);
                        } else {
                            assert(held_views(now0)[i] == a[i]);
                            assert(held_views(now0)[i].0 != held_views(next0)[q].0);
                        }
                    }
                }
            }
        }
    }

    /// Stops tracking an address, in whichever of the two it is held.
    pub fn remove_endpoint(&mut self, addr: &SocketAddr)
        requires
            old(self).wf(),
        ensures
            final(self).wf(),
            final(self)@ == without_endpoint(old(self)@, *addr),
            !has_key(final(self)@.now, *addr),
            !has_key(final(self)@.next, *addr),
    {
        proof {
            self.wf_means();
            removed_address_is_kept_nowhere(self@, *addr);
        }
        let key = addr.key();
        let ghost now0 = held(self.now);
        let ghost next0 = held(self.next);
        proof {
            views_agree(now0, *addr);
            views_agree(next0, *addr);
            swap_without_keeps(held_views(now0), *addr);
            swap_without_keeps(held_views(next0), *addr);
        }
        if map_swap_remove(&mut self.now, key).is_some() {
            proof {
                let now1 = held(self.now);
                assert(held_views(now1) =~= swap_without(held_views(now0), *addr));
                assert(keyed_by_address(now1));
                assert(disjoint(self@.now, self@.next)) by {
                    let a = self@.now;
                    let b = self@.next;
                    assert forall|i: int, j: int| 0 <= i < a.len() && 0 <= j < b.len() implies (
                    #[trigger] a[i]).0 != (#[trigger] b[j]).0 by {
                        assert(held_views(now0).contains(a[i]));
                        let q = choose|q: int|
                            0 <= q < held_views(now0).len() && held_views(now0)[q] == a[i];
                        assert(held_views(now0)[q].0 != held_views(next0)[j].0);
                    }
                }
            }
        } else {
            let _ = map_swap_remove(&mut self.next, key);
            proof {
                let next1 = held(self.next);
                assert(held_views(next1) =~= swap_without(held_views(next0), *addr));
                assert(keyed_by_address(next1));
                assert(disjoint(self@.now, self@.next)) by {
                    let a = self@.now;
                    let b = self@.next;
                    assert forall|i: int, j: int| 0 <= i < a.len() && 0 <= j < b.len() implies (
                    #[trigger] a[i]).0 != (#[trigger] b[j]).0 by {
                        assert(held_views(next0).contains(b[j]));
                        let q = choose|q: int|
                            0 <= q < held_views(next0).len() && held_views(next0)[q] == b[j];
                        assert(held_views(now0)[i].0 != held_views(next0)[q].0);
                    }
                }
            }
        }
    }

    /// Records that the TLS configuration changed: rebinding starts.
    pub fn invalidate(&mut self)
        ensures
            final(self)@ == (RebindView { rebinding: true, ..old(self)@ }),
            old(self).wf() ==> final(self).wf(),
    {
        self.rebinding = true;
    }

    /// Returns the next endpoint that needs to be rebound, or nothing if no
    /// endpoint needs to be rebound now.
    pub fn next_to_rebind(&mut self) -> (ep: Option<Endpoint>)
        requires
            old(self).wf(),
        ensures
            final(self).wf(),
            final(self)@ == stepped(old(self)@),
            ep is Some <==> to_rebind(old(self)@) is Some,
            ep is Some ==> Some(ep->0@) == to_rebind(old(self)@),
    {
        if !self.rebinding {
            return None;
        }
        let ghost now0 = held(self.now);
        let ghost next0 = held(self.next);
        match map_pop(&mut self.now) {
            Some((key, ep)) => {
                let copy = ep.clone();
                proof {
                    assert(now0[now0.len() - 1] == (key, ep));
                    assert(held_views(now0)[now0.len() - 1] == ep@);
                    views_agree(next0, ep@.0);
                    crate::cache::put_keeps_distinct(held_views(next0), ep@.0, ep@.1);
                }
                let _ = map_insert(&mut self.next, key, copy);
                proof {
                    let now1 = held(self.now);
                    let next1 = held(self.next);
                    assert(held_views(now1) =~= held_views(now0).drop_last());
                    assert(held_views(next1) =~= put(held_views(next0), ep@.0, ep@.1));
                    assert(keyed_by_address(now1));
                    assert(keyed_by_address(next1));
                    assert(distinct_keys(self@.now));
                    assert(all_identified(self@.now));
                    assert(all_identified(self@.next));
                    assert(disjoint(self@.now, self@.next)) by {
                        let a = self@.now;
                        let b = self@.next;
                        assert forall|i: int, j: int|
                            0 <= i < a.len() && 0 <= j < b.len() implies (#[trigger] a[i]).0 != (
                        #[trigger] b[j]).0 by {
                            assert(a[i] == held_views(now0)[i]);
                            if b[j].0 == ep@.0 {
                                assert(held_views(now0)[i].0 != held_views(now0)[now0.len()
                                    - 1].0);
                            } else {
                                assert(b[j] == held_views(next0)[j]);
                                assert(held_views(now0)[i].0 != held_views(next0)[j].0);
                            }
                        }
                    }
                }
                Some(ep)
            },
            None => {
                self.rebinding = false;
                std::mem::swap(&mut self.now, &mut self.next);
                proof {
                    assert(self@.next =~= Seq::<EntryView>::empty());
                }
                None
            },
        }
    }
}

/// An address that was removed is kept in neither of the two.
pub proof fn removed_address_is_kept_nowhere(v: RebindView, addr: SocketAddr)
    requires
        distinct_keys(v.now),
        distinct_keys(v.next),
        disjoint(v.now, v.next),
    ensures
        !has_key(without_endpoint(v, addr).now, addr),
        !has_key(without_endpoint(v, addr).next, addr),
{
    swap_without_keeps(v.now, addr);
    swap_without_keeps(v.next, addr);
    if has_key(v.now, addr) {
        let p = position(v.now, addr);
        if has_key(v.next, addr) {
            let q = position(v.next, addr);
            assert(v.now[p].0 != v.next[q].0);
        }
    }
}

/// Removing an address by swapping keeps the other entries, and with them
/// what held of all entries.
proof fn swap_without_keeps(s: Seq<EntryView>, addr: SocketAddr)
    requires
        distinct_keys(s),
    ensures
        distinct_keys(swap_without(s, addr)),
        !has_key(swap_without(s, addr), addr),
        forall|i: int|
            0 <= i < swap_without(s, addr).len() ==> s.contains(#[trigger] swap_without(s, addr)[i]),
        all_identified(s) ==> all_identified(swap_without(s, addr)),
{
    let t = swap_without(s, addr);
    if has_key(s, addr) {
        let p = position(s, addr);
        assert(s[p].0 == addr);
        let last = s.len() - 1;
        assert forall|i: int| 0 <= i < t.len() implies s.contains(#[trigger] t[i]) by {
            if i == p {
                assert(s[last] == t[i]);
            } else {
                assert(s[i] == t[i]);
            }
        }
        assert forall|i: int, j: int| 0 <= i < j < t.len() implies (#[trigger] t[i]).0 != (
        #[trigger] t[j]).0 by {
            let a = if i == p { last } else { i };
            let b = if j == p { last } else { j };
            assert(t[i] == s[a] && t[j] == s[b]);
            if a < b {
                assert(s[a].0 != s[b].0);
            } else {
                assert(s[b].0 != s[a].0);
            }
        }
        assert forall|i: int| 0 <= i < t.len() implies (#[trigger] t[i]).0 != addr by {
            let a = if i == p { last } else { i };
            assert(t[i] == s[a]);
            if a < p {
                assert(s[a].0 != s[p].0);
            } else if p < a {
                assert(s[p].0 != s[a].0);
            }
        }
        if all_identified(s) {
            assert forall|i: int| 0 <= i < t.len() implies (
            #[trigger] t[i]).1.tls_identity is Identified by {
                let a = if i == p { last } else { i };
                assert(t[i] == s[a]);
            }
        }
    } else {
        assert forall|i: int| 0 <= i < t.len() implies s.contains(#[trigger] t[i]) by {
            assert(s[i] == t[i]);
        }
    }
}

} // verus!
