//! Updates for subscribers, and the handles through which they are sent.

use vstd::prelude::*;
use crate::addr::SocketAddr;
use crate::cache::{CacheChange, ChangeView};
use crate::metadata::{Metadata, MetadataView};

verus! {

/// What a subscriber is told.
#[derive(Debug)]
pub enum Update {
    /// An endpoint should be bound to the address with the metadata. An
    /// endpoint already bound to the address is replaced.
    Bind(SocketAddr, Metadata),
    /// The endpoint for the address should be removed.
    Remove(SocketAddr),
    /// Every endpoint with a TLS identity should be rebound.
    RebindIfTls,
}

/// An update as a specification value.
pub ghost enum UpdateView {
    Bind(SocketAddr, MetadataView),
    Remove(SocketAddr),
    RebindIfTls,
}

impl View for Update {
    type V = UpdateView;

    open spec fn view(&self) -> UpdateView {
        match self {
            Update::Bind(addr, meta) => UpdateView::Bind(*addr, meta@),
            Update::Remove(addr) => UpdateView::Remove(*addr),
            Update::RebindIfTls => UpdateView::RebindIfTls,
        }
    }
}

impl Clone for Update {
    fn clone(&self) -> (copy: Update)
        ensures
            copy@ == self@,
    {
        match self {
            Update::Bind(addr, meta) => Update::Bind(*addr, meta.clone()),
            Update::Remove(addr) => Update::Remove(*addr),
            Update::RebindIfTls => Update::RebindIfTls,
        }
    }
}

/// The updates of a list, each by its view.
pub open spec fn update_views(updates: Seq<Update>) -> Seq<UpdateView> {
    updates.map_values(|u: Update| u@)
}

/// The update that tells a subscriber of a change to the cache: an inserted
/// or modified entry is bound, a removed one is removed.
pub open spec fn update_of(change: ChangeView) -> UpdateView {
    match change {
        ChangeView::Insertion { key, value } => UpdateView::Bind(key, value),
        ChangeView::Removal { key } => UpdateView::Remove(key),
        ChangeView::Modification { key, new_value } => UpdateView::Bind(key, new_value),
    }
}

/// The updates that tell of a run of changes, in order.
pub open spec fn updates_of(changes: Seq<ChangeView>) -> Seq<UpdateView> {
    changes.map_values(|c: ChangeView| update_of(c))
}

/// The update that tells a subscriber of a change to the cache.
pub fn update_for(change: &CacheChange) -> (update: Update)
    ensures
        update@ == update_of(change@),
{
    match change {
        CacheChange::Insertion { key, value } => Update::Bind(*key, value.clone()),
        CacheChange::Removal { key } => Update::Remove(*key),
        CacheChange::Modification { key, new_value } => Update::Bind(*key, new_value.clone()),
    }
}

/// The sending side of one subscription.
///
/// A responder queues updates for its subscriber for as long as the
/// subscriber is there. Once the subscriber is gone the responder is dead for
/// good: nothing more is queued, and the owner drops it.
#[derive(Debug)]
pub struct Responder {
    id: u64,
    active: bool,
    queue: Vec<Update>,
}

/// A responder as a specification value.
pub ghost struct ResponderView {
    pub id: u64,
    pub active: bool,
    pub queue: Seq<UpdateView>,
}

impl View for Responder {
    type V = ResponderView;

    closed spec fn view(&self) -> ResponderView {
        ResponderView { id: self.id, active: self.active, queue: update_views(self.queue@) }
    }
}

/// The responders of a list, each by its view.
pub open spec fn responder_views(responders: Seq<Responder>) -> Seq<ResponderView> {
    responders.map_values(|r: Responder| r@)
}

/// A responder after one more update was queued.
pub open spec fn with_update(r: ResponderView, update: UpdateView) -> ResponderView {
    ResponderView { queue: r.queue.push(update), ..r }
}

/// The responders after an update was sent to each: the live ones, in their
/// order, each with the update queued last. The dead ones are dropped.
pub open spec fn deliver_one(rs: Seq<ResponderView>, update: UpdateView) -> Seq<ResponderView>
    decreases rs.len(),
{
    if rs.len() == 0 {
        rs
    } else if rs.last().active {
        deliver_one(rs.drop_last(), update).push(with_update(rs.last(), update))
    } else {
        deliver_one(rs.drop_last(), update)
    }
}

/// The responders after a run of updates was sent to each, in order.
pub open spec fn deliver(rs: Seq<ResponderView>, updates: Seq<UpdateView>) -> Seq<ResponderView>
    decreases updates.len(),
{
    if updates.len() == 0 {
        rs
    } else {
        deliver_one(deliver(rs, updates.drop_last()), updates.last())
    }
}

/// The live responders of a list, in their order.
pub open spec fn live(rs: Seq<ResponderView>) -> Seq<ResponderView>
    decreases rs.len(),
{
    if rs.len() == 0 {
        rs
    } else if rs.last().active {
        live(rs.drop_last()).push(rs.last())
    } else {
        live(rs.drop_last())
    }
}

proof fn update_views_push(updates: Seq<Update>, update: Update)
    ensures
        update_views(updates.push(update)) == update_views(updates).push(update@),
{
    assert(update_views(updates.push(update)) =~= update_views(updates).push(update@));
}

pub(crate) proof fn responder_views_push(rs: Seq<Responder>, r: Responder)
    ensures
        responder_views(rs.push(r)) == responder_views(rs).push(r@),
{
    assert(responder_views(rs.push(r)) =~= responder_views(rs).push(r@));
}

impl Responder {
    /// A responder for a subscriber that is there, with nothing queued.
    pub fn new(id: u64) -> (r: Responder)
        ensures
            r@ == (ResponderView { id, active: true, queue: Seq::empty() }),
    {
        let r = Responder { id, active: true, queue: Vec::new() };
        assert(r@.queue =~= Seq::<UpdateView>::empty());
        r
    }

    pub fn id(&self) -> (id: u64)
        ensures
            id == self@.id,
    {
        self.id
    }

    /// Whether the subscriber is still there.
    pub fn is_active(&self) -> (b: bool)
        ensures
            b == self@.active,
    {
        self.active
    }

    /// Records that the subscriber is gone.
    pub fn close(&mut self)
        ensures
            final(self)@ == (ResponderView { active: false, ..old(self)@ }),
    {
        self.active = false;
    }

    /// Queues an update for the subscriber. Fails, and queues nothing, once
    /// the subscriber is gone.
    pub fn send(&mut self, update: Update) -> (sent: bool)
        ensures
            sent == old(self)@.active,
            sent ==> final(self)@ == with_update(old(self)@, update@),
            !sent ==> final(self)@ == old(self)@,
    {
        if self.active {
            proof {
                update_views_push(self.queue@, update);
            }
            self.queue.push(update);
            true
        } else {
            false
        }
    }

    /// The updates queued and not yet taken, oldest first.
    pub fn queued(&self) -> (updates: &Vec<Update>)
        ensures
            update_views(updates@) == self@.queue,
    {
        &self.queue
    }

    /// Takes the queued updates out, oldest first.
    pub fn take_updates(&mut self) -> (updates: Vec<Update>)
        ensures
            update_views(updates@) == old(self)@.queue,
            final(self)@ == (ResponderView { queue: Seq::empty(), ..old(self)@ }),
    {
        let mut updates: Vec<Update> = Vec::new();
        std::mem::swap(&mut self.queue, &mut updates);
        assert(self@.queue =~= Seq::<UpdateView>::empty());
        updates
    }
}

/// Sends an update to every responder and drops those that are dead.
pub fn send_to_all(responders: &mut Vec<Responder>, update: &Update)
    ensures
        responder_views(final(responders)@) == deliver_one(
            responder_views(old(responders)@),
            update@,
        ),
{
    let ghost before = responder_views(responders@);
    let mut all: Vec<Responder> = Vec::new();
    std::mem::swap(responders, &mut all);
    let total: usize = all.len();
    let mut i: usize = 0;
    while all.len() > 0
        invariant
            i + all@.len() == total,
            total == before.len(),
            responder_views(all@) == before.skip(i as int),
            responder_views(responders@) == deliver_one(before.take(i as int), update@),
        decreases all.len(),
    {
        let ghost rest = all@;
        let ghost kept = responders@;
        let mut r = all.remove(0);
        proof {
            assert(r@ == responder_views(rest)[0]);
            assert(r@ == before[i as int]);
            assert forall|k: int| 0 <= k < all@.len() implies responder_views(all@)[k]
                == before.skip(i + 1)[k] by {
                assert(all@[k] == rest[k + 1]);
                assert(responder_views(rest)[k + 1] == rest[k + 1]@);
                assert(before.skip(i as int)[k + 1] == before[i + k + 1]);
            }
            assert(responder_views(all@) =~= before.skip(i + 1));
            assert(before.take(i + 1).drop_last() == before.take(i as int));
            assert(before.take(i + 1).last() == before[i as int]);
        }
        if r.send(update.clone()) {
            responders.push(r);
            proof {
                responder_views_push(kept, r);
            }
        }
        i += 1;
    }
    proof {
        assert(before.take(i as int) == before);
    }
}

/// The responders after the subscriber `id` went away: its responders are
/// dead, the others as they were.
pub open spec fn closed_for(rs: Seq<ResponderView>, id: u64) -> Seq<ResponderView> {
    rs.map_values(
        |r: ResponderView|
            if r.id == id {
                ResponderView { active: false, ..r }
            } else {
                r
            },
    )
}

/// Records that the subscriber `id` is gone.
pub fn close_responders(responders: &mut Vec<Responder>, id: u64)
    ensures
        responder_views(final(responders)@) == closed_for(responder_views(old(responders)@), id),
{
    let ghost before = responder_views(responders@);
    let mut all: Vec<Responder> = Vec::new();
    std::mem::swap(responders, &mut all);
    let total: usize = all.len();
    let mut i: usize = 0;
    while all.len() > 0
        invariant
            i + all@.len() == total,
            total == before.len(),
            responder_views(all@) == before.skip(i as int),
            responder_views(responders@) == closed_for(before, id).take(i as int),
        decreases all.len(),
    {
        let ghost rest = all@;
        let ghost kept = responders@;
        let mut r = all.remove(0);
        proof {
            assert(r@ == responder_views(rest)[0]);
            assert(r@ == before[i as int]);
            assert forall|k: int| 0 <= k < all@.len() implies responder_views(all@)[k]
                == before.skip(i + 1)[k] by {
                assert(all@[k] == rest[k + 1]);
                assert(responder_views(rest)[k + 1] == rest[k + 1]@);
                assert(before.skip(i as int)[k + 1] == before[i + k + 1]);
            }
            assert(responder_views(all@) =~= before.skip(i + 1));
        }
        if r.id() == id {
            r.close();
        }
        responders.push(r);
        proof {
            responder_views_push(kept, r);
            assert(responder_views(responders@) =~= closed_for(before, id).take(i + 1));
        }
        i += 1;
    }
    proof {
        assert(closed_for(before, id).take(i as int) =~= closed_for(before, id));
    }
}

/// The updates that were queued for one subscriber, oldest first.
#[derive(Debug)]
pub struct Delivery {
    pub to: u64,
    pub updates: Vec<Update>,
}

impl View for Delivery {
    type V = (u64, Seq<UpdateView>);

    open spec fn view(&self) -> (u64, Seq<UpdateView>) {
        (self.to, update_views(self.updates@))
    }
}

/// The deliveries of a list, each by its view.
pub open spec fn delivery_views(deliveries: Seq<Delivery>) -> Seq<(u64, Seq<UpdateView>)> {
    deliveries.map_values(|d: Delivery| d@)
}

/// What is queued for each responder, in the responders' order.
pub open spec fn queued_for(rs: Seq<ResponderView>) -> Seq<(u64, Seq<UpdateView>)> {
    rs.map_values(|r: ResponderView| (r.id, r.queue))
}

/// The responders with nothing queued.
pub open spec fn with_empty_queues(rs: Seq<ResponderView>) -> Seq<ResponderView> {
    rs.map_values(|r: ResponderView| ResponderView { queue: Seq::empty(), ..r })
}

/// Takes out what is queued for every responder, to be sent on.
pub fn take_all_updates(responders: &mut Vec<Responder>) -> (deliveries: Vec<Delivery>)
    ensures
        responder_views(final(responders)@) == with_empty_queues(responder_views(old(responders)@)),
        delivery_views(deliveries@) == queued_for(responder_views(old(responders)@)),
{
    let ghost before = responder_views(responders@);
    let mut deliveries: Vec<Delivery> = Vec::new();
    let mut all: Vec<Responder> = Vec::new();
    std::mem::swap(responders, &mut all);
    let total: usize = all.len();
    let mut i: usize = 0;
    while all.len() > 0
        invariant
            i + all@.len() == total,
            total == before.len(),
            responder_views(all@) == before.skip(i as int),
            responder_views(responders@) == with_empty_queues(before).take(i as int),
            delivery_views(deliveries@) == queued_for(before).take(i as int),
        decreases all.len(),
    {
        let ghost rest = all@;
        let ghost kept = responders@;
        let ghost sent = deliveries@;
        let mut r = all.remove(0);
        proof {
            assert(r@ == responder_views(rest)[0]);
            assert(r@ == before[i as int]);
            assert forall|k: int| 0 <= k < all@.len() implies responder_views(all@)[k]
                == before.skip(i + 1)[k] by {
                assert(all@[k] == rest[k + 1]);
                assert(responder_views(rest)[k + 1] == rest[k + 1]@);
                assert(before.skip(i as int)[k + 1] == before[i + k + 1]);
            }
            assert(responder_views(all@) =~= before.skip(i + 1));
        }
        let updates = r.take_updates();
        let delivery = Delivery { to: r.id(), updates };
        deliveries.push(delivery);
        responders.push(r);
        proof {
            responder_views_push(kept, r);
            assert(delivery_views(sent.push(delivery)) =~= delivery_views(sent).push(delivery@));
            assert(responder_views(responders@) =~= with_empty_queues(before).take(i + 1));
            assert(delivery_views(deliveries@) =~= queued_for(before).take(i + 1));
        }
        i += 1;
    }
    proof {
        assert(with_empty_queues(before).take(i as int) =~= with_empty_queues(before));
        assert(queued_for(before).take(i as int) =~= queued_for(before));
    }
    deliveries
}

/// Tells every responder of a change to the cache and drops the responders
/// that are dead.
pub fn on_change(responders: &mut Vec<Responder>, change: &CacheChange)
    ensures
        responder_views(final(responders)@) == deliver_one(
            responder_views(old(responders)@),
            update_of(change@),
        ),
{
    let update = update_for(change);
    send_to_all(responders, &update);
}

} // verus!
