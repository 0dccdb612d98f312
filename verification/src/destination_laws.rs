//! What holds of a destination set on every tick.

use vstd::prelude::*;
use crate::cache::{
    apply_change, distinct_keys, has_key, position_is_unique, put, replay, without,
    ChangeView, EntryView,
};
use crate::cache_laws::{
    after_updates, change_is_real, changes_are_real, changes_of_updates,
    replay_keeps_distinct, reported_changes_are_real, reported_changes_rebuild_the_cache,
};
use crate::destination_set::{
    added, after_messages_keep_queries, base_of, joined, replayed_to, reset_changes_of, serviced,
    signal_of, DnsQuery, Remote, SetView,
};
use crate::messages::{PbUpdate, PbUpdate2, StreamEnd};
use crate::responder::{
    deliver, deliver_one, update_of, updates_of, with_update, ResponderView, UpdateView,
};

verus! {

/// Whether a message confirms that the destination exists.
pub open spec fn confirms(m: PbUpdate) -> bool {
    match m.update {
        Some(PbUpdate2::Remove(_)) => true,
        Some(PbUpdate2::NoEndpoints(n)) => n.exists,
        _ => false,
    }
}

/// Whether a message denies that the destination exists.
pub open spec fn denies(m: PbUpdate) -> bool {
    match m.update {
        Some(PbUpdate2::NoEndpoints(n)) => !n.exists,
        _ => false,
    }
}

/// Whether the last message of the run that speaks of existence is at `at`.
pub open spec fn last_word_at(ms: Seq<PbUpdate>, at: int) -> bool {
    &&& 0 <= at < ms.len()
    &&& confirms(ms[at]) || denies(ms[at])
    &&& forall|j: int| at < j < ms.len() ==> !confirms(#[trigger] ms[j]) && !denies(ms[j])
}

proof fn last_word_decides(ms: Seq<PbUpdate>, at: int)
    requires
        last_word_at(ms, at),
    ensures
        confirms(ms[at]) ==> signal_of(ms) is Yes,
        denies(ms[at]) ==> signal_of(ms) is No,
    decreases ms.len(),
{
    if at < ms.len() - 1 {
        let front = ms.drop_last();
        assert(!confirms(ms[ms.len() - 1]) && !denies(ms[ms.len() - 1]));
        assert forall|j: int| at < j < front.len() implies !confirms(#[trigger] front[j])
            && !denies(front[j]) by {
            assert(front[j] == ms[j]);
        }
        assert(front[at] == ms[at]);
        last_word_decides(front, at);
    }
}

/// On a tick on which the last word of the control plane about existence
/// is a confirmation, no DNS query is left in flight.
pub proof fn confirmation_clears_the_dns_query(
    v: SetView,
    ms: Seq<PbUpdate>,
    end: StreamEnd,
    at: int,
)
    requires
        v.query == Some(Remote::ConnectedOrConnecting),
        last_word_at(ms, at),
        confirms(ms[at]),
    ensures
        serviced(v, ms, end).dns_query is None,
{
    last_word_decides(ms, at);
}

/// On a tick on which the last word of the control plane about existence
/// is a denial, a DNS query without delay is started.
pub proof fn denial_starts_a_dns_query(v: SetView, ms: Seq<PbUpdate>, end: StreamEnd, at: int)
    requires
        v.query == Some(Remote::ConnectedOrConnecting),
        last_word_at(ms, at),
        denies(ms[at]),
    ensures
        serviced(v, ms, end).dns_query == Some(DnsQuery { delay_secs: 0 }),
{
    last_word_decides(ms, at);
}

/// On a tick on which the control plane says nothing about existence, the
/// DNS query stays as it was, whether or not the stream went away.
pub proof fn silence_keeps_the_dns_query(v: SetView, ms: Seq<PbUpdate>, end: StreamEnd)
    requires
        signal_of(ms) is Unknown,
    ensures
        serviced(v, ms, end).dns_query == v.dns_query,
{
    after_messages_keep_queries(v, ms);
}

/// The updates that tell of every entry, in order.
pub open spec fn binds_of(entries: Seq<EntryView>) -> Seq<UpdateView> {
    entries.map_values(|e: EntryView| UpdateView::Bind(e.0, e.1))
}

proof fn replay_tells_all(r: ResponderView, entries: Seq<EntryView>)
    requires
        r.active,
    ensures
        replayed_to(r, entries) == (ResponderView {
            queue: r.queue + binds_of(entries),
            ..r
        }),
    decreases entries.len(),
{
    if entries.len() == 0 {
        assert(r.queue + binds_of(entries) =~= r.queue);
    } else {
        replay_tells_all(r, entries.drop_last());
        assert(binds_of(entries).drop_last() =~= binds_of(entries.drop_last()));
        assert(r.queue + binds_of(entries) =~= (r.queue + binds_of(entries.drop_last())).push(
            UpdateView::Bind(entries.last().0, entries.last().1),
        ));
    }
}

proof fn last_is_told(rs: Seq<ResponderView>, r: ResponderView, updates: Seq<UpdateView>)
    requires
        r.active,
    ensures
        deliver(rs.push(r), updates).len() > 0,
        deliver(rs.push(r), updates).last() == (ResponderView {
            queue: r.queue + updates,
            ..r
        }),
    decreases updates.len(),
{
    if updates.len() == 0 {
        assert(r.queue + updates =~= r.queue);
    } else {
        let front = updates.drop_last();
        last_is_told(rs, r, front);
        let before = deliver(rs.push(r), front);
        assert(before == before.drop_last().push(before.last()));
        assert(r.queue + updates =~= (r.queue + front).push(updates.last()));
    }
}

/// A subscriber that joins a destination with N cached endpoints is told
/// of exactly these N, in the cache's order, before it is told of anything
/// that happens later.
pub proof fn late_joiner_is_told_everything_first(
    v: SetView,
    r: ResponderView,
    later: Seq<UpdateView>,
)
    requires
        r.active,
    ensures
        binds_of(v.entries).len() == v.entries.len(),
        joined(v, r).responders.last().queue == r.queue + binds_of(v.entries),
        deliver(joined(v, r).responders, later).len() > 0,
        deliver(joined(v, r).responders, later).last().id == r.id,
        deliver(joined(v, r).responders, later).last().queue == r.queue + binds_of(v.entries)
            + later,
{
    replay_tells_all(r, v.entries);
    last_is_told(v.responders, replayed_to(r, v.entries), later);
}

/// The entries after a subscriber applied one update to them: a bound
/// endpoint is set, a removed address deleted.
pub open spec fn apply_update(s: Seq<EntryView>, update: UpdateView) -> Seq<EntryView> {
    match update {
        UpdateView::Bind(addr, meta) => put(s, addr, meta),
        UpdateView::Remove(addr) => without(s, addr),
        UpdateView::RebindIfTls => s,
    }
}

/// The entries after a subscriber applied a run of updates to them, in
/// order.
pub open spec fn replay_updates(s: Seq<EntryView>, updates: Seq<UpdateView>) -> Seq<EntryView>
    decreases updates.len(),
{
    if updates.len() == 0 {
        s
    } else {
        apply_update(replay_updates(s, updates.drop_last()), updates.last())
    }
}

/// Whether an update tells of a real transition of the entries it is
/// applied to: a bound endpoint is not there already with the same
/// metadata, a removed address is there.
pub open spec fn update_is_real(s: Seq<EntryView>, update: UpdateView) -> bool {
    match update {
        UpdateView::Bind(addr, meta) => !s.contains((addr, meta)),
        UpdateView::Remove(addr) => has_key(s, addr),
        UpdateView::RebindIfTls => true,
    }
}

/// Whether every update of a run tells of a real transition of the entries
/// as they are when it is applied.
pub open spec fn updates_are_real(s: Seq<EntryView>, updates: Seq<UpdateView>) -> bool
    decreases updates.len(),
{
    updates.len() == 0 || (updates_are_real(s, updates.drop_last()) && update_is_real(
        replay_updates(s, updates.drop_last()),
        updates.last(),
    ))
}

/// The cache after a run of additions to a destination set.
pub open spec fn added_all(v: SetView, updates: Seq<Seq<EntryView>>) -> SetView
    decreases updates.len(),
{
    if updates.len() == 0 {
        v
    } else {
        added(added_all(v, updates.drop_last()), updates.last())
    }
}

/// A subscriber that applies the updates for a run of changes ends where
/// replaying the changes ends, and is told of real transitions only, where
/// the changes are real.
pub proof fn updates_follow_changes(s: Seq<EntryView>, changes: Seq<ChangeView>)
    requires
        distinct_keys(s),
    ensures
        replay_updates(s, updates_of(changes)) == replay(s, changes),
        changes_are_real(s, changes) ==> updates_are_real(s, updates_of(changes)),
    decreases changes.len(),
{
    if changes.len() > 0 {
        let front = changes.drop_last();
        updates_follow_changes(s, front);
        replay_keeps_distinct(s, front);
        assert(updates_of(changes).drop_last() =~= updates_of(front));
        assert(updates_of(changes).last() == update_of(changes.last()));
        let t = replay(s, front);
        assert(apply_update(t, update_of(changes.last())) == apply_change(t, changes.last()));
        if changes_are_real(s, changes) {
            assert(change_is_real(t, changes.last()));
            match changes.last() {
                ChangeView::Insertion { key, value } => {
                    if t.contains((key, value)) {
                        let i = choose|i: int| 0 <= i < t.len() && t[i] == (key, value);
                        assert(t[i].0 == key);
                    }
                },
                ChangeView::Modification { key, new_value } => {
                    if t.contains((key, new_value)) {
                        let i = choose|i: int| 0 <= i < t.len() && t[i] == (key, new_value);
                        position_is_unique(t, i);
                    }
                },
                ChangeView::Removal { key } => {},
            }
        }
    }
}

proof fn only_responder_is_told(r: ResponderView, updates: Seq<UpdateView>)
    requires
        r.active,
    ensures
        deliver(seq![r], updates) == seq![ResponderView { queue: r.queue + updates, ..r }],
    decreases updates.len(),
{
    if updates.len() == 0 {
        assert(r.queue + updates =~= r.queue);
    } else {
        let front = updates.drop_last();
        only_responder_is_told(r, front);
        let told = ResponderView { queue: r.queue + front, ..r };
        assert(seq![told].drop_last() =~= Seq::<ResponderView>::empty());
        assert(seq![told].last() == told);
        assert(r.queue + updates =~= (r.queue + front).push(updates.last()));
        let none = Seq::<ResponderView>::empty();
        assert(deliver_one(none, updates.last()) == none);
        assert(deliver_one(seq![told], updates.last()) == deliver_one(
            seq![told].drop_last(),
            updates.last(),
        ).push(with_update(told, updates.last())));
        assert(deliver(seq![r], updates) =~= seq![
            ResponderView { queue: r.queue + updates, ..r },
        ]);
    }
}

proof fn additions_so_far(v: SetView, r: ResponderView, updates: Seq<Seq<EntryView>>)
    requires
        v.existence is Unknown,
        v.responders == seq![r],
        r.active,
    ensures
        base_of(added_all(v, updates)) == after_updates(updates),
        reset_changes_of(added_all(v, updates)) == Seq::<ChangeView>::empty(),
        added_all(v, updates).responders == seq![
            ResponderView { queue: r.queue + updates_of(changes_of_updates(updates)), ..r },
        ],
        updates.len() > 0 ==> added_all(v, updates).existence is Yes && added_all(
            v,
            updates,
        ).entries == after_updates(updates),
    decreases updates.len(),
{
    if updates.len() == 0 {
        assert(r.queue + updates_of(changes_of_updates(updates)) =~= r.queue);
    } else {
        let front = updates.drop_last();
        additions_so_far(v, r, front);
        let before = added_all(v, front);
        let told = ResponderView { queue: r.queue + updates_of(changes_of_updates(front)), ..r };
        let reported = crate::cache::union_changes(after_updates(front), updates.last());
        assert(reset_changes_of(before) + reported =~= reported);
        only_responder_is_told(told, updates_of(reported));
        assert(updates_of(changes_of_updates(front)) + updates_of(reported) =~= updates_of(
            changes_of_updates(updates),
        ));
        assert(told.queue + updates_of(reported) =~= r.queue + updates_of(
            changes_of_updates(updates),
        ));
    }
}

/// Where a destination of which nothing is known has one live subscriber
/// with nothing queued, and endpoints are added to it any number of times,
/// the subscriber's queue holds exactly the updates for the changes that
/// were reported: applied in order to nothing, they give the cache as it
/// is in the end, and each of them tells of a real transition.
pub proof fn queue_rebuilds_the_cache(v: SetView, r: ResponderView, updates: Seq<Seq<EntryView>>)
    requires
        v.existence is Unknown,
        v.responders == seq![r],
        r.active,
        r.queue == Seq::<UpdateView>::empty(),
        updates.len() >= 1,
    ensures
        added_all(v, updates).existence is Yes,
        added_all(v, updates).entries == after_updates(updates),
        added_all(v, updates).responders.len() == 1,
        added_all(v, updates).responders[0].queue == updates_of(changes_of_updates(updates)),
        replay_updates(Seq::empty(), added_all(v, updates).responders[0].queue) == added_all(
            v,
            updates,
        ).entries,
        updates_are_real(Seq::empty(), added_all(v, updates).responders[0].queue),
{
    additions_so_far(v, r, updates);
    assert(r.queue + updates_of(changes_of_updates(updates)) =~= updates_of(
        changes_of_updates(updates),
    ));
    reported_changes_rebuild_the_cache(updates);
    reported_changes_are_real(updates);
    updates_follow_changes(Seq::empty(), changes_of_updates(updates));
}

} // verus!
