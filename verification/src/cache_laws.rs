//! What holds of the endpoint cache over any run of changes.

use vstd::prelude::*;
use crate::addr::SocketAddr;
use crate::metadata::MetadataView;
use crate::cache::{
    apply_change, clear_changes, distinct_keys, has_key, position, position_is_unique, put,
    put_change, put_keeps_distinct, removal_changes, removed_entries, replay, union_changes,
    union_entries, without, without_change, without_keeps_distinct, ChangeView, EntryView,
};

verus! {

/// A key has one value wherever it occurs.
pub open spec fn single_valued(s: Seq<EntryView>) -> bool {
    forall|i: int, j: int|
        0 <= i < s.len() && 0 <= j < s.len() && (#[trigger] s[i]).0 == (#[trigger] s[j]).0
            ==> s[i].1 == s[j].1
}

/// Two sequences hold the same pairs of key and value.
pub open spec fn same_entries(a: Seq<EntryView>, b: Seq<EntryView>) -> bool {
    forall|e: EntryView| a.contains(e) <==> b.contains(e)
}

/// The cache after a run of union updates applied to an empty cache.
pub open spec fn after_updates(updates: Seq<Seq<EntryView>>) -> Seq<EntryView>
    decreases updates.len(),
{
    if updates.len() == 0 {
        Seq::empty()
    } else {
        union_entries(after_updates(updates.drop_last()), updates.last())
    }
}

/// Everything that a run of union updates applied to an empty cache reports.
pub open spec fn changes_of_updates(updates: Seq<Seq<EntryView>>) -> Seq<ChangeView>
    decreases updates.len(),
{
    if updates.len() == 0 {
        Seq::empty()
    } else {
        changes_of_updates(updates.drop_last()) + union_changes(
            after_updates(updates.drop_last()),
            updates.last(),
        )
    }
}

proof fn put_holds(s: Seq<EntryView>, key: SocketAddr, value: MetadataView)
    ensures
        put(s, key, value).contains((key, value)),
{
    let t = put(s, key, value);
    if has_key(s, key) {
        let p = position(s, key);
        assert(t[p] == (key, value));
    } else {
        assert(t[s.len() as int] == (key, value));
    }
}

proof fn put_keeps_others(s: Seq<EntryView>, key: SocketAddr, value: MetadataView, e: EntryView)
    requires
        s.contains(e),
        e.0 != key,
    ensures
        put(s, key, value).contains(e),
{
    let t = put(s, key, value);
    let i = choose|i: int| 0 <= i < s.len() && s[i] == e;
    if has_key(s, key) {
        let p = position(s, key);
        assert(s[p].0 == key);
        assert(t[i] == e);
    } else {
        assert(t[i] == e);
    }
}

proof fn put_holds_nothing_else(
    s: Seq<EntryView>,
    key: SocketAddr,
    value: MetadataView,
    e: EntryView,
)
    requires
        put(s, key, value).contains(e),
    ensures
        e == (key, value) || s.contains(e),
{
    let t = put(s, key, value);
    let i = choose|i: int| 0 <= i < t.len() && t[i] == e;
    if has_key(s, key) {
        let p = position(s, key);
        if i != p {
            assert(s[i] == e);
        }
    } else {
        if i < s.len() {
            assert(s[i] == e);
        }
    }
}

proof fn put_of_held_changes_nothing(s: Seq<EntryView>, key: SocketAddr, value: MetadataView)
    requires
        distinct_keys(s),
        s.contains((key, value)),
    ensures
        put(s, key, value) == s,
        put_change(s, key, value) == Seq::<ChangeView>::empty(),
{
    let i = choose|i: int| 0 <= i < s.len() && s[i] == (key, value);
    position_is_unique(s, i);
    assert(put(s, key, value) =~= s);
}

/// A union update keeps the keys distinct.
pub proof fn union_keeps_distinct(s: Seq<EntryView>, new: Seq<EntryView>)
    requires
        distinct_keys(s),
    ensures
        distinct_keys(union_entries(s, new)),
    decreases new.len(),
{
    if new.len() > 0 {
        union_keeps_distinct(s, new.drop_last());
        put_keeps_distinct(union_entries(s, new.drop_last()), new.last().0, new.last().1);
    }
}

/// A run of removals keeps the keys distinct.
pub proof fn removal_keeps_distinct(s: Seq<EntryView>, keys: Seq<SocketAddr>)
    requires
        distinct_keys(s),
    ensures
        distinct_keys(removed_entries(s, keys)),
    decreases keys.len(),
{
    if keys.len() > 0 {
        removal_keeps_distinct(s, keys.drop_last());
        without_keeps_distinct(removed_entries(s, keys.drop_last()), keys.last());
    }
}

proof fn union_holds_all(s: Seq<EntryView>, new: Seq<EntryView>)
    requires
        single_valued(new),
    ensures
        forall|j: int| 0 <= j < new.len() ==> union_entries(s, new).contains(#[trigger] new[j]),
    decreases new.len(),
{
    if new.len() > 0 {
        let front = new.drop_last();
        let last = new.last();
        let prev = union_entries(s, front);
        assert(single_valued(front)) by {
            assert forall|i: int, j: int|
                0 <= i < front.len() && 0 <= j < front.len() && (#[trigger] front[i]).0 == (
                #[trigger] front[j]).0 implies front[i].1 == front[j].1 by {
                assert(new[i].0 == new[j].0);
            }
        }
        union_holds_all(s, front);
        assert forall|j: int| 0 <= j < new.len() implies union_entries(s, new).contains(
            #[trigger] new[j],
        ) by {
            if new[j].0 == last.0 {
                assert(new[j].0 == new[new.len() - 1].0);
                assert(new[j] == last);
                put_holds(prev, last.0, last.1);
            } else {
                assert(front[j] == new[j]);
                put_keeps_others(prev, last.0, last.1, new[j]);
            }
        }
    }
}

proof fn union_of_held_changes_nothing(t: Seq<EntryView>, new: Seq<EntryView>)
    requires
        distinct_keys(t),
        forall|j: int| 0 <= j < new.len() ==> t.contains(#[trigger] new[j]),
    ensures
        union_entries(t, new) == t,
        union_changes(t, new) == Seq::<ChangeView>::empty(),
    decreases new.len(),
{
    if new.len() > 0 {
        let front = new.drop_last();
        assert forall|j: int| 0 <= j < front.len() implies t.contains(#[trigger] front[j]) by {
            assert(front[j] == new[j]);
        }
        union_of_held_changes_nothing(t, front);
        assert(t.contains(new[new.len() - 1]));
        put_of_held_changes_nothing(t, new.last().0, new.last().1);
        assert(union_changes(t, new) =~= Seq::<ChangeView>::empty());
    }
}

/// Applying the same union update a second time changes nothing and reports
/// nothing, provided the update gives no key two different values.
pub proof fn union_is_idempotent(s: Seq<EntryView>, new: Seq<EntryView>)
    requires
        distinct_keys(s),
        single_valued(new),
    ensures
        union_entries(union_entries(s, new), new) == union_entries(s, new),
        union_changes(union_entries(s, new), new) == Seq::<ChangeView>::empty(),
{
    union_keeps_distinct(s, new);
    union_holds_all(s, new);
    union_of_held_changes_nothing(union_entries(s, new), new);
}

/// Replaying two runs of changes one after the other is replaying their
/// concatenation.
pub proof fn replay_in_two_parts(s: Seq<EntryView>, a: Seq<ChangeView>, b: Seq<ChangeView>)
    ensures
        replay(s, a + b) == replay(replay(s, a), b),
    decreases b.len(),
{
    if b.len() == 0 {
        assert(a + b =~= a);
    } else {
        replay_in_two_parts(s, a, b.drop_last());
        assert((a + b).drop_last() =~= a + b.drop_last());
        assert((a + b).last() == b.last());
    }
}

proof fn replay_of_one(s: Seq<EntryView>, change: ChangeView)
    ensures
        replay(s, seq![change]) == apply_change(s, change),
        replay(s, Seq::<ChangeView>::empty()) == s,
{
    assert(seq![change].drop_last() =~= Seq::<ChangeView>::empty());
    assert(seq![change].last() == change);
    assert(replay(s, Seq::<ChangeView>::empty()) == s);
    assert(replay(s, seq![change].drop_last()) == s);
}

/// What a union update reports, replayed on the entries before it, gives the
/// entries after it.
pub proof fn union_changes_rebuild(s: Seq<EntryView>, new: Seq<EntryView>)
    requires
        distinct_keys(s),
    ensures
        replay(s, union_changes(s, new)) == union_entries(s, new),
    decreases new.len(),
{
    if new.len() > 0 {
        let front = new.drop_last();
        let prev = union_entries(s, front);
        let key = new.last().0;
        let value = new.last().1;
        union_changes_rebuild(s, front);
        union_keeps_distinct(s, front);
        replay_in_two_parts(s, union_changes(s, front), put_change(prev, key, value));
        if !has_key(prev, key) {
            replay_of_one(prev, ChangeView::Insertion { key, value });
        } else if prev[position(prev, key)].1 != value {
            replay_of_one(prev, ChangeView::Modification { key, new_value: value });
        } else {
            let p = position(prev, key);
            assert(prev[p] == (key, value));
            put_of_held_changes_nothing(prev, key, value);
            replay_of_one(prev, ChangeView::Removal { key });
        }
    }
}

/// What a run of removals reports, replayed on the entries before it, gives
/// the entries after it.
pub proof fn removal_changes_rebuild(s: Seq<EntryView>, keys: Seq<SocketAddr>)
    ensures
        replay(s, removal_changes(s, keys)) == removed_entries(s, keys),
    decreases keys.len(),
{
    if keys.len() > 0 {
        let front = keys.drop_last();
        let prev = removed_entries(s, front);
        let key = keys.last();
        removal_changes_rebuild(s, front);
        replay_in_two_parts(s, removal_changes(s, front), without_change(prev, key));
        replay_of_one(prev, ChangeView::Removal { key });
    }
}

proof fn clear_prefix_rebuilds(s: Seq<EntryView>, i: int)
    requires
        distinct_keys(s),
        0 <= i <= s.len(),
    ensures
        replay(s, clear_changes(s).take(i)) == s.skip(i),
    decreases i,
{
    if i == 0 {
        assert(clear_changes(s).take(0) =~= Seq::<ChangeView>::empty());
        assert(s.skip(0) =~= s);
    } else {
        clear_prefix_rebuilds(s, i - 1);
        let changes = clear_changes(s).take(i);
        assert(changes.drop_last() =~= clear_changes(s).take(i - 1));
        assert(changes.last() == ChangeView::Removal { key: s[i - 1].0 });
        let rest = s.skip(i - 1);
        assert(distinct_keys(rest)) by {
            assert forall|a: int, b: int| 0 <= a < b < rest.len() implies (#[trigger] rest[a]).0
                != (#[trigger] rest[b]).0 by {
                assert(s[a + i - 1].0 != s[b + i - 1].0);
            }
        }
        assert(rest[0] == s[i - 1]);
        position_is_unique(rest, 0);
        assert(without(rest, s[i - 1].0) =~= s.skip(i));
    }
}

/// What clearing reports, replayed on the entries before it, leaves nothing.
pub proof fn clear_changes_rebuild(s: Seq<EntryView>)
    requires
        distinct_keys(s),
    ensures
        replay(s, clear_changes(s)) == Seq::<EntryView>::empty(),
{
    clear_prefix_rebuilds(s, s.len() as int);
    assert(clear_changes(s).take(s.len() as int) =~= clear_changes(s));
    assert(s.skip(s.len() as int) =~= Seq::<EntryView>::empty());
}

proof fn union_keys_come_from(s: Seq<EntryView>, new: Seq<EntryView>, e: EntryView)
    requires
        union_entries(s, new).contains(e),
    ensures
        s.contains(e) || new.contains(e),
    decreases new.len(),
{
    if new.len() > 0 {
        let front = new.drop_last();
        put_holds_nothing_else(union_entries(s, front), new.last().0, new.last().1, e);
        if e == new.last() {
            assert(new[new.len() - 1] == e);
        } else {
            union_keys_come_from(s, front, e);
            if front.contains(e) {
                let i = choose|i: int| 0 <= i < front.len() && front[i] == e;
                assert(new[i] == e);
            }
        }
    }
}

/// A run of union updates applied to an empty cache leaves no key twice.
pub proof fn updates_keep_distinct(updates: Seq<Seq<EntryView>>)
    ensures
        distinct_keys(after_updates(updates)),
    decreases updates.len(),
{
    if updates.len() > 0 {
        updates_keep_distinct(updates.drop_last());
        union_keeps_distinct(after_updates(updates.drop_last()), updates.last());
    }
}

proof fn updates_keys_come_from(updates: Seq<Seq<EntryView>>, e: EntryView)
    requires
        after_updates(updates).contains(e),
    ensures
        exists|i: int| 0 <= i < updates.len() && (#[trigger] updates[i]).contains(e),
    decreases updates.len(),
{
    if updates.len() == 0 {
        assert(after_updates(updates) =~= Seq::<EntryView>::empty());
        let i = choose|i: int| 0 <= i < after_updates(updates).len() && after_updates(updates)[i] == e;
    } else {
        let front = updates.drop_last();
        union_keys_come_from(after_updates(front), updates.last(), e);
        if updates.last().contains(e) {
            assert(updates[updates.len() - 1].contains(e));
        } else {
            updates_keys_come_from(front, e);
            let i = choose|i: int| 0 <= i < front.len() && (#[trigger] front[i]).contains(e);
            assert(updates[i].contains(e));
        }
    }
}

/// Everything that a run of union updates applied to an empty cache reports,
/// replayed on an empty cache, gives the cache after the run.
pub proof fn reported_changes_rebuild_the_cache(updates: Seq<Seq<EntryView>>)
    ensures
        replay(Seq::empty(), changes_of_updates(updates)) == after_updates(updates),
    decreases updates.len(),
{
    if updates.len() > 0 {
        let front = updates.drop_last();
        reported_changes_rebuild_the_cache(front);
        updates_keep_distinct(front);
        union_changes_rebuild(after_updates(front), updates.last());
        replay_in_two_parts(
            Seq::empty(),
            changes_of_updates(front),
            union_changes(after_updates(front), updates.last()),
        );
    }
}

/// After a run of union updates applied to an empty cache, the cache holds
/// the pairs of the last update and no others, provided the last update
/// names every key that an earlier one named and gives no key two different
/// values. (A union update removes nothing, so a key that only an earlier
/// update named would stay.)
pub proof fn last_update_decides(updates: Seq<Seq<EntryView>>)
    requires
        updates.len() > 0,
        single_valued(updates.last()),
        forall|i: int, j: int|
            0 <= i < updates.len() - 1 && 0 <= j < updates[i].len() ==> has_key(
                updates.last(),
                (#[trigger] updates[i][j]).0,
            ),
    ensures
        same_entries(after_updates(updates), updates.last()),
        distinct_keys(after_updates(updates)),
{
    let front = updates.drop_last();
    let last = updates.last();
    let result = after_updates(updates);
    updates_keep_distinct(updates);
    union_holds_all(after_updates(front), last);
    assert forall|e: EntryView| result.contains(e) <==> last.contains(e) by {
        if last.contains(e) {
            let j = choose|j: int| 0 <= j < last.len() && last[j] == e;
            assert(result.contains(last[j]));
        }
        if result.contains(e) && !last.contains(e) {
            union_keys_come_from(after_updates(front), last, e);
            updates_keys_come_from(front, e);
            let i = choose|i: int| 0 <= i < front.len() && (#[trigger] front[i]).contains(e);
            assert(front[i] == updates[i]);
            let j = choose|j: int| 0 <= j < updates[i].len() && updates[i][j] == e;
            assert(has_key(last, updates[i][j].0));
            let p = position(last, e.0);
            assert(last[p].0 == e.0);
            assert(result.contains(last[p]));
            let a = choose|a: int| 0 <= a < result.len() && result[a] == e;
            let b = choose|b: int| 0 <= b < result.len() && result[b] == last[p];
            if a < b {
                assert(result[a].0 != result[b].0);
            } else if b < a {
                assert(result[b].0 != result[a].0);
            }
            assert(e == last[p]);
        }
    }
}

/// Whether a change is a real transition of the entries it is reported
/// of: an insertion names a key that is absent, a modification a key that
/// is present with another value, a removal a key that is present.
pub open spec fn change_is_real(s: Seq<EntryView>, change: ChangeView) -> bool {
    match change {
        ChangeView::Insertion { key, value } => !has_key(s, key),
        ChangeView::Modification { key, new_value } => has_key(s, key) && s[position(s, key)].1
            != new_value,
        ChangeView::Removal { key } => has_key(s, key),
    }
}

/// Whether every change of a run is a real transition of the entries as
/// they are when it is reported.
pub open spec fn changes_are_real(s: Seq<EntryView>, changes: Seq<ChangeView>) -> bool
    decreases changes.len(),
{
    changes.len() == 0 || (changes_are_real(s, changes.drop_last()) && change_is_real(
        replay(s, changes.drop_last()),
        changes.last(),
    ))
}

/// Replaying changes leaves no key twice.
pub proof fn replay_keeps_distinct(s: Seq<EntryView>, changes: Seq<ChangeView>)
    requires
        distinct_keys(s),
    ensures
        distinct_keys(replay(s, changes)),
    decreases changes.len(),
{
    if changes.len() > 0 {
        replay_keeps_distinct(s, changes.drop_last());
        let prev = replay(s, changes.drop_last());
        match changes.last() {
            ChangeView::Insertion { key, value } => put_keeps_distinct(prev, key, value),
            ChangeView::Modification { key, new_value } => put_keeps_distinct(
                prev,
                key,
                new_value,
            ),
            ChangeView::Removal { key } => without_keeps_distinct(prev, key),
        }
    }
}

/// Two runs of changes are real one after the other exactly if their
/// concatenation is.
pub proof fn real_in_two_parts(s: Seq<EntryView>, a: Seq<ChangeView>, b: Seq<ChangeView>)
    ensures
        changes_are_real(s, a + b) == (changes_are_real(s, a) && changes_are_real(
            replay(s, a),
            b,
        )),
    decreases b.len(),
{
    if b.len() == 0 {
        assert(a + b =~= a);
    } else {
        real_in_two_parts(s, a, b.drop_last());
        replay_in_two_parts(s, a, b.drop_last());
        assert((a + b).drop_last() =~= a + b.drop_last());
        assert((a + b).last() == b.last());
    }
}

proof fn real_of_one(s: Seq<EntryView>, change: ChangeView)
    ensures
        changes_are_real(s, seq![change]) == change_is_real(s, change),
        changes_are_real(s, Seq::<ChangeView>::empty()),
{
    assert(seq![change].drop_last() =~= Seq::<ChangeView>::empty());
    assert(seq![change].last() == change);
    assert(replay(s, Seq::<ChangeView>::empty()) == s);
    assert(changes_are_real(s, seq![change].drop_last()));
}

/// Every change that a union update reports is a real transition.
pub proof fn union_changes_are_real(s: Seq<EntryView>, new: Seq<EntryView>)
    requires
        distinct_keys(s),
    ensures
        changes_are_real(s, union_changes(s, new)),
    decreases new.len(),
{
    if new.len() > 0 {
        let front = new.drop_last();
        let prev = union_entries(s, front);
        let key = new.last().0;
        let value = new.last().1;
        union_changes_are_real(s, front);
        union_changes_rebuild(s, front);
        real_in_two_parts(s, union_changes(s, front), put_change(prev, key, value));
        if !has_key(prev, key) {
            real_of_one(prev, ChangeView::Insertion { key, value });
        } else if prev[position(prev, key)].1 != value {
            real_of_one(prev, ChangeView::Modification { key, new_value: value });
        } else {
            real_of_one(prev, ChangeView::Removal { key });
        }
    }
}

/// Every change that a run of removals reports is a real transition.
pub proof fn removal_changes_are_real(s: Seq<EntryView>, keys: Seq<SocketAddr>)
    ensures
        changes_are_real(s, removal_changes(s, keys)),
    decreases keys.len(),
{
    if keys.len() > 0 {
        let front = keys.drop_last();
        let prev = removed_entries(s, front);
        let key = keys.last();
        removal_changes_are_real(s, front);
        removal_changes_rebuild(s, front);
        real_in_two_parts(s, removal_changes(s, front), without_change(prev, key));
        real_of_one(prev, ChangeView::Removal { key });
    }
}

proof fn clear_prefix_is_real(s: Seq<EntryView>, i: int)
    requires
        distinct_keys(s),
        0 <= i <= s.len(),
    ensures
        changes_are_real(s, clear_changes(s).take(i)),
    decreases i,
{
    if i > 0 {
        clear_prefix_is_real(s, i - 1);
        clear_prefix_rebuilds(s, i - 1);
        let changes = clear_changes(s).take(i);
        assert(changes.drop_last() =~= clear_changes(s).take(i - 1));
        assert(changes.last() == ChangeView::Removal { key: s[i - 1].0 });
        assert(s.skip(i - 1)[0] == s[i - 1]);
    }
}

/// Every change that clearing reports is a real transition.
pub proof fn clear_changes_are_real(s: Seq<EntryView>)
    requires
        distinct_keys(s),
    ensures
        changes_are_real(s, clear_changes(s)),
{
    clear_prefix_is_real(s, s.len() as int);
    assert(clear_changes(s).take(s.len() as int) =~= clear_changes(s));
}

/// Every change that a run of union updates applied to an empty cache
/// reports is a real transition.
pub proof fn reported_changes_are_real(updates: Seq<Seq<EntryView>>)
    ensures
        changes_are_real(Seq::empty(), changes_of_updates(updates)),
    decreases updates.len(),
{
    if updates.len() > 0 {
        let front = updates.drop_last();
        reported_changes_are_real(front);
        reported_changes_rebuild_the_cache(front);
        updates_keep_distinct(front);
        union_changes_are_real(after_updates(front), updates.last());
        real_in_two_parts(
            Seq::empty(),
            changes_of_updates(front),
            union_changes(after_updates(front), updates.last()),
        );
    }
}

} // verus!
