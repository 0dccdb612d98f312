//! The endpoint cache: an ordered map from address to metadata that reports
//! every change made to it.

use vstd::prelude::*;
use crate::addr::SocketAddr;
use crate::cache_laws::{
    changes_are_real, clear_changes_are_real, clear_changes_rebuild, real_in_two_parts,
    removal_changes_are_real, removal_changes_rebuild, replay_in_two_parts,
    union_changes_are_real, union_changes_rebuild,
};
use crate::metadata::{Endpoint, Metadata, MetadataView};

verus! {

/// One entry of a cache as a specification value.
pub type EntryView = (SocketAddr, MetadataView);

/// One change to a cache.
#[derive(Debug)]
pub enum CacheChange {
    /// A new key entered the cache.
    Insertion { key: SocketAddr, value: Metadata },
    /// A key left the cache.
    Removal { key: SocketAddr },
    /// The value of a key that stays in the cache changed.
    Modification { key: SocketAddr, new_value: Metadata },
}

/// A change as a specification value.
pub ghost enum ChangeView {
    Insertion { key: SocketAddr, value: MetadataView },
    Removal { key: SocketAddr },
    Modification { key: SocketAddr, new_value: MetadataView },
}

impl View for CacheChange {
    type V = ChangeView;

    open spec fn view(&self) -> ChangeView {
        match self {
            CacheChange::Insertion { key, value } => ChangeView::Insertion {
                key: *key,
                value: value@,
            },
            CacheChange::Removal { key } => ChangeView::Removal { key: *key },
            CacheChange::Modification { key, new_value } => ChangeView::Modification {
                key: *key,
                new_value: new_value@,
            },
        }
    }
}

impl Clone for CacheChange {
    fn clone(&self) -> (copy: CacheChange)
        ensures
            copy@ == self@,
    {
        match self {
            CacheChange::Insertion { key, value } => CacheChange::Insertion {
                key: *key,
                value: value.clone(),
            },
            CacheChange::Removal { key } => CacheChange::Removal { key: *key },
            CacheChange::Modification { key, new_value } => CacheChange::Modification {
                key: *key,
                new_value: new_value.clone(),
            },
        }
    }
}

/// The changes of a list, each by its view.
pub open spec fn change_views(changes: Seq<CacheChange>) -> Seq<ChangeView> {
    changes.map_values(|c: CacheChange| c@)
}

/// The pairs of a list, each value by its view.
pub open spec fn pair_views(pairs: Seq<(SocketAddr, Metadata)>) -> Seq<EntryView> {
    pairs.map_values(|p: (SocketAddr, Metadata)| (p.0, p.1@))
}

/// The endpoints of a list, each by its view.
pub open spec fn endpoint_views(endpoints: Seq<Endpoint>) -> Seq<EntryView> {
    endpoints.map_values(|e: Endpoint| e@)
}

/// Whether some entry has this key.
pub open spec fn has_key(s: Seq<EntryView>, key: SocketAddr) -> bool {
    exists|i: int| 0 <= i < s.len() && (#[trigger] s[i]).0 == key
}

/// The place of an entry with this key, where there is one.
pub open spec fn position(s: Seq<EntryView>, key: SocketAddr) -> int {
    choose|i: int| 0 <= i < s.len() && (#[trigger] s[i]).0 == key
}

/// No key occurs twice.
pub open spec fn distinct_keys(s: Seq<EntryView>) -> bool {
    forall|i: int, j: int| 0 <= i < j < s.len() ==> (#[trigger] s[i]).0 != (#[trigger] s[j]).0
}

/// The entries after `key` is set to `value`: a key that is present keeps its
/// place, a new key comes last.
pub open spec fn put(s: Seq<EntryView>, key: SocketAddr, value: MetadataView) -> Seq<EntryView> {
    if has_key(s, key) {
        s.update(position(s, key), (key, value))
    } else {
        s.push((key, value))
    }
}

/// What setting `key` to `value` reports: an insertion of a new key, a
/// modification where the value differs, nothing where it is the same.
pub open spec fn put_change(s: Seq<EntryView>, key: SocketAddr, value: MetadataView) -> Seq<
    ChangeView,
> {
    if !has_key(s, key) {
        seq![ChangeView::Insertion { key, value }]
    } else if s[position(s, key)].1 != value {
        seq![ChangeView::Modification { key, new_value: value }]
    } else {
        Seq::empty()
    }
}

/// The entries without `key`; the others keep their order.
pub open spec fn without(s: Seq<EntryView>, key: SocketAddr) -> Seq<EntryView> {
    if has_key(s, key) {
        s.remove(position(s, key))
    } else {
        s
    }
}

/// What removing `key` reports: a removal if the key was present.
pub open spec fn without_change(s: Seq<EntryView>, key: SocketAddr) -> Seq<ChangeView> {
    if has_key(s, key) {
        seq![ChangeView::Removal { key }]
    } else {
        Seq::empty()
    }
}

/// The entries after every pair of `new` was set, in order.
pub open spec fn union_entries(s: Seq<EntryView>, new: Seq<EntryView>) -> Seq<EntryView>
    decreases new.len(),
{
    if new.len() == 0 {
        s
    } else {
        put(union_entries(s, new.drop_last()), new.last().0, new.last().1)
    }
}

/// What setting every pair of `new` reports, in order.
pub open spec fn union_changes(s: Seq<EntryView>, new: Seq<EntryView>) -> Seq<ChangeView>
    decreases new.len(),
{
    if new.len() == 0 {
        Seq::empty()
    } else {
        union_changes(s, new.drop_last()) + put_change(
            union_entries(s, new.drop_last()),
            new.last().0,
            new.last().1,
        )
    }
}

/// The entries after every key of `keys` was removed, in order.
pub open spec fn removed_entries(s: Seq<EntryView>, keys: Seq<SocketAddr>) -> Seq<EntryView>
    decreases keys.len(),
{
    if keys.len() == 0 {
        s
    } else {
        without(removed_entries(s, keys.drop_last()), keys.last())
    }
}

/// What removing every key of `keys` reports, in order.
pub open spec fn removal_changes(s: Seq<EntryView>, keys: Seq<SocketAddr>) -> Seq<ChangeView>
    decreases keys.len(),
{
    if keys.len() == 0 {
        Seq::empty()
    } else {
        removal_changes(s, keys.drop_last()) + without_change(
            removed_entries(s, keys.drop_last()),
            keys.last(),
        )
    }
}

/// What clearing reports: a removal for every entry, in order.
pub open spec fn clear_changes(s: Seq<EntryView>) -> Seq<ChangeView> {
    s.map_values(|e: EntryView| ChangeView::Removal { key: e.0 })
}

/// The entries after one reported change is applied to them.
pub open spec fn apply_change(s: Seq<EntryView>, change: ChangeView) -> Seq<EntryView> {
    match change {
        ChangeView::Insertion { key, value } => put(s, key, value),
        ChangeView::Removal { key } => without(s, key),
        ChangeView::Modification { key, new_value } => put(s, key, new_value),
    }
}

/// The entries after the reported changes are applied to them, in order.
pub open spec fn replay(s: Seq<EntryView>, changes: Seq<ChangeView>) -> Seq<EntryView>
    decreases changes.len(),
{
    if changes.len() == 0 {
        s
    } else {
        apply_change(replay(s, changes.drop_last()), changes.last())
    }
}

/// In a sequence without repeated keys, the entry with a key is found at its
/// one place.
pub proof fn position_is_unique(s: Seq<EntryView>, i: int)
    requires
        distinct_keys(s),
        0 <= i < s.len(),
    ensures
        has_key(s, s[i].0),
        position(s, s[i].0) == i,
{
    let k = s[i].0;
    assert(has_key(s, k));
    let p = position(s, k);
    assert(s[p].0 == k);
    if p < i {
        assert(s[p].0 != s[i].0);
    } else if i < p {
        assert(s[i].0 != s[p].0);
    }
}

/// Setting a key keeps the keys distinct.
pub proof fn put_keeps_distinct(s: Seq<EntryView>, key: SocketAddr, value: MetadataView)
    requires
        distinct_keys(s),
    ensures
        distinct_keys(put(s, key, value)),
{
    let t = put(s, key, value);
    if has_key(s, key) {
        let p = position(s, key);
        assert(s[p].0 == key);
        assert forall|i: int, j: int| 0 <= i < j < t.len() implies (#[trigger] t[i]).0 != (
        #[trigger] t[j]).0 by {
            assert(t[i].0 == s[i].0);
            assert(t[j].0 == s[j].0);
        }
    } else {
        assert forall|i: int, j: int| 0 <= i < j < t.len() implies (#[trigger] t[i]).0 != (
        #[trigger] t[j]).0 by {
            if j == s.len() {
                assert(s[i].0 != key);
            } else {
                assert(t[i] == s[i] && t[j] == s[j]);
            }
        }
    }
}

/// Removing a key keeps the keys distinct.
pub proof fn without_keeps_distinct(s: Seq<EntryView>, key: SocketAddr)
    requires
        distinct_keys(s),
    ensures
        distinct_keys(without(s, key)),
{
    let t = without(s, key);
    if has_key(s, key) {
        let p = position(s, key);
        assert forall|i: int, j: int| 0 <= i < j < t.len() implies (#[trigger] t[i]).0 != (
        #[trigger] t[j]).0 by {
            let a = if i < p { i } else { i + 1 };
            let b = if j < p { j } else { j + 1 };
            assert(t[i] == s[a] && t[j] == s[b]);
            assert(s[a].0 != s[b].0);
        }
    }
}

/// An ordered map from address to metadata.
///
/// Every call that changes the cache returns the changes it made, in the
/// order in which it made them.
#[derive(Debug)]
pub struct Cache {
    entries: Vec<Endpoint>,
    reset_on_next_modification: bool,
}

impl View for Cache {
    type V = Seq<EntryView>;

    closed spec fn view(&self) -> Seq<EntryView> {
        endpoint_views(self.entries@)
    }
}

proof fn change_views_push(changes: Seq<CacheChange>, change: CacheChange)
    ensures
        change_views(changes.push(change)) == change_views(changes).push(change@),
{
    assert(change_views(changes.push(change)) =~= change_views(changes).push(change@));
}

impl Cache {
    /// The invariant of a cache: no key occurs twice.
    pub closed spec fn wf(&self) -> bool {
        distinct_keys(self@)
    }

    /// In a well-formed cache no key occurs twice.
    pub proof fn wf_means(&self)
        requires
            self.wf(),
        ensures
            distinct_keys(self@),
    {
    }

    /// Whether the next change starts by clearing the cache.
    pub closed spec fn resets_next(&self) -> bool {
        self.reset_on_next_modification
    }

    /// The entries that the next change builds on: none once a reset is due.
    pub open spec fn base(&self) -> Seq<EntryView> {
        if self.resets_next() {
            Seq::empty()
        } else {
            self@
        }
    }

    /// What the next change reports before anything else: the removal of
    /// every entry once a reset is due.
    pub open spec fn reset_changes(&self) -> Seq<ChangeView> {
        if self.resets_next() {
            clear_changes(self@)
        } else {
            Seq::empty()
        }
    }

    pub fn new() -> (cache: Cache)
        ensures
            cache.wf(),
            cache@ == Seq::<EntryView>::empty(),
            !cache.resets_next(),
    {
        let cache = Cache { entries: Vec::new(), reset_on_next_modification: false };
        assert(cache@ =~= Seq::<EntryView>::empty());
        cache
    }

    /// Makes the next change to the cache start from nothing: it first
    /// removes, and reports as removed, every entry.
    pub fn set_reset_on_next_modification(&mut self)
        ensures
            final(self)@ == old(self)@,
            final(self).resets_next(),
            old(self).wf() ==> final(self).wf(),
    {
        self.reset_on_next_modification = true;
    }

    pub fn len(&self) -> (n: usize)
        ensures
            n == self@.len(),
    {
        self.entries.len()
    }

    pub fn is_empty(&self) -> (b: bool)
        ensures
            b == (self@.len() == 0),
    {
        self.entries.len() == 0
    }

    /// Whether the next change starts by clearing the cache.
    pub fn is_reset_pending(&self) -> (b: bool)
        ensures
            b == self.resets_next(),
    {
        self.reset_on_next_modification
    }

    /// The entries, in their order.
    pub fn entries(&self) -> (all: &Vec<Endpoint>)
        ensures
            endpoint_views(all@) == self@,
    {
        &self.entries
    }

    fn find(&self, key: SocketAddr) -> (found: Option<usize>)
        requires
            self.wf(),
        ensures
            found is Some <==> has_key(self@, key),
            found is Some ==> found->0 == position(self@, key) && found->0 < self@.len(),
    {
        let mut i: usize = 0;
        while i < self.entries.len()
            invariant
                i <= self.entries.len(),
                self.wf(),
                self@.len() == self.entries.len(),
                forall|j: int| 0 <= j < i ==> (#[trigger] self@[j]).0 != key,
            decreases self.entries.len() - i,
        {
            if self.entries[i].address() == key {
                proof {
                    position_is_unique(self@, i as int);
                }
                return Some(i);
            }
            i += 1;
        }
        None
    }

    /// The metadata of `key`, if the cache holds the key.
    pub fn get(&self, key: SocketAddr) -> (value: Option<&Metadata>)
        requires
            self.wf(),
        ensures
            value is Some <==> has_key(self@, key),
            value is Some ==> value->0@ == self@[position(self@, key)].1,
    {
        match self.find(key) {
            Some(i) => Some(self.entries[i].metadata()),
            None => None,
        }
    }

    fn put_one(&mut self, key: SocketAddr, value: Metadata, changes: &mut Vec<CacheChange>)
        requires
            old(self).wf(),
        ensures
            final(self).wf(),
            final(self).resets_next() == old(self).resets_next(),
            final(self)@ == put(old(self)@, key, value@),
            change_views(final(changes)@) == change_views(old(changes)@) + put_change(
                old(self)@,
                key,
                value@,
            ),
    {
        proof {
            put_keeps_distinct(self@, key, value@);
        }
        let ghost before = changes@;
        match self.find(key) {
            Some(i) => {
                if !self.entries[i].metadata().same(&value) {
                    let change = CacheChange::Modification { key, new_value: value.clone() };
                    changes.push(change);
                    self.entries.set(i, Endpoint::new(key, value));
                    proof {
                        change_views_push(before, change);
                        assert(change_views(changes@) =~= change_views(before) + put_change(
                            old(self)@,
                            key,
                            value@,
                        ));
                        assert(self@ =~= put(old(self)@, key, value@));
                    }
                } else {
                    proof {
                        assert(change_views(changes@) =~= change_views(before) + put_change(
                            old(self)@,
                            key,
                            value@,
                        ));
                        assert(self@ =~= put(old(self)@, key, value@));
                    }
                }
            },
            None => {
                let change = CacheChange::Insertion { key, value: value.clone() };
                changes.push(change);
                self.entries.push(Endpoint::new(key, value));
                proof {
                    change_views_push(before, change);
                    assert(change_views(changes@) =~= change_views(before) + put_change(
                        old(self)@,
                        key,
                        value@,
                    ));
                    assert(self@ =~= put(old(self)@, key, value@));
                }
            },
        }
    }

    fn remove_one(&mut self, key: SocketAddr, changes: &mut Vec<CacheChange>)
        requires
            old(self).wf(),
        ensures
            final(self).wf(),
            final(self).resets_next() == old(self).resets_next(),
            final(self)@ == without(old(self)@, key),
            change_views(final(changes)@) == change_views(old(changes)@) + without_change(
                old(self)@,
                key,
            ),
    {
        proof {
            without_keeps_distinct(self@, key);
        }
        let ghost before = changes@;
        match self.find(key) {
            Some(i) => {
                let change = CacheChange::Removal { key };
                changes.push(change);
                self.entries.remove(i);
                proof {
                    change_views_push(before, change);
                    assert(change_views(changes@) =~= change_views(before) + without_change(
                        old(self)@,
                        key,
                    ));
                    assert(self@ =~= without(old(self)@, key));
                }
            },
            None => {
                proof {
                    assert(change_views(changes@) =~= change_views(before) + without_change(
                        old(self)@,
                        key,
                    ));
                }
            },
        }
    }

    /// Clears the cache if a reset is due, and reports what that removed.
    fn start_change(&mut self) -> (changes: Vec<CacheChange>)
        requires
            old(self).wf(),
        ensures
            final(self).wf(),
            !final(self).resets_next(),
            final(self)@ == old(self).base(),
            change_views(changes@) == old(self).reset_changes(),
    {
        if self.reset_on_next_modification {
            self.clear()
        } else {
            let changes: Vec<CacheChange> = Vec::new();
            assert(change_views(changes@) =~= Seq::<ChangeView>::empty());
            changes
        }
    }

    /// Removes every entry and reports each as removed, in order. A reset
    /// that was due is done by this.
    pub fn clear(&mut self) -> (changes: Vec<CacheChange>)
        ensures
            final(self).wf(),
            !final(self).resets_next(),
            final(self)@ == Seq::<EntryView>::empty(),
            change_views(changes@) == clear_changes(old(self)@),
            old(self).wf() ==> replay(old(self)@, change_views(changes@)) == final(self)@,
            old(self).wf() ==> changes_are_real(old(self)@, change_views(changes@)),
    {
        proof {
            if self.wf() {
                clear_changes_rebuild(self@);
                clear_changes_are_real(self@);
            }
        }
        let mut changes: Vec<CacheChange> = Vec::new();
        let mut i: usize = 0;
        while i < self.entries.len()
            invariant
                i <= self.entries.len(),
                *self == *old(self),
                change_views(changes@) == clear_changes(self@).take(i as int),
            decreases self.entries.len() - i,
        {
            let ghost before = changes@;
            let change = CacheChange::Removal { key: self.entries[i].address() };
            changes.push(change);
            proof {
                change_views_push(before, change);
                assert(change_views(changes@) =~= clear_changes(self@).take(i + 1));
            }
            i += 1;
        }
        proof {
            assert(clear_changes(self@).take(i as int) =~= clear_changes(self@));
        }
        self.entries = Vec::new();
        self.reset_on_next_modification = false;
        assert(self@ =~= Seq::<EntryView>::empty());
        changes
    }

    /// Sets every pair of `new`, in order, and reports each key that is new
    /// as inserted and each key whose value changed as modified; a pair that
    /// the cache already holds is not reported. Keys that `new` does not
    /// name stay. Where a reset is due the cache is cleared first.
    pub fn update_union(&mut self, new: &Vec<(SocketAddr, Metadata)>) -> (changes: Vec<
        CacheChange,
    >)
        requires
            old(self).wf(),
        ensures
            final(self).wf(),
            !final(self).resets_next(),
            final(self)@ == union_entries(old(self).base(), pair_views(new@)),
            change_views(changes@) == old(self).reset_changes() + union_changes(
                old(self).base(),
                pair_views(new@),
            ),
            replay(old(self)@, change_views(changes@)) == final(self)@,
            changes_are_real(old(self)@, change_views(changes@)),
    {
        proof {
            let before = self@;
            let reported = union_changes(self.base(), pair_views(new@));
            replay_in_two_parts(before, self.reset_changes(), reported);
            real_in_two_parts(before, self.reset_changes(), reported);
            if self.resets_next() {
                clear_changes_rebuild(before);
                clear_changes_are_real(before);
            }
            assert(distinct_keys(self.base()));
            union_changes_rebuild(self.base(), pair_views(new@));
            union_changes_are_real(self.base(), pair_views(new@));
        }
        let mut changes = self.start_change();
        let ghost base = self@;
        let ghost first = change_views(changes@);
        let ghost pairs = pair_views(new@);
        let mut i: usize = 0;
        while i < new.len()
            invariant
                self.wf(),
                !self.resets_next(),
                i <= new.len(),
                pairs == pair_views(new@),
                self@ == union_entries(base, pairs.take(i as int)),
                change_views(changes@) == first + union_changes(base, pairs.take(i as int)),
            decreases new.len() - i,
        {
            let key = new[i].0;
            let value = new[i].1.clone();
            proof {
                assert(pairs.take(i + 1).drop_last() == pairs.take(i as int));
                assert(pairs.take(i + 1).last() == (key, value@));
            }
            self.put_one(key, value, &mut changes);
            proof {
                assert(change_views(changes@) =~= first + union_changes(base, pairs.take(i + 1)));
            }
            i += 1;
        }
        proof {
            assert(pairs.take(i as int) == pairs);
        }
        changes
    }

    /// Removes every key of `keys`, in order, and reports each key that was
    /// present as removed; other keys are passed over. Where a reset is due
    /// the cache is cleared first.
    pub fn remove(&mut self, keys: &Vec<SocketAddr>) -> (changes: Vec<CacheChange>)
        requires
            old(self).wf(),
        ensures
            final(self).wf(),
            !final(self).resets_next(),
            final(self)@ == removed_entries(old(self).base(), keys@),
            change_views(changes@) == old(self).reset_changes() + removal_changes(
                old(self).base(),
                keys@,
            ),
            replay(old(self)@, change_views(changes@)) == final(self)@,
            changes_are_real(old(self)@, change_views(changes@)),
    {
        proof {
            let before = self@;
            let reported = removal_changes(self.base(), keys@);
            replay_in_two_parts(before, self.reset_changes(), reported);
            real_in_two_parts(before, self.reset_changes(), reported);
            if self.resets_next() {
                clear_changes_rebuild(before);
                clear_changes_are_real(before);
            }
            removal_changes_rebuild(self.base(), keys@);
            removal_changes_are_real(self.base(), keys@);
        }
        let mut changes = self.start_change();
        let ghost base = self@;
        let ghost first = change_views(changes@);
        let mut i: usize = 0;
        while i < keys.len()
            invariant
                self.wf(),
                !self.resets_next(),
                i <= keys.len(),
                self@ == removed_entries(base, keys@.take(i as int)),
                change_views(changes@) == first + removal_changes(base, keys@.take(i as int)),
            decreases keys.len() - i,
        {
            proof {
                assert(keys@.take(i + 1).drop_last() == keys@.take(i as int));
                assert(keys@.take(i + 1).last() == keys@[i as int]);
            }
            self.remove_one(keys[i], &mut changes);
            proof {
                assert(change_views(changes@) =~= first + removal_changes(
                    base,
                    keys@.take(i + 1),
                ));
            }
            i += 1;
        }
        proof {
            assert(keys@.take(i as int) == keys@);
        }
        changes
    }
}

} // verus!
