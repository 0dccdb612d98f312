//! What holds of a round of rebinding.

use vstd::prelude::*;
use crate::cache::{distinct_keys, has_key, put, EntryView};
use crate::rebind::{disjoint, stepped, to_rebind, RebindView};

verus! {

/// The state after so many steps of rebinding.
pub open spec fn stepped_times(v: RebindView, n: nat) -> RebindView
    decreases n,
{
    if n == 0 {
        v
    } else {
        stepped(stepped_times(v, (n - 1) as nat))
    }
}

/// The last `k` endpoints of `now`, the last one first: those that the
/// first `k` steps of a round hand out, in the order in which they do.
pub open spec fn handed_out(now: Seq<EntryView>, k: nat) -> Seq<EntryView> {
    now.skip(now.len() - k).reverse()
}

proof fn round_so_far(v: RebindView, k: nat)
    requires
        v.rebinding,
        distinct_keys(v.now),
        disjoint(v.now, v.next),
        k <= v.now.len(),
    ensures
        stepped_times(v, k) == (RebindView {
            rebinding: true,
            now: v.now.take(v.now.len() - k),
            next: v.next + handed_out(v.now, k),
        }),
    decreases k,
{
    let n = v.now.len();
    if k == 0 {
        assert(v.now.take(n as int) =~= v.now);
        assert(v.next + handed_out(v.now, 0) =~= v.next);
    } else {
        let j = (k - 1) as nat;
        round_so_far(v, j);
        let before = stepped_times(v, j);
        let ep = v.now[n - k];
        assert(before.now.len() == n - j);
        assert(before.now.last() == ep);
        assert(!has_key(before.next, ep.0)) by {
            if has_key(before.next, ep.0) {
                let i = choose|i: int|
                    0 <= i < before.next.len() && (#[trigger] before.next[i]).0 == ep.0;
                if i < v.next.len() {
                    assert(v.now[n - k].0 != v.next[i].0);
                } else {
                    let m = i - v.next.len();
                    assert(before.next[i] == v.now[n - 1 - m]);
                    assert(v.now[n - k].0 != v.now[n - 1 - m].0);
                }
            }
        }
        assert(put(before.next, ep.0, ep.1) == before.next.push(ep));
        assert(before.now.drop_last() =~= v.now.take(n - k));
        assert(before.next.push(ep) =~= v.next + handed_out(v.now, k));
    }
}

/// One change of the TLS configuration has every endpoint that awaits a
/// rebind handed out exactly once, the last one first, and then nothing
/// more: with N endpoints in `now`, step k of the round hands out the k-th
/// endpoint from the end for k < N, step N hands out nothing and ends the
/// round, and the endpoints handed out are the `now` of the next round.
pub proof fn round_hands_out_each_endpoint_once(v: RebindView)
    requires
        v.rebinding,
        distinct_keys(v.now),
        disjoint(v.now, v.next),
    ensures
        forall|k: nat|
            k < v.now.len() ==> to_rebind(#[trigger] stepped_times(v, k)) == Some(
                v.now[v.now.len() - 1 - k],
            ),
        to_rebind(stepped_times(v, v.now.len())) is None,
        stepped_times(v, v.now.len() + 1) == (RebindView {
            rebinding: false,
            now: v.next + v.now.reverse(),
            next: Seq::empty(),
        }),
        to_rebind(stepped_times(v, v.now.len() + 1)) is None,
        stepped_times(v, v.now.len() + 2) == stepped_times(v, v.now.len() + 1),
{
    let n = v.now.len();
    assert forall|k: nat| k < n implies to_rebind(#[trigger] stepped_times(v, k)) == Some(
        v.now[n - 1 - k],
    ) by {
        round_so_far(v, k);
    }
    round_so_far(v, n);
    assert(v.now.skip(0) =~= v.now);
    assert(stepped_times(v, n).now.len() == 0);
    assert(stepped_times(v, n + 1) == stepped(stepped_times(v, n)));
    assert(stepped_times(v, n + 2) == stepped(stepped_times(v, n + 1)));
}

} // verus!
