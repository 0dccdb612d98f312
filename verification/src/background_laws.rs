//! What holds of the watched destinations after a sweep.

use vstd::prelude::*;
use crate::background::{distinct_authorities, is_watched, retained, WatchView};
use crate::responder::{live, ResponderView};

verus! {

/// Where every responder is dead, none is live.
pub proof fn nobody_is_live_among_the_dead(rs: Seq<ResponderView>)
    requires
        forall|i: int| 0 <= i < rs.len() ==> !(#[trigger] rs[i]).active,
    ensures
        live(rs).len() == 0,
    decreases rs.len(),
{
    if rs.len() > 0 {
        assert(!rs[rs.len() - 1].active);
        assert forall|i: int| 0 <= i < rs.drop_last().len() implies !(
        #[trigger] rs.drop_last()[i]).active by {
            assert(rs.drop_last()[i] == rs[i]);
        }
        nobody_is_live_among_the_dead(rs.drop_last());
    }
}

proof fn retained_come_from_the_live(ws: Seq<WatchView>)
    ensures
        forall|k: int|
            0 <= k < retained(ws).len() ==> exists|j: int|
                0 <= j < ws.len() && (#[trigger] ws[j]).authority == (
                #[trigger] retained(ws)[k]).authority && live(ws[j].set.responders).len() > 0,
    decreases ws.len(),
{
    if ws.len() > 0 {
        let front = ws.drop_last();
        retained_come_from_the_live(front);
        let r = retained(ws);
        assert forall|k: int| 0 <= k < r.len() implies exists|j: int|
            0 <= j < ws.len() && (#[trigger] ws[j]).authority == (#[trigger] r[k]).authority
                && live(ws[j].set.responders).len() > 0 by {
            if k < retained(front).len() {
                assert(r[k] == retained(front)[k]);
                let j = choose|j: int|
                    0 <= j < front.len() && (#[trigger] front[j]).authority == retained(
                        front,
                    )[k].authority && live(front[j].set.responders).len() > 0;
                assert(ws[j] == front[j]);
            } else {
                let j = ws.len() - 1;
                assert(ws[j].authority == r[k].authority);
            }
        }
    }
}

/// A destination whose subscribers are all gone is not watched after the
/// next sweep.
pub proof fn destination_without_subscribers_leaves(ws: Seq<WatchView>, i: int)
    requires
        distinct_authorities(ws),
        0 <= i < ws.len(),
        forall|k: int|
            0 <= k < ws[i].set.responders.len() ==> !(#[trigger] ws[i].set.responders[k]).active,
    ensures
        !is_watched(retained(ws), ws[i].authority),
{
    nobody_is_live_among_the_dead(ws[i].set.responders);
    retained_come_from_the_live(ws);
    let r = retained(ws);
    if is_watched(r, ws[i].authority) {
        let k = choose|k: int| 0 <= k < r.len() && (#[trigger] r[k]).authority == ws[i].authority;
        let j = choose|j: int|
            0 <= j < ws.len() && (#[trigger] ws[j]).authority == r[k].authority && live(
                ws[j].set.responders,
            ).len() > 0;
        if j < i {
            assert(ws[j].authority != ws[i].authority);
        } else if i < j {
            assert(ws[i].authority != ws[j].authority);
        }
    }
}

} // verus!
