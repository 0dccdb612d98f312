//! The subscriber's side of a resolution: what the load balancer is told.

use vstd::prelude::*;
use crate::addr::SocketAddr;
use crate::metadata::Endpoint;
use crate::cache::{distinct_keys, has_key};
use crate::rebind::{
    all_identified, disjoint, stepped, to_rebind, with_endpoint, without_endpoint, RebindState,
    RebindView,
};
use crate::responder::{Update, UpdateView};

verus! {

/// Binds an endpoint to a service.
pub trait Bind {
    /// The discovered service.
    type Service;

    /// What a failed bind gives.
    type BindError;

    /// Binds a service from an endpoint.
    fn bind(&self, endpoint: &Endpoint) -> Result<Self::Service, Self::BindError>;
}

/// A change to the set of services that the load balancer chooses from.
pub enum Change<S> {
    /// The service for the address was bound; it replaces any earlier one.
    Insert(SocketAddr, S),
    /// The service for the address is gone.
    Remove(SocketAddr),
}

/// What one step of a poll gave.
pub enum Step<S> {
    /// A change for the load balancer.
    Ready(Change<S>),
    /// Nothing for the load balancer from this step; poll again.
    Again,
    /// Binding the endpoint failed.
    Failed,
}

/// The updating set of services of one destination.
///
/// Its owner polls it in a loop: first `poll_rebind`; if that gives
/// nothing, the next update from the background process or the TLS
/// configuration watch is handed to `poll_update`.
pub struct Resolution<B: Bind> {
    bind: B,
    rebind: RebindState,
}

impl<B: Bind> Resolution<B> {
    /// The invariant of a resolution: that of its rebind state.
    pub closed spec fn wf(&self) -> bool {
        self.rebind.wf()
    }

    /// The rebind state as a specification value.
    pub closed spec fn rebind_view(&self) -> RebindView {
        self.rebind@
    }

    pub fn new(bind: B) -> (resolution: Resolution<B>)
        ensures
            resolution.wf(),
            resolution.rebind_view() == (RebindView {
                rebinding: false,
                now: Seq::empty(),
                next: Seq::empty(),
            }),
    {
        Resolution { bind, rebind: RebindState::new() }
    }

    /// In a well-formed resolution no address is kept twice, and every
    /// endpoint that is kept has a TLS identity.
    pub proof fn wf_means(&self)
        requires
            self.wf(),
        ensures
            distinct_keys(self.rebind_view().now),
            distinct_keys(self.rebind_view().next),
            disjoint(self.rebind_view().now, self.rebind_view().next),
            all_identified(self.rebind_view().now),
            all_identified(self.rebind_view().next),
    {
        self.rebind.wf_means();
    }

    /// The state that decides which endpoints are bound again.
    pub fn rebind(&self) -> (state: &RebindState)
        ensures
            state@ == self.rebind_view(),
            self.wf() ==> state.wf(),
    {
        &self.rebind
    }

    /// Whether an endpoint awaits a rebind: if so, `poll_rebind` comes
    /// before any update.
    pub fn awaits_rebind(&self) -> (b: bool)
        ensures
            b == (to_rebind(self.rebind_view()) is Some),
    {
        self.rebind.awaits_rebind()
    }

    /// Takes what binding an endpoint gave. A service that was bound is
    /// handed to the load balancer under the endpoint's address, and the
    /// endpoint is remembered for rebinding where it has a TLS identity. A
    /// bind that failed gives a failed step, and nothing is remembered.
    pub fn after_bind(&mut self, endpoint: Endpoint, bound: Result<B::Service, B::BindError>) -> (step:
        Step<B::Service>)
        requires
            old(self).wf(),
        ensures
            final(self).wf(),
            bound is Ok ==> step == Step::<B::Service>::Ready(
                Change::Insert(endpoint@.0, bound->Ok_0),
            ) && final(self).rebind_view() == with_endpoint(old(self).rebind_view(), endpoint@),
            bound is Err ==> step is Failed && final(self).rebind_view() == old(
                self,
            ).rebind_view(),
    {
        match bound {
            Ok(service) => {
                let addr = endpoint.address();
                self.rebind.add_endpoint(endpoint);
                Step::Ready(Change::Insert(addr, service))
            },
            Err(_) => Step::Failed,
        }
    }

    /// Binds again one endpoint whose service the last change of the TLS
    /// configuration invalidated, if there is one left. This comes before
    /// any new update.
    pub fn poll_rebind(&mut self) -> (step: Option<Step<B::Service>>)
        requires
            old(self).wf(),
        ensures
            final(self).wf(),
            final(self).rebind_view() == stepped(old(self).rebind_view()),
            step is Some <==> to_rebind(old(self).rebind_view()) is Some,
            step is Some ==> !(step->0 is Again),
            step is Some && step->0 is Ready ==> ({
                let endpoint = to_rebind(old(self).rebind_view())->0;
                step->0->Ready_0 is Insert && step->0->Ready_0->Insert_0 == endpoint.0
            }),
    {
        match self.rebind.next_to_rebind() {
            Some(endpoint) => {
                let addr = endpoint.address();
                match self.bind.bind(&endpoint) {
                    Ok(service) => Some(Step::Ready(Change::Insert(addr, service))),
                    Err(_) => Some(Step::Failed),
                }
            },
            None => None,
        }
    }

    /// Applies one update; an endpoint that awaits a rebind comes first, so
    /// none may be waiting. For a bound endpoint the binder is asked, and
    /// `after_bind` says what follows from its answer. A removed address is
    /// forgotten, in whichever of the two it was kept, and the removal
    /// handed on. A change of the TLS configuration starts the rebinding
    /// and hands nothing on.
    pub fn poll_update(&mut self, update: Update) -> (step: Step<B::Service>)
        requires
            old(self).wf(),
            to_rebind(old(self).rebind_view()) is None,
        ensures
            final(self).wf(),
            match update@ {
                UpdateView::Bind(addr, meta) => {
                    &&& !(step is Again)
                    &&& step is Ready ==> step->Ready_0 is Insert && step->Ready_0->Insert_0 == addr
                        && final(self).rebind_view() == with_endpoint(
                        old(self).rebind_view(),
                        (addr, meta),
                    )
                    &&& step is Failed ==> final(self).rebind_view() == old(self).rebind_view()
                },
                UpdateView::Remove(addr) => {
                    &&& step is Ready
                    &&& step->Ready_0 is Remove
                    &&& step->Ready_0->Remove_0 == addr
                    &&& final(self).rebind_view() == without_endpoint(old(self).rebind_view(), addr)
                    &&& !has_key(final(self).rebind_view().now, addr)
                    &&& !has_key(final(self).rebind_view().next, addr)
                },
                UpdateView::RebindIfTls => {
                    &&& step is Again
                    &&& final(self).rebind_view() == (RebindView {
                        rebinding: true,
                        ..old(self).rebind_view()
                    })
                },
            },
    {
        match update {
            Update::Bind(addr, meta) => {
                let endpoint = Endpoint::new(addr, meta);
                let bound = self.bind.bind(&endpoint);
                self.after_bind(endpoint, bound)
            },
            Update::Remove(addr) => {
                self.rebind.remove_endpoint(&addr);
                Step::Ready(Change::Remove(addr))
            },
            Update::RebindIfTls => {
                self.rebind.invalidate();
                Step::Again
            },
        }
    }
}

} // verus!
