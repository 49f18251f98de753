//! The service: what is known, and who waits for what.

use crate::action::{Action, AfterAwait, AfterSend, AfterSleep, SendFailure};
use crate::feedback::{after_messages, all_delivered, deliveries_view, receive, waiting_after_all};
use crate::osc::{decoded, MAX_PACKET};
use crate::pending::{Delivery, PendingRequests, Reply, WaitError, Waiting};
use crate::resources::{not_found_text, read_resource, resource, ResourceBody};
use crate::state::{ArdourState, StateView};
use crate::tools::{goes_on_after_await, goes_on_after_send, goes_on_after_sleep, state_after_send};
use vstd::prelude::*;
use vstd::string::*;

verus! {

/// What is known of the workstation, and the requests that wait for its replies.
#[derive(Debug)]
pub struct ArdourService<W> {
    state: ArdourState,
    pending: PendingRequests<W>,
}

impl<W> ArdourService<W> {
    /// Both parts are in order.
    pub closed spec fn wf(self) -> bool {
        self.state.wf() && self.pending.wf()
    }

    /// What is known.
    pub closed spec fn known(self) -> StateView {
        self.state@
    }

    /// Who waits for what.
    pub closed spec fn waiting(self) -> Map<Waiting, W> {
        self.pending@
    }

    /// What is known is coherent.
    pub proof fn lemma_coherent(self)
        requires
            self.wf(),
        ensures
            self.known().coherent(),
    {
        self.state.lemma_coherent();
    }

    /// Nothing is known and nobody waits.
    pub fn new() -> (r: ArdourService<W>)
        ensures
            r.wf(),
            r.known() == StateView::unknown(),
            r.waiting() == Map::<Waiting, W>::empty(),
    {
        ArdourService { state: ArdourState::new(), pending: PendingRequests::new() }
    }

    /// What is known.
    pub fn state(&self) -> (r: &ArdourState)
        requires
            self.wf(),
        ensures
            r.wf(),
            r@ == self.known(),
    {
        &self.state
    }

    /// Handles a datagram of the workstation.
    pub fn receive(&mut self, bytes: &[u8]) -> (r: Result<Vec<Delivery<W>>, String>)
        requires
            old(self).wf(),
            bytes@.len() <= MAX_PACKET,
        ensures
            final(self).wf(),
            match decoded(bytes@) {
                Ok(msgs) => {
                    &&& r matches Ok(list) && deliveries_view(list@) == all_delivered(
                        old(self).waiting(),
                        msgs,
                    )
                    &&& final(self).known() == after_messages(old(self).known(), msgs)
                    &&& final(self).waiting() == waiting_after_all(old(self).waiting(), msgs)
                },
                Err(text) => {
                    &&& r matches Err(e) && e@ == text
                    &&& final(self).known() == old(self).known()
                    &&& final(self).waiting() == old(self).waiting()
                },
            },
    {
        receive(&mut self.state, &mut self.pending, bytes)
    }

    /// Lets `request` wait for `w`, and hands back the request that it takes the place
    /// of.
    pub fn wait_for(&mut self, w: Waiting, request: W) -> (r: Option<W>)
        requires
            old(self).wf(),
        ensures
            final(self).wf(),
            final(self).known() == old(self).known(),
            final(self).waiting() == old(self).waiting().insert(w, request),
            match r {
                Some(x) => old(self).waiting().contains_key(w) && x == old(self).waiting()[w],
                None => !old(self).waiting().contains_key(w),
            },
    {
        self.pending.register(w, request)
    }

    /// Goes on with a tool once its message was sent, or could not be.
    pub fn sent(&mut self, step: AfterSend, outcome: Result<(), SendFailure>) -> (r: Action)
        requires
            old(self).wf(),
        ensures
            final(self).wf(),
            final(self).waiting() == old(self).waiting(),
            final(self).known() == state_after_send(step, outcome, old(self).known()),
            goes_on_after_send(step, outcome, old(self).known(), r),
    {
        step.sent(outcome, &mut self.state)
    }

    /// Goes on with a tool once the time has passed.
    pub fn slept(&self, step: AfterSleep) -> (r: Action)
        requires
            self.wf(),
        ensures
            goes_on_after_sleep(step, self.known(), r),
    {
        step.slept(&self.state)
    }

    /// Goes on with a tool once the reply came, or did not.
    pub fn received(&self, step: AfterAwait, outcome: Result<Reply, WaitError>) -> (r: Action)
        requires
            self.wf(),
        ensures
            goes_on_after_await(step, outcome, self.known(), r),
    {
        step.received(outcome, &self.state)
    }

    /// Reads what stands under a URI, or says that nothing does.
    pub fn read_resource(&self, uri: &str) -> (r: Result<ResourceBody, String>)
        requires
            self.wf(),
        ensures
            match resource(self.known(), uri@) {
                Some(view) => r matches Ok(body) && body@ == view,
                None => r matches Err(text) && text@ == not_found_text(uri@),
            },
    {
        read_resource(&self.state, uri)
    }
}

} // verus!
