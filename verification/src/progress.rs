//! Every tool comes to an end.

use crate::action::{Action, AfterAwait, AfterSend, AfterSleep, SendFailure};
use crate::pending::{Reply, WaitError};
use crate::plugins::entries_view;
use crate::state::StateView;
use crate::tools::{goes_on_after_await, goes_on_after_send, goes_on_after_sleep};
use vstd::prelude::*;

verus! {

/// How far a tool is from its reply: whether plugins are still being listed, how many
/// meters are to be read, how many kinds of steps are ahead, and how often the present one
/// may come again.
pub struct Distance {
    pub listing: nat,
    pub meters: nat,
    pub steps: nat,
    pub repeats: nat,
}

impl Distance {
    /// Whether this is nearer to the reply.
    pub open spec fn nearer_than(self, other: Distance) -> bool {
        ||| self.listing < other.listing
        ||| self.listing == other.listing && self.meters < other.meters
        ||| self.listing == other.listing && self.meters == other.meters && self.steps
            < other.steps
        ||| self.listing == other.listing && self.meters == other.meters && self.steps
            == other.steps && self.repeats < other.repeats
    }
}

/// A number of steps ahead, none of them to be repeated.
pub open spec fn steps(n: nat) -> Distance {
    Distance { listing: 0, meters: 0, steps: n, repeats: 0 }
}

/// Steps ahead in the reading of a meter.
pub open spec fn meter_steps(left: nat, n: nat, repeats: nat) -> Distance {
    Distance { listing: 0, meters: left + 1, steps: n, repeats }
}

/// How many of `most` attempts are left.
pub open spec fn attempts_left(most: nat, attempt: u32) -> nat {
    if attempt >= most {
        0
    } else {
        (most - attempt) as nat
    }
}

/// How far a tool is from its reply while its message is being sent.
pub open spec fn distance_at_send(step: AfterSend) -> Distance {
    match step {
        AfterSend::Report { .. } => steps(1),
        AfterSend::StripSelected { .. } => steps(1),
        AfterSend::Refreshed { .. } => steps(2),
        AfterSend::ChangeTried(_) => steps(5),
        AfterSend::ChangeStripSelected(_) => steps(4),
        AfterSend::ChangePluginSelected(_) => steps(3),
        AfterSend::SelectionListed(_) => steps(6),
        AfterSend::SelectionStripSelected(_) => steps(4),
        AfterSend::SelectionMade(_) => steps(3),
        AfterSend::BatchRequested { .. } => steps(8),
        AfterSend::PluginsRequested(_) => Distance { listing: 1, meters: 0, steps: 2, repeats: 0 },
        AfterSend::MeterDescribed(run) => meter_steps(run.left@.len(), 6, 0),
        AfterSend::MeterBatchRequested(run, _) => meter_steps(run.left@.len(), 4, 0),
        AfterSend::MeterOutputRequested(o) => meter_steps(
            o.run.left@.len(),
            2,
            2 * o.left@.len() + 1,
        ),
        AfterSend::MeterFrameRequested { .. } => steps(2),
        AfterSend::SampleRateRequested => steps(2),
        AfterSend::LoopRangeRequested => steps(2),
        AfterSend::RegionPluginAdded(_) => steps(3),
        AfterSend::AutomationRequested { .. } => steps(2),
        AfterSend::CurrentValueRequested(_) => steps(3),
        AfterSend::StripListRequested => steps(2),
    }
}

/// How far a tool is from its reply while time passes.
pub open spec fn distance_at_sleep(step: AfterSleep) -> Distance {
    match step {
        AfterSleep::Refreshed { .. } => steps(1),
        AfterSleep::ChangePluginSelected(_) => steps(2),
        AfterSleep::SelectionListed { selection, attempt } => Distance {
            listing: 0,
            meters: 0,
            steps: 5,
            repeats: attempts_left(4, attempt),
        },
        AfterSleep::SelectionMade(_) => steps(2),
        AfterSleep::ParametersReported { .. } => steps(1),
        AfterSleep::PluginsRequested { listing, attempt } => Distance {
            listing: 1,
            meters: 0,
            steps: 1,
            repeats: attempts_left(5, attempt),
        },
        AfterSleep::MeterFrameRequested { .. } => steps(1),
        AfterSleep::RegionPluginAdded(_) => steps(2),
        AfterSleep::StripListRequested => steps(1),
    }
}

/// How far a tool is from its reply while it waits for one of the workstation.
pub open spec fn distance_at_await(step: AfterAwait) -> Distance {
    match step {
        AfterAwait::Batch { .. } => steps(7),
        AfterAwait::MeterDescribed(run) => meter_steps(run.left@.len(), 5, 0),
        AfterAwait::MeterBatch(run, _) => meter_steps(run.left@.len(), 3, 0),
        AfterAwait::MeterOutput(o) => meter_steps(o.run.left@.len(), 2, 2 * o.left@.len()),
        AfterAwait::SampleRate => steps(1),
        AfterAwait::LoopRange => steps(1),
        AfterAwait::Automation(_) => steps(1),
        AfterAwait::CurrentValue(_) => steps(2),
    }
}

/// How far a tool is from its reply.
pub open spec fn distance_at(a: Action) -> Distance {
    match a {
        Action::Send(_, step) => distance_at_send(step),
        Action::Sleep(_, step) => distance_at_sleep(step),
        Action::Await(_, _, step) => distance_at_await(step),
        Action::Finish(_) => steps(0),
    }
}

/// Whatever comes of its message, a tool gets nearer to its reply.
pub proof fn lemma_nearer_after_send(
    step: AfterSend,
    outcome: Result<(), SendFailure>,
    s: StateView,
    r: Action,
)
    requires
        goes_on_after_send(step, outcome, s, r),
    ensures
        distance_at(r).nearer_than(distance_at_send(step)),
{
    lemma_meters_left(r);
    match step {
        AfterSend::MeterBatchRequested(run, outputs) => {
            assert(entries_view(run.left@).len() == run.left@.len());
        },
        _ => {},
    }
}

/// Whatever is known after some time, a tool gets nearer to its reply.
pub proof fn lemma_nearer_after_sleep(step: AfterSleep, s: StateView, r: Action)
    requires
        goes_on_after_sleep(step, s, r),
    ensures
        distance_at(r).nearer_than(distance_at_sleep(step)),
{
}

/// Whatever is replied, a tool gets nearer to its reply.
pub proof fn lemma_nearer_after_await(
    step: AfterAwait,
    outcome: Result<Reply, WaitError>,
    s: StateView,
    r: Action,
)
    requires
        goes_on_after_await(step, outcome, s, r),
    ensures
        distance_at(r).nearer_than(distance_at_await(step)),
{
    lemma_meters_left(r);
    match step {
        AfterAwait::MeterBatch(run, outputs) => {
            assert(entries_view(run.left@).len() == run.left@.len());
        },
        AfterAwait::MeterOutput(o) => {
            assert(entries_view(o.run.left@).len() == o.run.left@.len());
        },
        _ => {},
    }
}

/// What is known of the meters that are left tells how many they are.
proof fn lemma_meters_left(a: Action)
    ensures
        a matches Action::Send(_, AfterSend::MeterDescribed(run)) ==> entries_view(
            run.left@,
        ).len() == run.left@.len(),
        a matches Action::Send(_, AfterSend::MeterOutputRequested(o)) ==> entries_view(
            o.run.left@,
        ).len() == o.run.left@.len(),
{
}

} // verus!
