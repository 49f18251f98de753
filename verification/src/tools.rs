//! How tools go on.

use crate::action::{
    finishes, report_outcome, reported, Action, AfterAwait, AfterSend, AfterSleep, SendFailure,
};
use crate::automation::{
    after_automation, after_automation_request, after_current_value, after_current_value_request,
    after_region_plugin_added, after_region_time, automation_reply, automation_requested,
    current_value_received, current_value_requested, region_change_sent,
};
use crate::meters::{
    after_listing_time, after_meter_batch, after_meter_batch_request, after_meter_described,
    after_meter_description, after_meter_frame_request, after_meter_output,
    after_meter_output_request, after_plugins_request, listing_waited, meter_batch_received,
    meter_batch_requested, meter_description_received, meter_frame_requested, meters_reply,
    next_output, outputs_read, reply_meters,
};
use crate::pending::{Reply, WaitError, Waiting};
use crate::readings::known_parameters;
use crate::reply::{meters_view, ToolReplyView};
use crate::selection::{
    after_batch, after_batch_request, after_change_plugin_selected, after_change_strip_selected,
    after_change_time, after_change_tried, after_parameters_time, after_selection_listed,
    after_selection_made, after_selection_made_time, after_selection_strip_selected,
    after_selection_time, after_strip_selected, batch_received, batch_requested,
    change_plugin_selected, change_sent, change_strip_selected, change_tried, parameters_reply,
    selected_text, selection_done, selection_listed, selection_made, selection_state,
    selection_strip_selected, selection_waited, strip_selected_reply, strip_selected_state,
};
use crate::state::{ArdourState, StateView};
use crate::transport::{
    after_loop_range, after_loop_range_request, after_refresh, after_refresh_time,
    after_sample_rate, after_sample_rate_request, after_strip_list_request, after_strip_list_time,
    loop_range_requested, range_reply, rate_reply, refreshed, replied_range, replied_rate,
    sample_rate_requested, strip_count_reply, strip_list_requested, transport_reply,
};
use vstd::prelude::*;
use vstd::string::*;

verus! {

/// What is known once a message was sent, or could not be: only a selection is taken note
/// of.
pub open spec fn state_after_send(
    step: AfterSend,
    outcome: Result<(), SendFailure>,
    s: StateView,
) -> StateView {
    match step {
        AfterSend::StripSelected { rid } => strip_selected_state(s, rid, outcome),
        AfterSend::SelectionStripSelected(selection) => selection_state(s, selection, outcome),
        _ => s,
    }
}

/// What a tool does once a message was sent, or could not be.
pub open spec fn goes_on_after_send(
    step: AfterSend,
    outcome: Result<(), SendFailure>,
    s: StateView,
    r: Action,
) -> bool {
    match step {
        AfterSend::Report { done, failed } => finishes(r, reported(done@, failed@, outcome)),
        AfterSend::StripSelected { rid } => finishes(r, strip_selected_reply(rid, outcome)),
        AfterSend::Refreshed { position } => refreshed(position, outcome, r),
        AfterSend::ChangeTried(change) => change_tried(change, outcome, r),
        AfterSend::ChangeStripSelected(change) => change_strip_selected(change, outcome, s, r),
        AfterSend::ChangePluginSelected(change) => change_plugin_selected(change, outcome, r),
        AfterSend::SelectionListed(selection) => selection_listed(selection, outcome, r),
        AfterSend::SelectionStripSelected(selection) => selection_strip_selected(
            selection,
            outcome,
            s,
            r,
        ),
        AfterSend::SelectionMade(selection) => selection_made(selection, outcome, r),
        AfterSend::BatchRequested { rid, plugin_slot } => batch_requested(
            rid,
            plugin_slot,
            outcome,
            s,
            r,
        ),
        AfterSend::PluginsRequested(listing) => r == Action::Sleep(
            200,
            AfterSleep::PluginsRequested { listing, attempt: 1 },
        ),
        AfterSend::MeterDescribed(run) => r == Action::Await(
            Waiting::Descriptor { ssid: run.rid, slot: run.current.slot },
            1500,
            AfterAwait::MeterDescribed(run),
        ),
        AfterSend::MeterBatchRequested(run, outputs) => meter_batch_requested(
            run,
            outputs,
            outcome,
            r,
        ),
        AfterSend::MeterOutputRequested(output) => r == Action::Await(
            Waiting::Value {
                ssid: output.run.rid,
                slot: output.run.current.slot,
                param: output.param,
            },
            800,
            AfterAwait::MeterOutput(output),
        ),
        AfterSend::MeterFrameRequested { rid, found } => meter_frame_requested(
            rid,
            found,
            outcome,
            s,
            r,
        ),
        AfterSend::SampleRateRequested => sample_rate_requested(outcome, r),
        AfterSend::LoopRangeRequested => loop_range_requested(outcome, r),
        AfterSend::RegionPluginAdded(change) => r == Action::Sleep(
            100,
            AfterSleep::RegionPluginAdded(change),
        ),
        AfterSend::AutomationRequested { query, failed } => automation_requested(
            query,
            failed,
            outcome,
            r,
        ),
        AfterSend::CurrentValueRequested(query) => current_value_requested(query, outcome, r),
        AfterSend::StripListRequested => strip_list_requested(outcome, r),
    }
}

impl AfterSend {
    /// Goes on once the message was sent, or could not be.
    pub fn sent(self, outcome: Result<(), SendFailure>, state: &mut ArdourState) -> (r: Action)
        requires
            old(state).wf(),
        ensures
            final(state).wf(),
            final(state)@ == state_after_send(self, outcome, old(state)@),
            goes_on_after_send(self, outcome, old(state)@, r),
    {
        match self {
            AfterSend::Report { done, failed } => report_outcome(done, failed, &outcome),
            AfterSend::StripSelected { rid } => after_strip_selected(rid, outcome, state),
            AfterSend::Refreshed { position } => after_refresh(position, outcome),
            AfterSend::ChangeTried(change) => after_change_tried(change, outcome),
            AfterSend::ChangeStripSelected(change) => after_change_strip_selected(
                change,
                outcome,
                state,
            ),
            AfterSend::ChangePluginSelected(change) => after_change_plugin_selected(
                change,
                outcome,
            ),
            AfterSend::SelectionListed(selection) => after_selection_listed(selection, outcome),
            AfterSend::SelectionStripSelected(selection) => after_selection_strip_selected(
                selection,
                outcome,
                state,
            ),
            AfterSend::SelectionMade(selection) => after_selection_made(selection, outcome),
            AfterSend::BatchRequested { rid, plugin_slot } => after_batch_request(
                rid,
                plugin_slot,
                outcome,
                state,
            ),
            AfterSend::PluginsRequested(listing) => after_plugins_request(listing),
            AfterSend::MeterDescribed(run) => after_meter_described(run),
            AfterSend::MeterBatchRequested(run, outputs) => after_meter_batch_request(
                run,
                outputs,
                outcome,
            ),
            AfterSend::MeterOutputRequested(output) => after_meter_output_request(output),
            AfterSend::MeterFrameRequested { rid, found } => after_meter_frame_request(
                rid,
                found,
                outcome,
                state,
            ),
            AfterSend::SampleRateRequested => after_sample_rate_request(outcome),
            AfterSend::LoopRangeRequested => after_loop_range_request(outcome),
            AfterSend::RegionPluginAdded(change) => after_region_plugin_added(change),
            AfterSend::AutomationRequested { query, failed } => after_automation_request(
                query,
                failed,
                outcome,
            ),
            AfterSend::CurrentValueRequested(query) => after_current_value_request(query, outcome),
            AfterSend::StripListRequested => after_strip_list_request(outcome),
        }
    }
}

/// What a tool does once some time has passed.
pub open spec fn goes_on_after_sleep(step: AfterSleep, s: StateView, r: Action) -> bool {
    match step {
        AfterSleep::Refreshed { position } => finishes(r, transport_reply(s.playback, position@)),
        AfterSleep::ChangePluginSelected(change) => change_sent(change, r),
        AfterSleep::SelectionListed { selection, attempt } => selection_waited(
            selection,
            attempt,
            s,
            r,
        ),
        AfterSleep::SelectionMade(selection) => selection_done(
            selection,
            ToolReplyView::Success(selected_text(selection)),
            r,
        ),
        AfterSleep::ParametersReported { rid, plugin_slot } => finishes(
            r,
            parameters_reply(rid, plugin_slot, known_parameters(s, rid, plugin_slot)),
        ),
        AfterSleep::PluginsRequested { listing, attempt } => listing_waited(listing, attempt, s, r),
        AfterSleep::MeterFrameRequested { rid, found } => finishes(
            r,
            meters_reply(rid, meters_view(found@), s.frame),
        ),
        AfterSleep::RegionPluginAdded(change) => region_change_sent(change, r),
        AfterSleep::StripListRequested => finishes(r, strip_count_reply(s)),
    }
}

impl AfterSleep {
    /// Goes on once the time has passed.
    pub fn slept(self, state: &ArdourState) -> (r: Action)
        requires
            state.wf(),
        ensures
            goes_on_after_sleep(self, state@, r),
    {
        match self {
            AfterSleep::Refreshed { position } => after_refresh_time(position, state),
            AfterSleep::ChangePluginSelected(change) => after_change_time(change),
            AfterSleep::SelectionListed { selection, attempt } => after_selection_time(
                selection,
                attempt,
                state,
            ),
            AfterSleep::SelectionMade(selection) => after_selection_made_time(selection),
            AfterSleep::ParametersReported { rid, plugin_slot } => after_parameters_time(
                rid,
                plugin_slot,
                state,
            ),
            AfterSleep::PluginsRequested { listing, attempt } => after_listing_time(
                listing,
                attempt,
                state,
            ),
            AfterSleep::MeterFrameRequested { rid, found } => reply_meters(rid, found, state),
            AfterSleep::RegionPluginAdded(change) => after_region_time(change),
            AfterSleep::StripListRequested => after_strip_list_time(state),
        }
    }
}

/// What a tool does once a reply came, or did not.
pub open spec fn goes_on_after_await(
    step: AfterAwait,
    outcome: Result<Reply, WaitError>,
    s: StateView,
    r: Action,
) -> bool {
    match step {
        AfterAwait::Batch { rid, plugin_slot } => batch_received(rid, plugin_slot, outcome, s, r),
        AfterAwait::MeterDescribed(run) => meter_description_received(run, s, r),
        AfterAwait::MeterBatch(run, outputs) => meter_batch_received(
            run,
            outputs@,
            outcome,
            s,
            r,
        ),
        AfterAwait::MeterOutput(output) => next_output(
            output.run,
            output.left@,
            outputs_read(output, outcome, s),
            r,
        ),
        AfterAwait::SampleRate => finishes(r, rate_reply(replied_rate(outcome))),
        AfterAwait::LoopRange => finishes(r, range_reply(replied_range(outcome))),
        AfterAwait::Automation(query) => finishes(r, automation_reply(query, outcome)),
        AfterAwait::CurrentValue(query) => current_value_received(query, outcome, r),
    }
}

impl AfterAwait {
    /// Goes on once the reply came, or did not.
    pub fn received(self, outcome: Result<Reply, WaitError>, state: &ArdourState) -> (r: Action)
        requires
            state.wf(),
        ensures
            goes_on_after_await(self, outcome, state@, r),
    {
        match self {
            AfterAwait::Batch { rid, plugin_slot } => after_batch(rid, plugin_slot, outcome, state),
            AfterAwait::MeterDescribed(run) => after_meter_description(run, state),
            AfterAwait::MeterBatch(run, outputs) => after_meter_batch(run, outputs, outcome, state),
            AfterAwait::MeterOutput(output) => after_meter_output(output, outcome, state),
            AfterAwait::SampleRate => after_sample_rate(outcome),
            AfterAwait::LoopRange => after_loop_range(outcome),
            AfterAwait::Automation(query) => after_automation(query, outcome),
            AfterAwait::CurrentValue(query) => after_current_value(query, outcome),
        }
    }
}

} // verus!
