//! The selection of strips and plugins, and the parameters of plugins.

use crate::action::{
    finishes, four_args, one_arg, refuse, reported, reports, two_args, Action, AfterAwait, AfterSelection,
    AfterSend, AfterSleep, Failure, FailureView, Number, ParameterChange, Selection, SendFailure,
};
use crate::commands::{error_for, is_outside_unit, outside_unit};
use crate::osc::{message, ArgView, MessageView, OscArg, OscMessage};
use crate::pending::{Reply, WaitError, Waiting};
use crate::plugins::{
    entries_view, index_to_select, index_to_set, selectable_index, settable_index, EntryView,
};
use crate::readings::{find_parameters, known_parameters, match_batch, matched_batch};
use crate::reply::{Document, DocumentView, ToolReply, ToolReplyView};
use crate::single::{single_of_int, Single};
use crate::slots::{before, one_less};
use crate::state::{ArdourState, ParameterView, StateView};
use crate::text::{decimal, decimal_text};
use vstd::prelude::*;
use vstd::string::*;

verus! {

/// The plugins on a strip, where they are known.
pub open spec fn plugins_on(s: StateView, ssid: i32) -> Option<Seq<EntryView>> {
    if s.plugins.contains_key(ssid) {
        Some(s.plugins[ssid])
    } else {
        None
    }
}

/// The message that selects a strip.
pub open spec fn select_strip_message(rid: i32) -> MessageView {
    MessageView { addr: "/strip/select"@, args: seq![ArgView::Int(rid), ArgView::Int(1)] }
}

/// The message that selects a plugin on the selected strip.
pub open spec fn select_plugin_message(index: i32) -> MessageView {
    MessageView { addr: "/select/plugin"@, args: seq![ArgView::Float(single_of_int(index))] }
}

/// The message that asks for the plugins on a strip.
pub open spec fn list_message(rid: i32) -> MessageView {
    MessageView { addr: "/strip/plugin/list"@, args: seq![ArgView::Int(rid)] }
}

/// The message that asks for the values of all parameters of a plugin.
pub open spec fn batch_message(rid: i32, plugin_slot: i32) -> MessageView {
    MessageView {
        addr: "/strip/plugin/parameter/get_all"@,
        args: seq![ArgView::Int(rid), ArgView::Int(plugin_slot)],
    }
}

/// Selects a strip.
fn strip_selector(rid: i32) -> (r: OscMessage)
    ensures
        r@ == select_strip_message(rid),
{
    message("/strip/select", two_args(OscArg::Int(rid), OscArg::Int(1)))
}

/// Selects a plugin on the selected strip.
fn plugin_selector(index: i32) -> (r: OscMessage)
    ensures
        r@ == select_plugin_message(index),
{
    message("/select/plugin", one_arg(OscArg::Float(Single::from_int(index))))
}

/// Asks for the plugins on a strip.
pub fn list_request(rid: i32) -> (r: OscMessage)
    ensures
        r@ == list_message(rid),
{
    message("/strip/plugin/list", one_arg(OscArg::Int(rid)))
}

/// Asks for the values of all parameters of a plugin.
pub fn batch_request(rid: i32, plugin_slot: i32) -> (r: OscMessage)
    ensures
        r@ == batch_message(rid, plugin_slot),
{
    message(
        "/strip/plugin/parameter/get_all",
        two_args(OscArg::Int(rid), OscArg::Int(plugin_slot)),
    )
}

/// Selects a strip.
pub fn select_strip_tool(rid: i32, select_state: bool) -> (r: Action)
    ensures
        if !select_state {
            finishes(
                r,
                ToolReplyView::Success(
                    "Strip "@ + decimal_text(rid as int)
                        + " not selected as select_state was false."@,
                ),
            )
        } else if rid <= 0 {
            finishes(r, bad_rid(rid))
        } else {
            r matches Action::Send(m, AfterSend::StripSelected { rid: id }) && m@
                == select_strip_message(rid) && id == rid
        },
{
    if !select_state {
        let mut t = "Strip ".to_owned();
        t.append(decimal(rid as i64).as_str());
        t.append(" not selected as select_state was false.");
        return Action::Finish(ToolReply::Success(t));
    }
    if rid <= 0 {
        return refuse_rid(rid);
    }
    Action::Send(strip_selector(rid), AfterSend::StripSelected { rid })
}

/// Says that the number of a strip cannot be one.
pub open spec fn bad_rid(rid: i32) -> ToolReplyView {
    ToolReplyView::Error(
        "Invalid rid: "@ + decimal_text(rid as int) + ". Must be a positive integer."@,
    )
}

/// Replies that the number of a strip cannot be one.
pub fn refuse_rid(rid: i32) -> (r: Action)
    ensures
        finishes(r, bad_rid(rid)),
{
    let mut t = "Invalid rid: ".to_owned();
    t.append(decimal(rid as i64).as_str());
    t.append(". Must be a positive integer.");
    Action::Finish(ToolReply::Error(t))
}

/// What is replied once a strip was to be selected.
pub open spec fn strip_selected_reply(
    rid: i32,
    outcome: Result<(), SendFailure>,
) -> ToolReplyView {
    reported(
        ToolReplyView::Success("Strip "@ + decimal_text(rid as int) + " selected successfully."@),
        error_for("/strip/select"@),
        outcome,
    )
}

/// What is known once a strip was to be selected: the selection does not wait until it is
/// reported, and the plugins that are known stay known.
pub open spec fn strip_selected_state(
    s: StateView,
    rid: i32,
    outcome: Result<(), SendFailure>,
) -> StateView {
    match outcome {
        Ok(_) => StateView { selected_strip: Some(rid), selected_slot: None, ..s },
        Err(_) => s,
    }
}

/// Takes note of the selection, and replies.
pub fn after_strip_selected(
    rid: i32,
    outcome: Result<(), SendFailure>,
    state: &mut ArdourState,
) -> (r: Action)
    requires
        old(state).wf(),
    ensures
        final(state).wf(),
        final(state)@ == strip_selected_state(old(state)@, rid, outcome),
        finishes(r, strip_selected_reply(rid, outcome)),
{
    match outcome {
        Ok(_) => {
            state.select_strip(rid);
            let mut t = "Strip ".to_owned();
            t.append(decimal(rid as i64).as_str());
            t.append(" selected successfully.");
            Action::Finish(ToolReply::Success(t))
        },
        Err(e) => {
            let mut t = "OSC send error for ".to_owned();
            t.append("/strip/select");
            t.append(": ");
            t.append(e.text.as_str());
            assert(t@ =~= t@ + Seq::<char>::empty());
            Action::Finish(ToolReply::Error(t))
        },
    }
}

/// The message that sets a parameter of a plugin, whatever is selected.
pub open spec fn set_parameter_message(change: ParameterChange) -> MessageView {
    MessageView {
        addr: "/strip/plugin/parameter"@,
        args: seq![
            ArgView::Int(change.rid),
            ArgView::Int(change.plugin_slot),
            ArgView::Int(change.param_id),
            ArgView::Float(change.value.value),
        ],
    }
}

/// Sets a parameter of a plugin. The slot is counted from one, and so is the parameter.
/// Only where the message cannot be sent, the strip and the plugin are selected and the
/// parameter is set by way of the selection.
pub fn set_strip_plugin_parameter_tool(
    rid: i32,
    plugin_slot: i32,
    param_id: i32,
    value: Number,
) -> (r: Action)
    ensures
        if plugin_slot <= 0 {
            finishes(
                r,
                ToolReplyView::Error("Invalid plugin_slot: must be a positive integer."@),
            )
        } else if param_id <= 0 {
            finishes(
                r,
                ToolReplyView::Error("Invalid param_id: must be a positive integer."@),
            )
        } else if outside_unit(value.value) {
            finishes(
                r,
                ToolReplyView::Error("Invalid value: must be between 0.0 and 1.0 (inclusive)."@),
            )
        } else {
            r matches Action::Send(m, AfterSend::ChangeTried(change)) && m@
                == set_parameter_message(change) && change == (ParameterChange {
                rid,
                plugin_slot,
                param_id,
                value,
            })
        },
{
    if plugin_slot <= 0 {
        return refuse("Invalid plugin_slot: must be a positive integer.");
    }
    if param_id <= 0 {
        return refuse("Invalid param_id: must be a positive integer.");
    }
    if is_outside_unit(&value.value) {
        return refuse("Invalid value: must be between 0.0 and 1.0 (inclusive).");
    }
    let change = ParameterChange { rid, plugin_slot, param_id, value };
    Action::Send(
        message(
            "/strip/plugin/parameter",
            four_args(
                OscArg::Int(rid),
                OscArg::Int(plugin_slot),
                OscArg::Int(param_id),
                OscArg::Float(change.value.value),
            ),
        ),
        AfterSend::ChangeTried(change),
    )
}

/// Says that a parameter was set.
pub open spec fn changed_text(change: ParameterChange) -> Seq<char> {
    "Strip "@ + decimal_text(change.rid as int) + " plugin slot "@ + decimal_text(
        change.plugin_slot as int,
    ) + " parameter "@ + decimal_text(change.param_id as int) + " set to "@ + change.value.text@
}

/// Says that a parameter was set.
fn describe_change(change: &ParameterChange) -> (r: String)
    ensures
        r@ == changed_text(*change),
{
    let mut t = "Strip ".to_owned();
    t.append(decimal(change.rid as i64).as_str());
    t.append(" plugin slot ");
    t.append(decimal(change.plugin_slot as i64).as_str());
    t.append(" parameter ");
    t.append(decimal(change.param_id as i64).as_str());
    t.append(" set to ");
    t.append(change.value.text.as_str());
    t
}

/// How it goes on once the parameter was to be set: where the message could not be sent,
/// the strip is selected.
pub open spec fn change_tried(
    change: ParameterChange,
    outcome: Result<(), SendFailure>,
    r: Action,
) -> bool {
    match outcome {
        Ok(_) => finishes(
            r,
            ToolReplyView::Success(changed_text(change) + " (via /strip/plugin/parameter)."@),
        ),
        Err(_) => r matches Action::Send(m, AfterSend::ChangeStripSelected(c)) && c == change && m@
            == select_strip_message(change.rid),
    }
}

/// Goes on once the parameter was to be set.
pub fn after_change_tried(change: ParameterChange, outcome: Result<(), SendFailure>) -> (r: Action)
    ensures
        change_tried(change, outcome, r),
{
    match outcome {
        Ok(_) => {
            let mut t = describe_change(&change);
            t.append(" (via /strip/plugin/parameter).");
            Action::Finish(ToolReply::Success(t))
        },
        Err(_) => Action::Send(
            strip_selector(change.rid),
            AfterSend::ChangeStripSelected(change),
        ),
    }
}

/// How it goes on once the strip was selected.
pub open spec fn change_strip_selected(
    change: ParameterChange,
    outcome: Result<(), SendFailure>,
    s: StateView,
    r: Action,
) -> bool {
    match outcome {
        Ok(_) => r matches Action::Send(m, AfterSend::ChangePluginSelected(c)) && c == change && m@
            == select_plugin_message(
            settable_index(plugins_on(s, change.rid), change.plugin_slot),
        ),
        Err(e) => finishes(
            r,
            ToolReplyView::Error(
                "Failed to set parameter: strip selection failed: "@ + e.text@,
            ),
        ),
    }
}

/// Goes on once the strip was selected.
pub fn after_change_strip_selected(
    change: ParameterChange,
    outcome: Result<(), SendFailure>,
    state: &ArdourState,
) -> (r: Action)
    ensures
        change_strip_selected(change, outcome, state@, r),
{
    match outcome {
        Ok(_) => {
            let index: i32 = index_to_set(state.plugins_on(change.rid), change.plugin_slot);
            Action::Send(plugin_selector(index), AfterSend::ChangePluginSelected(change))
        },
        Err(e) => {
            let mut t = "Failed to set parameter: strip selection failed: ".to_owned();
            t.append(e.text.as_str());
            Action::Finish(ToolReply::Error(t))
        },
    }
}

/// How it goes on once the plugin was selected.
pub open spec fn change_plugin_selected(
    change: ParameterChange,
    outcome: Result<(), SendFailure>,
    r: Action,
) -> bool {
    match outcome {
        Ok(_) => r == Action::Sleep(200, AfterSleep::ChangePluginSelected(change)),
        Err(e) => finishes(
            r,
            ToolReplyView::Error(
                "Failed to set parameter: /strip/plugin/parameter failed and fallback plugin selection failed: "@
                    + e.text@,
            ),
        ),
    }
}

/// Goes on once the plugin was selected.
pub fn after_change_plugin_selected(
    change: ParameterChange,
    outcome: Result<(), SendFailure>,
) -> (r: Action)
    ensures
        change_plugin_selected(change, outcome, r),
{
    match outcome {
        Ok(_) => Action::Sleep(200, AfterSleep::ChangePluginSelected(change)),
        Err(e) => {
            let mut t =
                "Failed to set parameter: /strip/plugin/parameter failed and fallback plugin selection failed: ".to_owned();
            t.append(e.text.as_str());
            Action::Finish(ToolReply::Error(t))
        },
    }
}

/// Says that a parameter was set by way of the selection.
pub open spec fn change_text(change: ParameterChange) -> Seq<char> {
    changed_text(change) + " (via /select/plugin/parameter, visible index "@ + decimal_text(
        change.param_id as int,
    ) + ")."@
}

/// Sends the value of the parameter.
pub open spec fn change_sent(change: ParameterChange, r: Action) -> bool {
    reports(
        r,
        MessageView {
            addr: "/select/plugin/parameter"@,
            args: seq![ArgView::Int(change.param_id), ArgView::Float(change.value.value)],
        },
        ToolReplyView::Success(change_text(change)),
        FailureView {
            before: "Failed to set parameter via /select/plugin/parameter: "@,
            behind: ". Parameter "@ + decimal_text(change.param_id as int)
                + " may not be controllable via OSC."@,
            internal: false,
        },
    )
}

/// Sends the value once the selection had time to take effect.
pub fn after_change_time(change: ParameterChange) -> (r: Action)
    ensures
        change_sent(change, r),
{
    let mut done = describe_change(&change);
    done.append(" (via /select/plugin/parameter, visible index ");
    done.append(decimal(change.param_id as i64).as_str());
    done.append(").");
    let mut behind = ". Parameter ".to_owned();
    behind.append(decimal(change.param_id as i64).as_str());
    behind.append(" may not be controllable via OSC.");
    Action::Send(
        message(
            "/select/plugin/parameter",
            two_args(OscArg::Int(change.param_id), OscArg::Float(change.value.value)),
        ),
        AfterSend::Report {
            done: ToolReply::Success(done),
            failed: Failure {
                before: "Failed to set parameter via /select/plugin/parameter: ".to_owned(),
                behind,
                internal: false,
            },
        },
    )
}

/// How a selection of a plugin begins: the list of plugins is asked for anew.
pub open spec fn selection_begun(selection: Selection, r: Action) -> bool {
    if selection.plugin_slot <= 0 {
        finishes(r, ToolReplyView::Error("Invalid plugin_slot: must be a positive integer."@))
    } else {
        r matches Action::Send(m, AfterSend::SelectionListed(c)) && c == selection && m@
            == list_message(selection.rid)
    }
}

/// Begins the selection of a plugin.
fn begin_selection(selection: Selection) -> (r: Action)
    ensures
        selection_begun(selection, r),
{
    if selection.plugin_slot <= 0 {
        return refuse("Invalid plugin_slot: must be a positive integer.");
    }
    Action::Send(list_request(selection.rid), AfterSend::SelectionListed(selection))
}

/// Selects a plugin, which makes the workstation report its parameters.
pub fn select_plugin_tool(rid: i32, plugin_slot: i32) -> (r: Action)
    ensures
        selection_begun(Selection { rid, plugin_slot, next: AfterSelection::Reply }, r),
{
    begin_selection(Selection { rid, plugin_slot, next: AfterSelection::Reply })
}

/// The strip of the plugin is selected.
pub open spec fn selection_strip(selection: Selection, r: Action) -> bool {
    r matches Action::Send(m, AfterSend::SelectionStripSelected(c)) && c == selection && m@
        == select_strip_message(selection.rid)
}

/// Selects the strip of the plugin.
fn select_its_strip(selection: Selection) -> (r: Action)
    ensures
        selection_strip(selection, r),
{
    Action::Send(strip_selector(selection.rid), AfterSend::SelectionStripSelected(selection))
}

/// How it goes on once the list of plugins was asked for: where that failed, there is
/// nothing to wait for.
pub open spec fn selection_listed(
    selection: Selection,
    outcome: Result<(), SendFailure>,
    r: Action,
) -> bool {
    match outcome {
        Ok(_) => r == Action::Sleep(150, AfterSleep::SelectionListed { selection, attempt: 1 }),
        Err(_) => selection_strip(selection, r),
    }
}

/// Goes on once the list of plugins was asked for.
pub fn after_selection_listed(selection: Selection, outcome: Result<(), SendFailure>) -> (r: Action)
    ensures
        selection_listed(selection, outcome, r),
{
    match outcome {
        Ok(_) => Action::Sleep(150, AfterSleep::SelectionListed { selection, attempt: 1 }),
        Err(_) => select_its_strip(selection),
    }
}

/// Whether some plugin on a strip is known.
pub open spec fn plugins_known(s: StateView, rid: i32) -> bool {
    s.plugins.contains_key(rid) && s.plugins[rid].len() > 0
}

/// Whether some plugin on a strip is known.
pub fn knows_plugins(state: &ArdourState, rid: i32) -> (r: bool)
    ensures
        r == plugins_known(state@, rid),
{
    match state.plugins_on(rid) {
        Some(list) => {
            assert(entries_view(list@).len() == list@.len());
            list.len() > 0
        },
        None => false,
    }
}

/// How it goes on once the list of plugins had time to come: it is waited for four times
/// at most.
pub open spec fn selection_waited(
    selection: Selection,
    attempt: u32,
    s: StateView,
    r: Action,
) -> bool {
    if plugins_known(s, selection.rid) || attempt >= 4 {
        selection_strip(selection, r)
    } else {
        r == Action::Sleep(
            150,
            AfterSleep::SelectionListed { selection, attempt: (attempt + 1) as u32 },
        )
    }
}

/// Goes on once the list of plugins had time to come.
pub fn after_selection_time(selection: Selection, attempt: u32, state: &ArdourState) -> (r: Action)
    ensures
        selection_waited(selection, attempt, state@, r),
{
    if knows_plugins(state, selection.rid) || attempt >= 4 {
        select_its_strip(selection)
    } else {
        Action::Sleep(150, AfterSleep::SelectionListed { selection, attempt: attempt + 1 })
    }
}

/// What is known once the strip of the plugin was to be selected.
pub open spec fn selection_state(
    s: StateView,
    selection: Selection,
    outcome: Result<(), SendFailure>,
) -> StateView {
    match outcome {
        Ok(_) => StateView {
            selected_strip: Some(selection.rid),
            selected_slot: Some(selection.plugin_slot),
            ..s
        },
        Err(_) => s,
    }
}

/// Says that a plugin cannot be selected.
pub open spec fn not_selectable(selection: Selection) -> Seq<char> {
    "Plugin slot "@ + decimal_text(selection.plugin_slot as int) + " on strip "@ + decimal_text(
        selection.rid as int,
    ) + " is disabled or not found. Cannot select disabled plugins."@
}

/// How it goes on once the strip of the plugin was selected: the plugin is selected by its
/// place among the enabled ones.
pub open spec fn selection_strip_selected(
    selection: Selection,
    outcome: Result<(), SendFailure>,
    s: StateView,
    r: Action,
) -> bool {
    match outcome {
        Ok(_) => match selectable_index(plugins_on(s, selection.rid), selection.plugin_slot) {
            Some(index) => r matches Action::Send(m, AfterSend::SelectionMade(c)) && c == selection
                && m@ == select_plugin_message(index),
            None => finishes(r, ToolReplyView::Error(not_selectable(selection))),
        },
        Err(e) => finishes(
            r,
            ToolReplyView::Error(
                "Failed to select strip "@ + decimal_text(selection.rid as int) + ": "@ + e.text@,
            ),
        ),
    }
}

/// Takes note of the selection, and selects the plugin.
pub fn after_selection_strip_selected(
    selection: Selection,
    outcome: Result<(), SendFailure>,
    state: &mut ArdourState,
) -> (r: Action)
    requires
        old(state).wf(),
    ensures
        final(state).wf(),
        final(state)@ == selection_state(old(state)@, selection, outcome),
        selection_strip_selected(selection, outcome, old(state)@, r),
{
    match outcome {
        Ok(_) => {
            state.select_plugin(selection.rid, selection.plugin_slot);
            match index_to_select(state.plugins_on(selection.rid), selection.plugin_slot) {
                Some(index) => Action::Send(
                    plugin_selector(index),
                    AfterSend::SelectionMade(selection),
                ),
                None => {
                    let mut t = "Plugin slot ".to_owned();
                    t.append(decimal(selection.plugin_slot as i64).as_str());
                    t.append(" on strip ");
                    t.append(decimal(selection.rid as i64).as_str());
                    t.append(" is disabled or not found. Cannot select disabled plugins.");
                    Action::Finish(ToolReply::Error(t))
                },
            }
        },
        Err(e) => {
            let mut t = "Failed to select strip ".to_owned();
            t.append(decimal(selection.rid as i64).as_str());
            t.append(": ");
            t.append(e.text.as_str());
            Action::Finish(ToolReply::Error(t))
        },
    }
}

/// What follows a selection: the reply, or the reading of the parameters, which takes some
/// time to come in.
pub open spec fn selection_done(selection: Selection, reply: ToolReplyView, r: Action) -> bool {
    match selection.next {
        AfterSelection::Reply => finishes(r, reply),
        AfterSelection::ReadParameters => r == Action::Sleep(
            1200,
            AfterSleep::ParametersReported {
                rid: selection.rid,
                plugin_slot: selection.plugin_slot,
            },
        ),
    }
}

/// Goes on with what follows a selection.
fn finish_selection(selection: Selection, reply: ToolReply) -> (r: Action)
    ensures
        selection_done(selection, reply@, r),
{
    match selection.next {
        AfterSelection::Reply => Action::Finish(reply),
        AfterSelection::ReadParameters => Action::Sleep(
            1200,
            AfterSleep::ParametersReported {
                rid: selection.rid,
                plugin_slot: selection.plugin_slot,
            },
        ),
    }
}

/// How it goes on once the plugin was selected. Where that message could not be sent, the
/// strip is selected all the same.
pub open spec fn selection_made(
    selection: Selection,
    outcome: Result<(), SendFailure>,
    r: Action,
) -> bool {
    match outcome {
        Ok(_) => r == Action::Sleep(800, AfterSleep::SelectionMade(selection)),
        Err(_) => selection_done(
            selection,
            ToolReplyView::Success(
                "Strip "@ + decimal_text(selection.rid as int)
                    + " selected. Plugin selection command failed, but parameters may still arrive via feedback."@,
            ),
            r,
        ),
    }
}

/// Goes on once the plugin was selected.
pub fn after_selection_made(selection: Selection, outcome: Result<(), SendFailure>) -> (r: Action)
    ensures
        selection_made(selection, outcome, r),
{
    match outcome {
        Ok(_) => Action::Sleep(800, AfterSleep::SelectionMade(selection)),
        Err(_) => {
            let mut t = "Strip ".to_owned();
            t.append(decimal(selection.rid as i64).as_str());
            t.append(
                " selected. Plugin selection command failed, but parameters may still arrive via feedback.",
            );
            finish_selection(selection, ToolReply::Success(t))
        },
    }
}

/// Says that a plugin was selected.
pub open spec fn selected_text(selection: Selection) -> Seq<char> {
    "Plugin on strip "@ + decimal_text(selection.rid as int) + " slot "@ + decimal_text(
        selection.plugin_slot as int,
    ) + " selected. Parameter feedback should arrive shortly."@
}

/// Goes on once the parameters had time to be reported.
pub fn after_selection_made_time(selection: Selection) -> (r: Action)
    ensures
        selection_done(selection, ToolReplyView::Success(selected_text(selection)), r),
{
    let mut t = "Plugin on strip ".to_owned();
    t.append(decimal(selection.rid as i64).as_str());
    t.append(" slot ");
    t.append(decimal(selection.plugin_slot as i64).as_str());
    t.append(" selected. Parameter feedback should arrive shortly.");
    finish_selection(selection, ToolReply::Success(t))
}

/// Reads the parameters of a plugin. The slot is counted from one. All values are asked
/// for at once; where that does not work out, the plugin is selected and its parameters
/// are taken as they are reported.
pub fn get_plugin_parameters_tool(rid: i32, plugin_slot: i32) -> (r: Action)
    ensures
        r matches Action::Send(m, AfterSend::BatchRequested { rid: id, plugin_slot: slot }) && m@
            == batch_message(rid, plugin_slot) && id == rid && slot == plugin_slot,
{
    Action::Send(
        batch_request(rid, plugin_slot),
        AfterSend::BatchRequested { rid, plugin_slot },
    )
}

/// The parameters are taken as they are reported for the selected plugin: the plugin is
/// selected, unless it is already.
pub open spec fn reported_parameters_read(
    rid: i32,
    plugin_slot: i32,
    s: StateView,
    r: Action,
) -> bool {
    if s.selected_strip == Some(rid) && s.selected_slot == Some(plugin_slot) {
        r == Action::Sleep(300, AfterSleep::ParametersReported { rid, plugin_slot })
    } else {
        selection_begun(Selection { rid, plugin_slot, next: AfterSelection::ReadParameters }, r)
    }
}

/// Takes the parameters as they are reported for the selected plugin.
fn read_reported_parameters(rid: i32, plugin_slot: i32, state: &ArdourState) -> (r: Action)
    ensures
        reported_parameters_read(rid, plugin_slot, state@, r),
{
    let strip_selected: bool = match state.selected_strip() {
        Some(n) => n == rid,
        None => false,
    };
    let plugin_selected: bool = match state.selected_plugin_slot() {
        Some(n) => n == plugin_slot,
        None => false,
    };
    if strip_selected && plugin_selected {
        Action::Sleep(300, AfterSleep::ParametersReported { rid, plugin_slot })
    } else {
        begin_selection(Selection { rid, plugin_slot, next: AfterSelection::ReadParameters })
    }
}

/// How it goes on once all values were asked for.
pub open spec fn batch_requested(
    rid: i32,
    plugin_slot: i32,
    outcome: Result<(), SendFailure>,
    s: StateView,
    r: Action,
) -> bool {
    match outcome {
        Ok(_) => r == Action::Await(
            Waiting::Batch { ssid: rid, slot: before(plugin_slot) },
            1200,
            AfterAwait::Batch { rid, plugin_slot },
        ),
        Err(_) => reported_parameters_read(rid, plugin_slot, s, r),
    }
}

/// Goes on once all values were asked for.
pub fn after_batch_request(
    rid: i32,
    plugin_slot: i32,
    outcome: Result<(), SendFailure>,
    state: &ArdourState,
) -> (r: Action)
    ensures
        batch_requested(rid, plugin_slot, outcome, state@, r),
{
    match outcome {
        Ok(_) => Action::Await(
            Waiting::Batch { ssid: rid, slot: one_less(plugin_slot) },
            1200,
            AfterAwait::Batch { rid, plugin_slot },
        ),
        Err(_) => read_reported_parameters(rid, plugin_slot, state),
    }
}

/// A reply with the parameters of a plugin.
pub open spec fn parameters_reply(
    rid: i32,
    plugin_slot: i32,
    parameters: Seq<ParameterView>,
) -> ToolReplyView {
    ToolReplyView::Document(
        DocumentView::PluginParameters { strip_id: rid, plugin_slot, parameters },
    )
}

/// What a reply says of the parameters of a plugin, where it says all.
pub open spec fn replied_parameters(
    rid: i32,
    plugin_slot: i32,
    outcome: Result<Reply, WaitError>,
    s: StateView,
) -> Option<Seq<ParameterView>> {
    match outcome {
        Ok(Reply::Batch(values)) => matched_batch(s, rid, before(plugin_slot), values@),
        _ => None,
    }
}

/// How it goes on once all values were replied, or were not.
pub open spec fn batch_received(
    rid: i32,
    plugin_slot: i32,
    outcome: Result<Reply, WaitError>,
    s: StateView,
    r: Action,
) -> bool {
    match replied_parameters(rid, plugin_slot, outcome, s) {
        Some(parameters) => finishes(r, parameters_reply(rid, plugin_slot, parameters)),
        None => reported_parameters_read(rid, plugin_slot, s, r),
    }
}

/// Goes on once all values were replied, or were not.
pub fn after_batch(
    rid: i32,
    plugin_slot: i32,
    outcome: Result<Reply, WaitError>,
    state: &ArdourState,
) -> (r: Action)
    requires
        state.wf(),
    ensures
        batch_received(rid, plugin_slot, outcome, state@, r),
{
    match outcome {
        Ok(Reply::Batch(values)) => match match_batch(
            state,
            rid,
            one_less(plugin_slot),
            &values,
        ) {
            Some(parameters) => Action::Finish(
                ToolReply::Document(
                    Document::PluginParameters { strip_id: rid, plugin_slot, parameters },
                ),
            ),
            None => read_reported_parameters(rid, plugin_slot, state),
        },
        _ => read_reported_parameters(rid, plugin_slot, state),
    }
}

/// Replies the parameters that were reported.
pub fn after_parameters_time(rid: i32, plugin_slot: i32, state: &ArdourState) -> (r: Action)
    requires
        state.wf(),
    ensures
        finishes(
            r,
            parameters_reply(rid, plugin_slot, known_parameters(state@, rid, plugin_slot)),
        ),
{
    Action::Finish(
        ToolReply::Document(
            Document::PluginParameters {
                strip_id: rid,
                plugin_slot,
                parameters: find_parameters(state, rid, plugin_slot),
            },
        ),
    )
}

} // verus!
