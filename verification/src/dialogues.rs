//! What tools that talk with the workstation ask for, what they wait for, and what they
//! make of the replies.

use crate::action::{
    Action, AfterAwait, AfterListing, AfterSelection, AfterSend, AfterSleep, Listing, MeterRun,
    Number, OutputRun, ParameterChange, Selection, SendFailure,
};
use crate::addresses::lemma_addresses;
use crate::feedback::{delivered, value_at};
use crate::hearing::{lemma_arguments, lemma_values_reach_request};
use crate::meters::{
    all_parameters, get_meter_readings_tool, is_meter, is_readable, last_reading, lemma_combined,
    list_strip_plugins_tool, meters_on, names_meter, value_under,
};
use crate::osc::{ArgView, MessageView};
use crate::pending::{LoopRange, Reply, ReplyView, WaitError, Waiting};
use crate::plugins::{
    entries_view, has_enabled_slot, lemma_no_place, lemma_selected_by_place, lemma_set_by_place,
    slot_at, EntryView,
};
use crate::readings::{
    controls, has_value, known_parameters, lemma_batch, lemma_controls_of,
    lemma_matched_outputs, lemma_outputs_from_batch, lemma_outputs_of, listed_plugins_on,
    matched_outputs,
};
use crate::reply::{listed_plugins_view, meters_view, readings_view, Document, Meter, ToolReply};
use crate::selection::{
    get_plugin_parameters_tool, select_plugin_tool, select_strip_tool,
    set_strip_plugin_parameter_tool,
};
use crate::sending::{refuses, sends};
use crate::single::{single_of_int, whole, Single};
use crate::slots::{after, before, lemma_counted_back};
use crate::state::{
    known_strips, parameters_view, ArdourState, ParameterView, PlaybackStatus, PluginParameter,
    StateView,
};
use crate::table::ParamKey;
use crate::text::{decimal_text, has_text, has_text_at, nat_text};
use crate::tools::{goes_on_after_await, goes_on_after_send, goes_on_after_sleep, state_after_send};
use crate::transport::{
    get_loop_range_tool, get_session_sample_rate_tool, get_transport_state_tool,
    request_strip_list_tool,
};
use vstd::arithmetic::power2::pow2;
use vstd::prelude::*;
use vstd::string::*;

verus! {

/// Whether `next` follows once the message of `r` was sent, or could not be.
pub open spec fn after_sending(
    r: Action,
    outcome: Result<(), SendFailure>,
    s: StateView,
    next: Action,
) -> bool {
    r matches Action::Send(_, step) && goes_on_after_send(step, outcome, s, next)
}

/// Whether `next` follows once the time of `r` has passed.
pub open spec fn after_a_pause(r: Action, s: StateView, next: Action) -> bool {
    r matches Action::Sleep(_, step) && goes_on_after_sleep(step, s, next)
}

/// Whether `next` follows once what `r` waits for came, or did not.
pub open spec fn after_a_reply(
    r: Action,
    outcome: Result<Reply, WaitError>,
    s: StateView,
    next: Action,
) -> bool {
    r matches Action::Await(_, _, step) && goes_on_after_await(step, outcome, s, next)
}

/// Whether a tool lets this much time pass.
pub open spec fn pauses(r: Action, ms: u64) -> bool {
    r matches Action::Sleep(t, _) && t == ms
}

/// Whether a tool waits for this, at most so long.
pub open spec fn awaits(r: Action, w: Waiting, ms: u64) -> bool {
    r matches Action::Await(x, t, _) && x == w && t == ms
}

/// Whether a tool is done and replies this.
pub open spec fn succeeds(r: Action, text: Seq<char>) -> bool {
    r matches Action::Finish(ToolReply::Success(t)) && t@ == text
}

/// The parameters of a plugin are asked for under the numbers of the strip and of the slot,
/// and what the workstation replies about that strip and that slot reaches the request that
/// waits: each value, in its order.
pub proof fn lemma_parameters_are_asked_for<W>(
    rid: i32,
    plugin_slot: i32,
    s: StateView,
    first: Action,
    second: Action,
    p: Map<Waiting, W>,
    request: W,
    args: Seq<ArgView>,
)
    requires
        call_ensures(get_plugin_parameters_tool, (rid, plugin_slot), first),
        after_sending(first, Ok(()), s, second),
        args.len() >= 3,
        args[0] == ArgView::Int(rid),
        args[1] == ArgView::Int(plugin_slot),
        args[2] is Int,
        forall|j: int| 3 <= j < args.len() ==> (#[trigger] args[j]) is Float,
    ensures
        sends(
            first,
            "/strip/plugin/parameter/get_all"@,
            seq![ArgView::Int(rid), ArgView::Int(plugin_slot)],
        ),
        awaits(second, Waiting::Batch { ssid: rid, slot: before(plugin_slot) }, 1200),
        delivered(
            p.insert(second->Await_0, request),
            MessageView { addr: "/strip/plugin/parameter/values"@, args },
        ) matches Some((to, ReplyView::Batch(values))) && to == request && values.len()
            == args.len() - 3 && forall|j: int|
            0 <= j < values.len() ==> args[3 + j] == ArgView::Float(#[trigger] values[j]),
{
    lemma_arguments(args, 0);
    lemma_arguments(args, 1);
    lemma_arguments(args, 2);
    assert forall|j: int| 3 <= j < args.len() implies (#[trigger] value_at(args, j)) is Some by {
        lemma_arguments(args, j);
        assert(args[j] is Float);
    }
    lemma_counted_back(plugin_slot);
    lemma_values_reach_request(s, p, args, rid, before(plugin_slot), request);
    let m = MessageView { addr: "/strip/plugin/parameter/values"@, args };
    let w = Waiting::Batch { ssid: rid, slot: before(plugin_slot) };
    match delivered(p.insert(w, request), m) {
        Some((to, ReplyView::Batch(values))) => {
            assert forall|j: int| 0 <= j < values.len() implies args[3 + j] == ArgView::Float(
                #[trigger] values[j],
            ) by {
                lemma_arguments(args, 3 + j);
                assert(args[3 + j] is Float);
            }
        },
        _ => {},
    }
}

/// The values of all parameters are replied as those of the inputs and outputs of that
/// plugin on that strip, by ascending number and none left out, each with its name.
pub proof fn lemma_parameters_are_shown(
    rid: i32,
    plugin_slot: i32,
    s: StateView,
    first: Action,
    second: Action,
    values: Vec<Single>,
    t: StateView,
    last: Action,
)
    requires
        call_ensures(get_plugin_parameters_tool, (rid, plugin_slot), first),
        after_sending(first, Ok(()), s, second),
        after_a_reply(second, Ok(Reply::Batch(values)), t, last),
        values@.len() <= controls(t, rid, before(plugin_slot)).len(),
    ensures
        last matches Action::Finish(
            ToolReply::Document(
                Document::PluginParameters { strip_id, plugin_slot: slot, parameters },
            ),
        ) && strip_id == rid && slot == plugin_slot && parameters@.len() == values@.len()
            && forall|i: int|
            0 <= i < values@.len() ==> {
                let k = ParamKey {
                    ssid: rid,
                    slot: before(plugin_slot),
                    param: (#[trigger] parameters@[i]).param_id,
                };
                &&& parameters@[i].value == values@[i]
                &&& 1 <= k.param <= 200
                &&& t.ports.contains_key(k) && (t.ports[k].is_input || t.ports[k].is_output)
                &&& t.names.contains_key(k) ==> parameters@[i].name@ == t.names[k]
                &&& !t.names.contains_key(k) ==> parameters@[i].name@ == "param_"@ + decimal_text(
                    k.param as int,
                )
            },
        forall|i: int, j: int|
            0 <= i < j < values@.len() ==> (#[trigger] shown_list(last)[i]).param_id < (
            #[trigger] shown_list(last)[j]).param_id,
{
    let slot = before(plugin_slot);
    let ids = controls(t, rid, slot);
    lemma_batch(t, rid, slot, values@);
    lemma_controls_of(t, rid, slot);
    let parameters = shown_vec(last);
    let view = parameters_view(parameters@);
    assert(view.len() == values@.len());
    assert forall|i: int| 0 <= i < values@.len() implies {
        let k = ParamKey { ssid: rid, slot, param: (#[trigger] parameters@[i]).param_id };
        &&& parameters@[i].value == values@[i]
        &&& 1 <= k.param <= 200
        &&& t.ports.contains_key(k) && (t.ports[k].is_input || t.ports[k].is_output)
        &&& t.names.contains_key(k) ==> parameters@[i].name@ == t.names[k]
        &&& !t.names.contains_key(k) ==> parameters@[i].name@ == "param_"@ + decimal_text(
            k.param as int,
        )
    } by {
        assert(view[i] == parameters@[i]@);
        assert(ids.contains(ids[i]));
    }
    assert forall|i: int, j: int| 0 <= i < j < values@.len() implies (
    #[trigger] shown_list(last)[i]).param_id < (#[trigger] shown_list(last)[j]).param_id by {
        assert(view[i] == parameters@[i]@ && view[j] == parameters@[j]@);
        assert(ids[i] < ids[j]);
    }
}

/// The parameters in a reply about those of a plugin.
pub open spec fn shown_vec(r: Action) -> Vec<PluginParameter> {
    r->Finish_0->Document_0->PluginParameters_parameters
}

/// What the parameters in a reply about those of a plugin say.
pub open spec fn shown_list(r: Action) -> Seq<ParameterView> {
    parameters_view(shown_vec(r)@)
}

/// Where the values of all parameters do not come, the plugin is selected, unless it is
/// already; then what was reported of it is replied.
pub proof fn lemma_parameters_by_selection(
    rid: i32,
    plugin_slot: i32,
    s: StateView,
    first: Action,
    second: Action,
    e: SendFailure,
    t: StateView,
    third: Action,
)
    requires
        call_ensures(get_plugin_parameters_tool, (rid, plugin_slot), first),
        after_sending(first, Err(e), s, second),
        s.selected_strip == Some(rid) && s.selected_slot == Some(plugin_slot) ==> after_a_pause(
            second,
            t,
            third,
        ),
    ensures
        s.selected_strip == Some(rid) && s.selected_slot == Some(plugin_slot) ==> {
            &&& pauses(second, 300)
            &&& third matches Action::Finish(
                ToolReply::Document(
                    Document::PluginParameters { strip_id, plugin_slot: slot, parameters },
                ),
            ) && strip_id == rid && slot == plugin_slot && parameters_view(parameters@)
                == known_parameters(t, rid, plugin_slot)
        },
        !(s.selected_strip == Some(rid) && s.selected_slot == Some(plugin_slot)) && plugin_slot > 0
            ==> sends(second, "/strip/plugin/list"@, seq![ArgView::Int(rid)]) && second->Send_1
            == AfterSend::SelectionListed(
            Selection { rid, plugin_slot, next: AfterSelection::ReadParameters },
        ),
        !(s.selected_strip == Some(rid) && s.selected_slot == Some(plugin_slot)) && plugin_slot
            <= 0 ==> refuses(second, "Invalid plugin_slot: must be a positive integer."@),
{
}

/// Where no reply with the values comes in time, it goes on as where they could not be
/// asked for.
pub proof fn lemma_parameters_without_reply(
    rid: i32,
    plugin_slot: i32,
    s: StateView,
    e: WaitError,
    f: SendFailure,
    failed: Action,
    r: Action,
)
    requires
        goes_on_after_await(AfterAwait::Batch { rid, plugin_slot }, Err(e), s, r),
        goes_on_after_send(AfterSend::BatchRequested { rid, plugin_slot }, Err(f), s, failed),
    ensures
        r is Sleep <==> failed is Sleep,
        r is Send <==> failed is Send,
        r is Send ==> r->Send_0@ == failed->Send_0@,
        r is Sleep ==> r == failed,
{
}

/// A strip is selected under its number; once that was sent, it is the selected one, and
/// no plugin on it is.
pub proof fn lemma_strip_is_selected(rid: i32, s: StateView, first: Action, second: Action)
    requires
        rid > 0,
        call_ensures(select_strip_tool, (rid, true), first),
        after_sending(first, Ok(()), s, second),
    ensures
        sends(first, "/strip/select"@, seq![ArgView::Int(rid), ArgView::Int(1)]),
        state_after_send(first->Send_1, Ok(()), s) == (StateView {
            selected_strip: Some(rid),
            selected_slot: None,
            ..s
        }),
        succeeds(second, "Strip "@ + decimal_text(rid as int) + " selected successfully."@),
{
}

/// A strip that is not to be selected is not, and one that cannot be is refused: nothing is
/// sent.
pub proof fn lemma_strip_is_not_selected(rid: i32, no: Action, yes: Action)
    requires
        call_ensures(select_strip_tool, (rid, false), no),
        call_ensures(select_strip_tool, (rid, true), yes),
    ensures
        succeeds(
            no,
            "Strip "@ + decimal_text(rid as int) + " not selected as select_state was false."@,
        ),
        rid <= 0 ==> refuses(
            yes,
            "Invalid rid: "@ + decimal_text(rid as int) + ". Must be a positive integer."@,
        ),
{
}

/// A plugin is selected in three messages: its strip is asked for its plugins, the strip is
/// selected, and then the plugin.
pub proof fn lemma_plugin_is_selected(
    rid: i32,
    plugin_slot: i32,
    s: StateView,
    first: Action,
    pause: Action,
    t: StateView,
    second: Action,
    u: StateView,
    third: Action,
)
    requires
        plugin_slot > 0,
        call_ensures(select_plugin_tool, (rid, plugin_slot), first),
        after_sending(first, Ok(()), s, pause),
        t.plugins.contains_key(rid) && t.plugins[rid].len() > 0,
        after_a_pause(pause, t, second),
        after_sending(second, Ok(()), u, third),
    ensures
        sends(first, "/strip/plugin/list"@, seq![ArgView::Int(rid)]),
        pauses(pause, 150),
        pause->Sleep_1 == (AfterSleep::SelectionListed {
            selection: Selection { rid, plugin_slot, next: AfterSelection::Reply },
            attempt: 1,
        }),
        sends(second, "/strip/select"@, seq![ArgView::Int(rid), ArgView::Int(1)]),
        state_after_send(second->Send_1, Ok(()), u) == (StateView {
            selected_strip: Some(rid),
            selected_slot: Some(plugin_slot),
            ..u
        }),
        third matches Action::Send(m, AfterSend::SelectionMade(c)) ==> c.rid == rid
            && c.plugin_slot == plugin_slot,
        !u.plugins.contains_key(rid) ==> sends(
            third,
            "/select/plugin"@,
            seq![ArgView::Float(single_of_int(plugin_slot))],
        ),
{
}

/// The plugin in a slot is selected by one more than how many enabled plugins are in lower
/// slots on its strip; one that is known and not enabled cannot be selected.
pub proof fn lemma_plugin_is_selected_by_place(
    selection: Selection,
    s: StateView,
    i: int,
    r: Action,
)
    requires
        selection.plugin_slot > 0,
        s.plugins.contains_key(selection.rid),
        s.plugins[selection.rid].len() < i32::MAX,
        0 <= i < s.plugins[selection.rid].len(),
        s.plugins[selection.rid][i].slot == selection.plugin_slot - 1,
        goes_on_after_send(AfterSend::SelectionStripSelected(selection), Ok(()), s, r),
    ensures
        s.plugins[selection.rid][i].enabled ==> sends(
            r,
            "/select/plugin"@,
            seq![
                ArgView::Float(
                    single_of_int(
                        (s.plugins[selection.rid].filter(
                            |e: EntryView| e.enabled && e.slot < selection.plugin_slot - 1,
                        ).len() + 1) as i32,
                    ),
                ),
            ],
        ),
        (forall|j: int|
            0 <= j < s.plugins[selection.rid].len() && (#[trigger] s.plugins[selection.rid][j]).slot
                == selection.plugin_slot - 1 ==> !s.plugins[selection.rid][j].enabled) ==> refuses(
            r,
            "Plugin slot "@ + decimal_text(selection.plugin_slot as int) + " on strip "@
                + decimal_text(selection.rid as int)
                + " is disabled or not found. Cannot select disabled plugins."@,
        ),
{
    let list = s.plugins[selection.rid];
    let slot = before(selection.plugin_slot);
    if list[i].enabled {
        lemma_selected_by_place(list, selection.plugin_slot, i);
    }
    assert(slot_at(list, slot, i));
    if forall|j: int|
        0 <= j < list.len() && (#[trigger] list[j]).slot == selection.plugin_slot - 1
            ==> !list[j].enabled {
        assert(!has_enabled_slot(list, slot)) by {
            assert forall|j: int| !(slot_at(list, slot, j) && list[j].enabled) by {
                if slot_at(list, slot, j) {
                    assert(list[j].slot == selection.plugin_slot - 1);
                }
            }
        }
    }
}

/// The list of plugins is waited for in four pauses at most before the strip is selected,
/// and not at all where it could not be asked for.
pub proof fn lemma_selection_does_not_wait_long(
    selection: Selection,
    attempt: u32,
    e: SendFailure,
    s: StateView,
    r: Action,
    unasked: Action,
)
    requires
        goes_on_after_sleep(AfterSleep::SelectionListed { selection, attempt }, s, r),
        goes_on_after_send(AfterSend::SelectionListed(selection), Err(e), s, unasked),
    ensures
        attempt >= 4 || (s.plugins.contains_key(selection.rid) && s.plugins[selection.rid].len()
            > 0) ==> sends(
            r,
            "/strip/select"@,
            seq![ArgView::Int(selection.rid), ArgView::Int(1)],
        ),
        attempt < 4 && !(s.plugins.contains_key(selection.rid) && s.plugins[selection.rid].len()
            > 0) ==> r == Action::Sleep(
            150,
            AfterSleep::SelectionListed { selection, attempt: (attempt + 1) as u32 },
        ),
        sends(unasked, "/strip/select"@, seq![ArgView::Int(selection.rid), ArgView::Int(1)]),
{
}

/// Once a plugin is selected, that is replied; where its parameters are to be read, they
/// are, after they had time to be reported.
pub proof fn lemma_selection_ends(
    rid: i32,
    plugin_slot: i32,
    s: StateView,
    e: SendFailure,
    sent: Action,
    replied: Action,
    unsent: Action,
    reading: Action,
    t: StateView,
    parameters: Action,
)
    requires
        ({
            let reply = Selection { rid, plugin_slot, next: AfterSelection::Reply };
            let read = Selection { rid, plugin_slot, next: AfterSelection::ReadParameters };
            &&& goes_on_after_send(AfterSend::SelectionMade(reply), Ok(()), s, sent)
            &&& after_a_pause(sent, s, replied)
            &&& goes_on_after_send(AfterSend::SelectionMade(reply), Err(e), s, unsent)
            &&& goes_on_after_sleep(AfterSleep::SelectionMade(read), s, reading)
            &&& after_a_pause(reading, t, parameters)
        }),
    ensures
        pauses(sent, 800),
        succeeds(
            replied,
            "Plugin on strip "@ + decimal_text(rid as int) + " slot "@ + decimal_text(
                plugin_slot as int,
            ) + " selected. Parameter feedback should arrive shortly."@,
        ),
        succeeds(
            unsent,
            "Strip "@ + decimal_text(rid as int)
                + " selected. Plugin selection command failed, but parameters may still arrive via feedback."@,
        ),
        pauses(reading, 1200),
        parameters matches Action::Finish(
            ToolReply::Document(
                Document::PluginParameters { strip_id, plugin_slot: slot, parameters: list },
            ),
        ) && strip_id == rid && slot == plugin_slot && parameters_view(list@) == known_parameters(
            t,
            rid,
            plugin_slot,
        ),
{
}

/// A parameter of a plugin is set by one message with the numbers of strip, slot and
/// parameter and the value, as they are given; what cannot be is refused.
pub proof fn lemma_parameter_is_set(
    rid: i32,
    plugin_slot: i32,
    param_id: i32,
    value: Number,
    s: StateView,
    first: Action,
    done: Action,
)
    requires
        call_ensures(set_strip_plugin_parameter_tool, (rid, plugin_slot, param_id, value), first),
        first is Send ==> after_sending(first, Ok(()), s, done),
    ensures
        plugin_slot > 0 && param_id > 0 && !value.value.nan() && 0 <= value.value.units()
            <= pow2(149) ==> {
            &&& sends(
                first,
                "/strip/plugin/parameter"@,
                seq![
                    ArgView::Int(rid),
                    ArgView::Int(plugin_slot),
                    ArgView::Int(param_id),
                    ArgView::Float(value.value),
                ],
            )
            &&& succeeds(
                done,
                "Strip "@ + decimal_text(rid as int) + " plugin slot "@ + decimal_text(
                    plugin_slot as int,
                ) + " parameter "@ + decimal_text(param_id as int) + " set to "@ + value.text@
                    + " (via /strip/plugin/parameter)."@,
            )
        },
        plugin_slot <= 0 ==> refuses(first, "Invalid plugin_slot: must be a positive integer."@),
        plugin_slot > 0 && param_id <= 0 ==> refuses(
            first,
            "Invalid param_id: must be a positive integer."@,
        ),
        plugin_slot > 0 && param_id > 0 && (value.value.nan() || value.value.units() < 0
            || value.value.units() > pow2(149)) ==> refuses(
            first,
            "Invalid value: must be between 0.0 and 1.0 (inclusive)."@,
        ),
{
    assert(whole(0) == 0) by (nonlinear_arith);
}

/// Where that message cannot be sent, the strip is selected, then the plugin, and then the
/// parameter of the selected plugin is set, by the same number and to the same value.
pub proof fn lemma_parameter_is_set_by_selection(
    change: ParameterChange,
    e: SendFailure,
    s: StateView,
    first: Action,
    second: Action,
    pause: Action,
    third: Action,
    done: Action,
)
    requires
        goes_on_after_send(AfterSend::ChangeTried(change), Err(e), s, first),
        after_sending(first, Ok(()), s, second),
        after_sending(second, Ok(()), s, pause),
        after_a_pause(pause, s, third),
        after_sending(third, Ok(()), s, done),
    ensures
        sends(first, "/strip/select"@, seq![ArgView::Int(change.rid), ArgView::Int(1)]),
        second matches Action::Send(m, _) && m@.addr == "/select/plugin"@ && m@.args.len() == 1,
        !s.plugins.contains_key(change.rid) ==> second->Send_0@.args[0] == ArgView::Float(
            single_of_int(change.plugin_slot),
        ),
        pauses(pause, 200),
        sends(
            third,
            "/select/plugin/parameter"@,
            seq![ArgView::Int(change.param_id), ArgView::Float(change.value.value)],
        ),
        succeeds(
            done,
            "Strip "@ + decimal_text(change.rid as int) + " plugin slot "@ + decimal_text(
                change.plugin_slot as int,
            ) + " parameter "@ + decimal_text(change.param_id as int) + " set to "@
                + change.value.text@ + " (via /select/plugin/parameter, visible index "@
                + decimal_text(change.param_id as int) + ")."@,
        ),
{
}

/// For a change of a parameter, the plugin is selected by its place among the enabled ones
/// as they are listed for its strip.
pub proof fn lemma_change_selects_by_place(change: ParameterChange, s: StateView, i: int, r: Action)
    requires
        change.plugin_slot > 0,
        s.plugins.contains_key(change.rid),
        s.plugins[change.rid].len() < i32::MAX,
        0 <= i < s.plugins[change.rid].len(),
        s.plugins[change.rid][i].enabled,
        s.plugins[change.rid][i].slot == change.plugin_slot - 1,
        forall|j: int|
            0 <= j < i ==> !((#[trigger] s.plugins[change.rid][j]).enabled
                && s.plugins[change.rid][j].slot == change.plugin_slot - 1),
        goes_on_after_send(AfterSend::ChangeStripSelected(change), Ok(()), s, r),
    ensures
        sends(
            r,
            "/select/plugin"@,
            seq![
                ArgView::Float(
                    single_of_int(
                        (s.plugins[change.rid].take(i).filter(|e: EntryView| e.enabled).len()
                            + 1) as i32,
                    ),
                ),
            ],
        ),
{
    lemma_set_by_place(s.plugins[change.rid], change.plugin_slot, i);
}

/// The names by which meters are told.
pub open spec fn meter_names() -> Seq<Seq<char>> {
    seq![
        "True-Peak and RMS Meter (Stereo)"@,
        "True-Peak and RMS Meter"@,
        "EBU R128 Meter"@,
        "Stereo/Frequency Scope"@,
        "1/3 Octave Spectrum Display Stereo"@,
    ]
}

/// A plugin is a meter exactly where one of the five names is in its name, or its name in
/// one of them.
pub proof fn lemma_meters_by_name(name: Seq<char>)
    ensures
        is_meter(name) <==> exists|i: int|
            0 <= i < 5 && (has_text(name, #[trigger] meter_names()[i]) || has_text(
                meter_names()[i],
                name,
            )),
        forall|i: int| 0 <= i < 5 ==> is_meter(#[trigger] meter_names()[i]),
{
    let five = meter_names();
    assert forall|i: int| 0 <= i < 5 implies is_meter(#[trigger] five[i]) by {
        assert(five[i].subrange(0, five[i].len() as int) =~= five[i]);
        assert(has_text_at(five[i], five[i], 0));
    }
    if is_meter(name) {
        assert(has_text(name, five[0]) || has_text(five[0], name) || has_text(name, five[1])
            || has_text(five[1], name) || has_text(name, five[2]) || has_text(five[2], name)
            || has_text(name, five[3]) || has_text(five[3], name) || has_text(name, five[4])
            || has_text(five[4], name));
    }
}

/// A plugin whose name has one of the five names of meters in it is told to be a meter.
pub proof fn lemma_meter_is_told(name: &str, r: bool, i: int)
    requires
        call_ensures(names_meter, (name,), r),
        0 <= i < 5,
        has_text(name@, meter_names()[i]),
    ensures
        r,
{
    lemma_meters_by_name(name@);
}

/// Of the plugins on a strip those are read that are enabled and have the name of a meter,
/// and no others.
pub proof fn lemma_enabled_meters_are_read(s: StateView, rid: i32, e: EntryView)
    requires
        s.plugins.contains_key(rid),
    ensures
        meters_on(s, rid).contains(e) <==> s.plugins[rid].contains(e) && e.enabled && exists|i: int|
            0 <= i < 5 && (has_text(e.name, #[trigger] meter_names()[i]) || has_text(
                meter_names()[i],
                e.name,
            )),
{
    lemma_meters_by_name(e.name);
    let list = s.plugins[rid];
    let wanted = is_readable();
    if list.contains(e) && wanted(e) {
        let i = choose|i: int| 0 <= i < list.len() && list[i] == e;
        list.lemma_filter_contains(wanted, i);
    }
    if meters_on(s, rid).contains(e) {
        let j = choose|j: int| 0 <= j < list.filter(wanted).len() && list.filter(wanted)[j] == e;
        list.lemma_filter_pred(wanted, j);
        list.lemma_filter_contains_rev(wanted, e);
    }
}

/// Once the plugins on a strip are known, an enabled one with the name of a meter in its
/// name is among those that are read, whatever stands before it.
pub proof fn lemma_meter_is_read(rid: i32, attempt: u32, s: StateView, i: int, n: int, r: Action)
    requires
        s.plugins.contains_key(rid),
        0 <= i < s.plugins[rid].len(),
        s.plugins[rid][i].enabled,
        0 <= n < 5,
        has_text(s.plugins[rid][i].name, meter_names()[n]),
        goes_on_after_sleep(
            AfterSleep::PluginsRequested {
                listing: Listing { rid, next: AfterListing::ReadMeters },
                attempt,
            },
            s,
            r,
        ),
    ensures
        r matches Action::Send(m, AfterSend::MeterDescribed(run)) && m@.addr
            == "/strip/plugin/descriptor"@ && m@.args == seq![
            ArgView::Int(rid),
            ArgView::Int(after(run.current.slot)),
        ] && run.rid == rid && run.found@.len() == 0 && (run.current@ == s.plugins[rid][i]
            || entries_view(run.left@).contains(s.plugins[rid][i])),
{
    let e = s.plugins[rid][i];
    assert(s.plugins[rid].contains(e));
    lemma_enabled_meters_are_read(s, rid, e);
    let all = meters_on(s, rid);
    let j = choose|j: int| 0 <= j < all.len() && all[j] == e;
    match r {
        Action::Send(m, AfterSend::MeterDescribed(run)) => {
            assert(meters_view(run.found@).len() == run.found@.len());
            if j > 0 {
                assert(entries_view(run.left@)[j - 1] == e);
            }
        },
        _ => {},
    }
}

/// Whether a plugin of this name is told to be a meter by one of the five names.
pub open spec fn told_by_name(name: Seq<char>) -> bool {
    exists|i: int|
        0 <= i < 5 && (has_text(name, #[trigger] meter_names()[i]) || has_text(
            meter_names()[i],
            name,
        ))
}

/// The meters on a strip are read in the order in which its plugins are listed, each once,
/// and no other plugins are.
pub proof fn lemma_meters_are_read_in_order(rid: i32, attempt: u32, s: StateView, r: Action)
    requires
        s.plugins.contains_key(rid),
        s.plugins[rid].len() > 0,
        goes_on_after_sleep(
            AfterSleep::PluginsRequested {
                listing: Listing { rid, next: AfterListing::ReadMeters },
                attempt,
            },
            s,
            r,
        ),
    ensures
        ({
            let meters = s.plugins[rid].filter(|e: EntryView| e.enabled && told_by_name(e.name));
            &&& meters.len() > 0 ==> (r matches Action::Send(_, AfterSend::MeterDescribed(run))
                && seq![run.current@] + entries_view(run.left@) == meters)
            &&& meters.len() == 0 ==> sends(r, "/transport_frame"@, Seq::empty())
        }),
{
    let wanted = |e: EntryView| e.enabled && told_by_name(e.name);
    assert forall|e: EntryView| #[trigger] is_readable()(e) == wanted(e) by {
        lemma_meters_by_name(e.name);
    }
    assert(is_readable() =~= wanted);
    let meters = s.plugins[rid].filter(wanted);
    if meters.len() > 0 {
        let run = r->Send_1->MeterDescribed_0;
        assert(seq![run.current@] + entries_view(run.left@) =~= meters);
    }
}

/// Both tools that need the plugins on a strip ask for those of that strip, and wait for
/// them in five pauses at most.
pub proof fn lemma_plugins_are_asked_for(
    rid: i32,
    list: Action,
    read: Action,
    outcome: Result<(), SendFailure>,
    s: StateView,
    pause: Action,
    attempt: u32,
    listing: Listing,
    again: Action,
)
    requires
        call_ensures(list_strip_plugins_tool, (rid,), list),
        call_ensures(get_meter_readings_tool, (rid,), read),
        rid > 0 ==> after_sending(list, outcome, s, pause),
        goes_on_after_sleep(AfterSleep::PluginsRequested { listing, attempt }, s, again),
    ensures
        rid > 0 ==> sends(list, "/strip/plugin/list"@, seq![ArgView::Int(rid)]) && sends(
            read,
            "/strip/plugin/list"@,
            seq![ArgView::Int(rid)],
        ),
        rid > 0 ==> pauses(pause, 200) && pause->Sleep_1 == (AfterSleep::PluginsRequested {
            listing: Listing { rid, next: AfterListing::Reply },
            attempt: 1,
        }),
        rid > 0 ==> read->Send_1 == AfterSend::PluginsRequested(
            Listing { rid, next: AfterListing::ReadMeters },
        ),
        rid <= 0 ==> refuses(
            list,
            "Invalid rid: "@ + decimal_text(rid as int) + ". Must be a positive integer."@,
        ) && refuses(
            read,
            "Invalid rid: "@ + decimal_text(rid as int) + ". Must be a positive integer."@,
        ),
        again is Sleep <==> attempt < 5 && !(s.plugins.contains_key(listing.rid)
            && s.plugins[listing.rid].len() > 0),
        again is Sleep ==> again == Action::Sleep(
            200,
            AfterSleep::PluginsRequested { listing, attempt: (attempt + 1) as u32 },
        ),
{
}

/// The plugins on a strip are replied under its number, with all that is listed of them.
pub proof fn lemma_plugins_are_replied(
    rid: i32,
    first: Action,
    outcome: Result<(), SendFailure>,
    s: StateView,
    pause: Action,
    t: StateView,
    r: Action,
)
    requires
        rid > 0,
        call_ensures(list_strip_plugins_tool, (rid,), first),
        after_sending(first, outcome, s, pause),
        t.plugins.contains_key(rid) && t.plugins[rid].len() > 0,
        after_a_pause(pause, t, r),
    ensures
        r matches Action::Finish(
            ToolReply::Document(Document::StripPlugins { strip_id, plugins }),
        ) && strip_id == rid && listed_plugins_view(plugins@) == listed_plugins_on(t, rid),
{
}

/// A meter is read in this way: what its parameters are is asked for, then the values of
/// all of them, each time for the strip and the slot of the meter, and each time what is
/// waited for is about just these.
pub proof fn lemma_meter_is_asked_for(
    run: MeterRun,
    outcome: Result<(), SendFailure>,
    s: StateView,
    wait: Action,
    reply: Result<Reply, WaitError>,
    t: StateView,
    ask: Action,
    u: StateView,
    values: Action,
)
    requires
        goes_on_after_send(AfterSend::MeterDescribed(run), outcome, s, wait),
        after_a_reply(wait, reply, t, ask),
        after_sending(ask, Ok(()), u, values),
    ensures
        awaits(wait, Waiting::Descriptor { ssid: run.rid, slot: run.current.slot }, 1500),
        sends(
            ask,
            "/strip/plugin/parameter/get_all"@,
            seq![ArgView::Int(run.rid), ArgView::Int(after(run.current.slot))],
        ),
        awaits(values, Waiting::Batch { ssid: run.rid, slot: run.current.slot }, 1200),
{
}

/// What is asked of a meter is replied to those who ask: the end of its description, for
/// its strip and its slot counted from one, reaches the request that waits for it.
pub proof fn lemma_meter_description_arrives<W>(
    run: MeterRun,
    s: StateView,
    wait: Action,
    p: Map<Waiting, W>,
    request: W,
)
    requires
        goes_on_after_send(AfterSend::MeterDescribed(run), Ok(()), s, wait),
    ensures
        delivered(
            p.insert(wait->Await_0, request),
            MessageView {
                addr: "/strip/plugin/descriptor_end"@,
                args: seq![ArgView::Int(run.rid), ArgView::Int(after(run.current.slot))],
            },
        ) == Some((request, ReplyView::Described)),
{
    lemma_addresses();
    lemma_counted_back(run.current.slot);
}

/// Only parameters that are described as outputs of the meter are read from it.
pub proof fn lemma_outputs_are_read(
    run: MeterRun,
    reply: Result<Reply, WaitError>,
    s: StateView,
    r: Action,
    param: i32,
)
    requires
        s.coherent(),
        goes_on_after_await(AfterAwait::MeterDescribed(run), reply, s, r),
    ensures
        r matches Action::Send(_, AfterSend::MeterBatchRequested(c, outputs)) && c == run && (
        outputs@.contains(param) <==> s.ports.contains_key(
            ParamKey { ssid: run.rid, slot: run.current.slot, param },
        ) && s.ports[ParamKey { ssid: run.rid, slot: run.current.slot, param }].is_output),
{
    lemma_outputs_of(s, run.rid, run.current.slot, param);
}

/// Where the values of all parameters of a meter do not come, its outputs are asked for one
/// by one, each for the strip and the slot of the meter, and each is waited for.
pub proof fn lemma_outputs_one_by_one(
    run: MeterRun,
    outputs: Vec<i32>,
    e: WaitError,
    s: StateView,
    ask: Action,
    outcome: Result<(), SendFailure>,
    t: StateView,
    wait: Action,
)
    requires
        outputs@.len() > 0,
        goes_on_after_await(AfterAwait::MeterBatch(run, outputs), Err(e), s, ask),
        after_sending(ask, outcome, t, wait),
    ensures
        sends(
            ask,
            "/strip/plugin/parameter/get"@,
            seq![
                ArgView::Int(run.rid),
                ArgView::Int(after(run.current.slot)),
                ArgView::Int(outputs@[0]),
            ],
        ),
        awaits(
            wait,
            Waiting::Value { ssid: run.rid, slot: run.current.slot, param: outputs@[0] },
            800,
        ),
{
}

/// The name under which a parameter is read: its own, or one made of its number.
pub open spec fn read_name(s: StateView, k: ParamKey) -> Seq<char> {
    if s.names.contains_key(k) {
        s.names[k]
    } else {
        "param_"@ + decimal_text(k.param as int)
    }
}

/// The value of an output that came is added to those that were read, under its number and
/// its name; one that did not come is left out. Then the next one is asked for.
pub proof fn lemma_output_is_added(
    output: OutputRun,
    v: Single,
    e: WaitError,
    s: StateView,
    came: Action,
    missing: Action,
)
    requires
        output.left@.len() > 0,
        goes_on_after_await(AfterAwait::MeterOutput(output), Ok(Reply::Value(v)), s, came),
        goes_on_after_await(AfterAwait::MeterOutput(output), Err(e), s, missing),
    ensures
        came matches Action::Send(m, AfterSend::MeterOutputRequested(o)) && o.param
            == output.left@[0] && o.left@ == output.left@.drop_first() && o.parameters@.len()
            == output.parameters@.len() + 1 && o.parameters@.last().param_id == output.param
            && o.parameters@.last().value == v && o.parameters@.last().name@ == read_name(
            s,
            ParamKey { ssid: output.run.rid, slot: output.run.current.slot, param: output.param },
        ) && parameters_view(o.parameters@).drop_last()
            == parameters_view(output.parameters@),
        missing matches Action::Send(m, AfterSend::MeterOutputRequested(o)) && o.param
            == output.left@[0] && parameters_view(o.parameters@) == parameters_view(
            output.parameters@,
        ),
        came->Send_0@ == missing->Send_0@,
{
    match came {
        Action::Send(m, AfterSend::MeterOutputRequested(o)) => {
            let view = parameters_view(o.parameters@);
            assert(view.len() == o.parameters@.len());
            assert(view.last() == o.parameters@.last()@);
            assert(view.drop_last() =~= parameters_view(output.parameters@));
        },
        _ => {},
    }
}

/// The meters that were read when a tool reads the next one, or asks for the position of
/// the playhead.
pub open spec fn noted(r: Action) -> Seq<Meter> {
    match r {
        Action::Send(_, AfterSend::MeterDescribed(run)) => run.found@,
        Action::Send(_, AfterSend::MeterFrameRequested { rid, found }) => found@,
        _ => Seq::empty(),
    }
}

/// When all outputs of a meter were read, it is noted with its name, its slot counted from
/// one, and its readings, behind the meters before it; the next one is read, or the
/// position of the playhead is asked for.
pub proof fn lemma_meter_is_noted(
    output: OutputRun,
    e: WaitError,
    s: StateView,
    r: Action,
)
    requires
        output.left@.len() == 0,
        goes_on_after_await(AfterAwait::MeterOutput(output), Err(e), s, r),
    ensures
        ({
            let run = output.run;
            let found = noted(r);
            &&& found.len() == run.found@.len() + 1
            &&& meters_view(found).drop_last() == meters_view(run.found@)
            &&& found.last().plugin_name@ == run.current.name@
            &&& found.last().slot == after(run.current.slot)
            &&& found.last().enabled == run.current.enabled
            &&& parameters_view(found.last().parameters@) == parameters_view(output.parameters@)
            &&& run.left@.len() > 0 ==> (r matches Action::Send(m, AfterSend::MeterDescribed(next))
                && next.current@ == run.left@[0]@ && m@.args == seq![
                ArgView::Int(run.rid),
                ArgView::Int(after(run.left@[0].slot)),
            ])
            &&& run.left@.len() == 0 ==> sends(r, "/transport_frame"@, Seq::empty())
        }),
{
    let run = output.run;
    let left = entries_view(run.left@);
    assert(left.len() == run.left@.len());
    if run.left@.len() > 0 {
        assert(left[0] == run.left@[0]@);
    }
    let found = noted(r);
    let view = meters_view(found);
    assert(view.len() == found.len());
    assert(view.last() == found.last()@);
    assert(view.drop_last() =~= meters_view(run.found@));
}

/// The readings of the meters are replied under the number of the strip, together with the
/// position of the playhead, for which some time is given to be reported; under each name
/// the last finite reading stands.
pub proof fn lemma_meters_are_replied(
    rid: i32,
    found: Vec<Meter>,
    s: StateView,
    pause: Action,
    t: StateView,
    r: Action,
    name: Seq<char>,
)
    requires
        goes_on_after_send(AfterSend::MeterFrameRequested { rid, found }, Ok(()), s, pause),
        after_a_pause(pause, t, r),
    ensures
        pauses(pause, 50),
        r matches Action::Finish(
            ToolReply::Document(
                Document::MeterReadings { strip_id, meters_found, combined_data, transport_frame },
            ),
        ) && strip_id == rid && meters_view(meters_found@) == meters_view(found@)
            && transport_frame == t.frame && value_under(readings_view(combined_data@), name)
            == last_reading(all_parameters(meters_view(found@)), name),
{
    lemma_combined(meters_view(found@), name);
}

/// What the transport does is replied at once where it is known; where it is not, the
/// workstation is asked, and what is known after a while is replied.
pub proof fn lemma_transport_is_told(
    state: &ArdourState,
    first: Action,
    s: StateView,
    pause: Action,
    t: StateView,
    r: Action,
)
    requires
        call_ensures(get_transport_state_tool, (state,), first),
        first is Send ==> after_sending(first, Ok(()), s, pause) && after_a_pause(pause, t, r),
    ensures
        state@.playback == PlaybackStatus::Playing ==> transport_told(
            first,
            "Playing"@,
            state@.frame,
        ),
        state@.playback == PlaybackStatus::Stopped ==> transport_told(
            first,
            "Stopped"@,
            state@.frame,
        ),
        state@.playback == PlaybackStatus::Unknown ==> {
            &&& sends(first, "/transport_frame"@, Seq::empty())
            &&& pauses(pause, 100)
            &&& t.playback == PlaybackStatus::Playing ==> transport_told(
                r,
                "Playing"@,
                state@.frame,
            )
            &&& t.playback == PlaybackStatus::Stopped ==> transport_told(
                r,
                "Stopped"@,
                state@.frame,
            )
            &&& t.playback == PlaybackStatus::Unknown ==> transport_told(
                r,
                "Unknown"@,
                state@.frame,
            )
        },
{
}

/// Whether a tool replies that the transport does this, with the playhead there.
pub open spec fn transport_told(r: Action, status: Seq<char>, frame: Option<i64>) -> bool {
    r matches Action::Finish(
        ToolReply::Document(Document::TransportState { status: told, position }),
    ) && told@ == status && match frame {
        Some(n) => position@ == decimal_text(n as int),
        None => position@ == "Unknown"@,
    }
}

/// Where the workstation cannot be asked, that nobody listens is an error, and any other
/// reason leaves the transport unknown.
pub proof fn lemma_transport_cannot_be_asked(
    state: &ArdourState,
    first: Action,
    e: SendFailure,
    s: StateView,
    r: Action,
)
    requires
        state@.playback == PlaybackStatus::Unknown,
        call_ensures(get_transport_state_tool, (state,), first),
        after_sending(first, Err(e), s, r),
    ensures
        has_text(e.text@, "Connection refused"@) || has_text(e.text@, "os error 61"@) ==> refuses(
            r,
            "OSC connection to Ardour lost. Ardour may have crashed or OSC server stopped."@,
        ),
        !has_text(e.text@, "Connection refused"@) && !has_text(e.text@, "os error 61"@)
            ==> transport_told(r, "Unknown"@, state@.frame),
{
}

/// The sample rate is asked for together with the port on which the reply is received; what
/// is replied is told, and 48000 where nothing is.
pub proof fn lemma_sample_rate_is_told(
    first: Action,
    s: StateView,
    wait: Action,
    rate: i32,
    e: WaitError,
    f: SendFailure,
    told: Action,
    missing: Action,
    unasked: Action,
)
    requires
        call_ensures(get_session_sample_rate_tool, (), first),
        after_sending(first, Ok(()), s, wait),
        after_a_reply(wait, Ok(Reply::SampleRate(rate)), s, told),
        after_a_reply(wait, Err(e), s, missing),
        after_sending(first, Err(f), s, unasked),
    ensures
        sends(first, "/mixpilot/get_sample_rate"@, seq![ArgView::Int(9099)]),
        awaits(wait, Waiting::SampleRate, 1000),
        told matches Action::Finish(ToolReply::Document(Document::SampleRate(n))) && n == rate,
        missing matches Action::Finish(ToolReply::Document(Document::SampleRate(n))) && n == 48000,
        unasked matches Action::Finish(ToolReply::Document(Document::SampleRate(n))) && n == 48000,
{
}

/// The loop range is asked for together with the port on which the reply is received; what
/// is replied is told, and that there is none where nothing is.
pub proof fn lemma_loop_range_is_told(
    first: Action,
    s: StateView,
    wait: Action,
    range: LoopRange,
    e: WaitError,
    f: SendFailure,
    told: Action,
    none: Action,
    missing: Action,
    unasked: Action,
)
    requires
        call_ensures(get_loop_range_tool, (), first),
        after_sending(first, Ok(()), s, wait),
        after_a_reply(wait, Ok(Reply::LoopRange(Some(range))), s, told),
        after_a_reply(wait, Ok(Reply::LoopRange(None)), s, none),
        after_a_reply(wait, Err(e), s, missing),
        after_sending(first, Err(f), s, unasked),
    ensures
        sends(first, "/mixpilot/get_loop_range"@, seq![ArgView::Int(9099)]),
        awaits(wait, Waiting::LoopRange, 1000),
        told matches Action::Finish(ToolReply::Document(Document::LoopRange(r))) && r == range,
        succeeds(none, "null"@),
        succeeds(missing, "null"@),
        succeeds(unasked, "null"@),
{
}

/// The list of all strips is asked for, and after a while it is told how many are known.
pub proof fn lemma_strips_are_counted(
    first: Action,
    s: StateView,
    pause: Action,
    t: StateView,
    told: Action,
    e: SendFailure,
    unasked: Action,
)
    requires
        call_ensures(request_strip_list_tool, (), first),
        after_sending(first, Ok(()), s, pause),
        after_a_pause(pause, t, told),
        after_sending(first, Err(e), s, unasked),
    ensures
        sends(first, "/strip/list"@, Seq::empty()),
        pauses(pause, 500),
        succeeds(
            told,
            "Strip list requested from Ardour. Currently have "@ + nat_text(
                known_strips(t.strips).len(),
            ) + " strips in cache."@,
        ),
        refuses(unasked, "Failed to send /strip/list request: "@ + e.text@),
{
}

/// A plugin that is not listed for its strip is selected by its slot, and so is one on a
/// strip of which no plugins are known; a change of a parameter does the same, and also for
/// a plugin that is not enabled.
pub proof fn lemma_unlisted_plugin_is_selected_by_slot(
    selection: Selection,
    change: ParameterChange,
    s: StateView,
    selected: Action,
    changed: Action,
)
    requires
        goes_on_after_send(AfterSend::SelectionStripSelected(selection), Ok(()), s, selected),
        goes_on_after_send(AfterSend::ChangeStripSelected(change), Ok(()), s, changed),
    ensures
        !s.plugins.contains_key(selection.rid) || (forall|j: int|
            0 <= j < s.plugins[selection.rid].len() ==> (
            #[trigger] s.plugins[selection.rid][j]).slot != before(selection.plugin_slot)) ==> sends(
            selected,
            "/select/plugin"@,
            seq![ArgView::Float(single_of_int(selection.plugin_slot))],
        ),
        !s.plugins.contains_key(change.rid) || (forall|j: int|
            0 <= j < s.plugins[change.rid].len() ==> (#[trigger] s.plugins[change.rid][j]).slot
                != before(change.plugin_slot) || !s.plugins[change.rid][j].enabled) ==> sends(
            changed,
            "/select/plugin"@,
            seq![ArgView::Float(single_of_int(change.plugin_slot))],
        ),
{
    if s.plugins.contains_key(change.rid) {
        let list = s.plugins[change.rid];
        if forall|j: int|
            0 <= j < list.len() ==> (#[trigger] list[j]).slot != before(change.plugin_slot)
                || !list[j].enabled {
            lemma_no_place(list, before(change.plugin_slot));
        }
    }
}

/// What is replied where a strip cannot be selected, or the plugin or the parameter behind
/// it; what is known does not change.
pub proof fn lemma_selection_fails(
    rid: i32,
    selection: Selection,
    change: ParameterChange,
    e: SendFailure,
    s: StateView,
    strip: Action,
    selected: Action,
    change_strip: Action,
    change_plugin: Action,
    sent: Action,
    unsent: Action,
)
    requires
        goes_on_after_send(AfterSend::StripSelected { rid }, Err(e), s, strip),
        goes_on_after_send(AfterSend::SelectionStripSelected(selection), Err(e), s, selected),
        goes_on_after_send(AfterSend::ChangeStripSelected(change), Err(e), s, change_strip),
        goes_on_after_send(AfterSend::ChangePluginSelected(change), Err(e), s, change_plugin),
        goes_on_after_sleep(AfterSleep::ChangePluginSelected(change), s, sent),
        after_sending(sent, Err(e), s, unsent),
    ensures
        refuses(strip, "OSC send error for /strip/select: "@ + e.text@),
        refuses(
            selected,
            "Failed to select strip "@ + decimal_text(selection.rid as int) + ": "@ + e.text@,
        ),
        refuses(change_strip, "Failed to set parameter: strip selection failed: "@ + e.text@),
        refuses(
            change_plugin,
            "Failed to set parameter: /strip/plugin/parameter failed and fallback plugin selection failed: "@
                + e.text@,
        ),
        refuses(
            unsent,
            "Failed to set parameter via /select/plugin/parameter: "@ + e.text@ + (". Parameter "@
                + decimal_text(change.param_id as int) + " may not be controllable via OSC."@),
        ),
        state_after_send(AfterSend::StripSelected { rid }, Err(e), s) == s,
        state_after_send(AfterSend::SelectionStripSelected(selection), Err(e), s) == s,
{
    reveal_strlit("OSC send error for ");
    reveal_strlit("/strip/select");
    reveal_strlit(": ");
    reveal_strlit("OSC send error for /strip/select: ");
    assert("OSC send error for "@ + "/strip/select"@ + ": "@
        =~= "OSC send error for /strip/select: "@);
}

/// Where more values come than the plugin has inputs and outputs, they are not taken: it
/// goes on as where none come.
pub proof fn lemma_too_many_values(
    rid: i32,
    plugin_slot: i32,
    values: Vec<Single>,
    e: WaitError,
    s: StateView,
    r: Action,
    without: Action,
)
    requires
        values@.len() > controls(s, rid, before(plugin_slot)).len(),
        goes_on_after_await(
            AfterAwait::Batch { rid, plugin_slot },
            Ok(Reply::Batch(values)),
            s,
            r,
        ),
        goes_on_after_await(AfterAwait::Batch { rid, plugin_slot }, Err(e), s, without),
    ensures
        r is Finish <==> without is Finish,
        r is Sleep ==> r == without,
        r is Send ==> without is Send && r->Send_0@ == without->Send_0@,
        !(r is Await),
{
    lemma_batch(s, rid, before(plugin_slot), values@);
}

/// Where the values of all parameters of a meter come, and its outputs are among them, the
/// meter is noted with these: each output under its number, with the value in its place.
pub proof fn lemma_meter_values_are_noted(
    run: MeterRun,
    outputs: Vec<i32>,
    values: Vec<Single>,
    s: StateView,
    r: Action,
)
    requires
        outputs@.no_duplicates(),
        values@.len() <= controls(s, run.rid, run.current.slot).len(),
        forall|id: i32| #[trigger]
            outputs@.contains(id) ==> controls(s, run.rid, run.current.slot).take(
                values@.len() as int,
            ).contains(id),
        goes_on_after_await(
            AfterAwait::MeterBatch(run, outputs),
            Ok(Reply::Batch(values)),
            s,
            r,
        ),
    ensures
        ({
            let found = noted(r);
            let list = found.last().parameters@;
            &&& found.len() == run.found@.len() + 1
            &&& found.last().plugin_name@ == run.current.name@
            &&& found.last().slot == after(run.current.slot)
            &&& list.len() == outputs@.len()
            &&& forall|i: int|
                0 <= i < list.len() ==> outputs@.contains((#[trigger] list[i]).param_id) && has_value(
                    s,
                    run.rid,
                    run.current.slot,
                    values@,
                    list[i]@,
                )
        }),
{
    let (ssid, slot) = (run.rid, run.current.slot);
    lemma_outputs_from_batch(s, ssid, slot, outputs@, values@);
    lemma_matched_outputs(s, ssid, slot, outputs@, values@);
    let found = noted(r);
    let view = meters_view(found);
    assert(view.len() == found.len());
    assert(view.last() == found.last()@);
    let list = found.last().parameters@;
    let shown = parameters_view(list);
    assert(shown == matched_outputs(s, ssid, slot, outputs@, values@)->0);
    assert forall|i: int| 0 <= i < list.len() implies outputs@.contains(
        (#[trigger] list[i]).param_id,
    ) && has_value(s, ssid, slot, values@, list[i]@) by {
        assert(shown[i] == list[i]@);
    }
}

/// Where an output of a meter is not among the values that came, or where they could not be
/// asked for, the outputs are asked for one by one.
pub proof fn lemma_outputs_are_not_among_values(
    run: MeterRun,
    outputs: Vec<i32>,
    values: Vec<Single>,
    id: i32,
    e: SendFailure,
    s: StateView,
    r: Action,
    unsent: Action,
)
    requires
        outputs@.no_duplicates(),
        outputs@.contains(id),
        !controls(s, run.rid, run.current.slot).take(values@.len() as int).contains(id),
        goes_on_after_await(
            AfterAwait::MeterBatch(run, outputs),
            Ok(Reply::Batch(values)),
            s,
            r,
        ),
        goes_on_after_send(AfterSend::MeterBatchRequested(run, outputs), Err(e), s, unsent),
    ensures
        sends(
            r,
            "/strip/plugin/parameter/get"@,
            seq![
                ArgView::Int(run.rid),
                ArgView::Int(after(run.current.slot)),
                ArgView::Int(outputs@[0]),
            ],
        ),
        unsent is Send && unsent->Send_0@ == r->Send_0@,
{
    let (ssid, slot) = (run.rid, run.current.slot);
    lemma_batch(s, ssid, slot, values@);
    if values@.len() <= controls(s, ssid, slot).len() {
        lemma_outputs_from_batch(s, ssid, slot, outputs@, values@);
    }
}

/// On a strip without meters nothing is read but the position of the playhead, and where
/// that cannot be asked for, the readings are replied at once.
pub proof fn lemma_no_meters(
    rid: i32,
    attempt: u32,
    s: StateView,
    r: Action,
    found: Vec<Meter>,
    e: SendFailure,
    told: Action,
)
    requires
        attempt >= 5,
        forall|i: int|
            s.plugins.contains_key(rid) && 0 <= i < s.plugins[rid].len() ==> !(
            #[trigger] s.plugins[rid][i]).enabled,
        goes_on_after_sleep(
            AfterSleep::PluginsRequested {
                listing: Listing { rid, next: AfterListing::ReadMeters },
                attempt,
            },
            s,
            r,
        ),
        goes_on_after_send(AfterSend::MeterFrameRequested { rid, found }, Err(e), s, told),
    ensures
        sends(r, "/transport_frame"@, Seq::empty()),
        told matches Action::Finish(
            ToolReply::Document(
                Document::MeterReadings { strip_id, meters_found, combined_data, transport_frame },
            ),
        ) && strip_id == rid && meters_view(meters_found@) == meters_view(found@)
            && transport_frame == s.frame,
{
    let all = meters_on(s, rid);
    if all.len() > 0 {
        let list = s.plugins[rid];
        list.lemma_filter_pred(is_readable(), 0);
        list.lemma_filter_contains_rev(is_readable(), all[0]);
        let i = choose|i: int| 0 <= i < list.len() && list[i] == all[0];
        assert(!list[i].enabled);
    }
}

} // verus!
