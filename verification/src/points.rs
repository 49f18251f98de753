//! What is written into regions and as points of automation, and how it is read.

use crate::action::{Action, Number, SendFailure};
use crate::automation::{
    ascii_lowered, find_uri, get_plugin_uri_from_name, is_ascii_text, lemma_route_by_name,
    lowercase, read_automation_value_tool, route_number, set_region_parameter_tool, text_view,
    write_track_automation_tool,
};
use crate::commands::write_plugin_automation_tool;
use crate::dialogues::{after_a_pause, after_a_reply, after_sending, awaits, pauses, succeeds};
use crate::feedback::delivered;
use crate::hearing::{lemma_arguments, lemma_automation_reaches_request};
use crate::osc::{ArgView, MessageView};
use crate::pending::{Reply, ReplyView, WaitError, Waiting};
use crate::reply::{Document, ToolReply};
use crate::sending::{refuses, sends};
use crate::single::Single;
use crate::slots::lemma_counting;
use crate::state::{known_strips, ArdourState, StateView};
use crate::text::{decimal_text, has_text, lemma_decimal_reads_back, parsed_i32};
use vstd::prelude::*;
use vstd::string::*;

verus! {

/// Whether no number that fits into 32 bits is nearer to `n` than `m` is.
pub open spec fn nearest(n: i64, m: i32) -> bool {
    forall|k: i32| apart(n, m) <= #[trigger] apart(n, k)
}

/// How far apart two numbers are.
pub open spec fn apart(n: i64, m: i32) -> int {
    if m >= n {
        m - n
    } else {
        n - m
    }
}

/// What becomes of a plugin in a region where the caller gives its URI: the plugin with
/// exactly this URI is added, whatever its name is, and whether or not the name stands for
/// a plugin; route and range are those that are given.
pub proof fn lemma_given_uri_is_added(
    state: &ArdourState,
    route: String,
    route_id: i32,
    name: String,
    uri: String,
    param: String,
    value: Number,
    start: i64,
    end: i64,
    r: Action,
)
    requires
        route@ == decimal_text(route_id as int),
        call_ensures(
            set_region_parameter_tool,
            (state, route, name, Some(uri), param, value, start, end),
            r,
        ),
    ensures
        r matches Action::Send(m, _) && m@.addr == "/strip/region/add_plugin"@ && m@.args.len() == 4
            && m@.args[0] == ArgView::Int(route_id) && m@.args[3] == ArgView::Text(uri@) && (
        m@.args[1] matches ArgView::Int(from) && nearest(start, from)) && (
        m@.args[2] matches ArgView::Int(to) && nearest(end, to)),
        i32::MIN <= start <= i32::MAX ==> r->Send_0@.args[1] == ArgView::Int(start as i32),
        i32::MIN <= end <= i32::MAX ==> r->Send_0@.args[2] == ArgView::Int(end as i32),
{
    lemma_decimal_reads_back(route_id);
}

/// Two calls that give the same URI add the same plugin, though they name it differently;
/// two that give different ones never do.
pub proof fn lemma_names_do_not_change_the_uri(
    state: &ArdourState,
    route: String,
    route_id: i32,
    name: String,
    other_name: String,
    uri: String,
    other_uri: String,
    param: String,
    value: Number,
    start: i64,
    end: i64,
    r: Action,
    renamed: Action,
    elsewhere: Action,
)
    requires
        route@ == decimal_text(route_id as int),
        call_ensures(
            set_region_parameter_tool,
            (state, route, name, Some(uri), param, value, start, end),
            r,
        ),
        call_ensures(
            set_region_parameter_tool,
            (state, route, other_name, Some(uri), param, value, start, end),
            renamed,
        ),
        call_ensures(
            set_region_parameter_tool,
            (state, route, name, Some(other_uri), param, value, start, end),
            elsewhere,
        ),
        uri@ != other_uri@,
    ensures
        r is Send && renamed is Send && elsewhere is Send,
        r->Send_0@ == renamed->Send_0@,
        r->Send_0@.args[3] != elsewhere->Send_0@.args[3],
{
    lemma_decimal_reads_back(route_id);
}

/// Where no URI is given, the name is looked up: the plugin that it stands for is added,
/// and where it stands for none, nothing is.
pub proof fn lemma_name_is_looked_up(
    state: &ArdourState,
    route: String,
    route_id: i32,
    name: String,
    same_name: &str,
    found: Option<String>,
    param: String,
    value: Number,
    start: i64,
    end: i64,
    r: Action,
)
    requires
        route@ == decimal_text(route_id as int),
        same_name@ == name@,
        call_ensures(get_plugin_uri_from_name, (same_name,), found),
        call_ensures(
            set_region_parameter_tool,
            (state, route, name, None, param, value, start, end),
            r,
        ),
    ensures
        found matches Some(uri) ==> (r matches Action::Send(m, _) && m@.addr
            == "/strip/region/add_plugin"@ && m@.args.len() == 4 && m@.args[0] == ArgView::Int(
            route_id,
        ) && m@.args[3] == ArgView::Text(uri@)),
        found is None ==> refuses(
            r,
            "Plugin URI not provided and could not resolve from plugin name '"@ + name@
                + "'. Please provide plugin_uri."@,
        ),
{
    lemma_decimal_reads_back(route_id);
}

/// What the words in a name in ASCII say, in whatever case it is written.
pub proof fn lemma_words_in_names(name: &str, r: Option<String>)
    requires
        is_ascii_text(name@),
        call_ensures(get_plugin_uri_from_name, (name,), r),
    ensures
        ({
            let small = ascii_lowered(name@);
            let compressor = has_text(small, "compressor"@);
            let equalizer = has_text(small, "equalizer"@) || has_text(small, "eq"@);
            let limiter = has_text(small, "limiter"@);
            let reverb = has_text(small, "reverb"@);
            let deesser = has_text(small, "deesser"@);
            &&& compressor ==> r is Some && r->0@
                == "http://calf.sourceforge.net/plugins/Compressor"@
            &&& equalizer && !compressor ==> r is Some && r->0@
                == "http://calf.sourceforge.net/plugins/Equalizer8Band"@
            &&& limiter && !compressor && !equalizer ==> r is Some && r->0@
                == "http://calf.sourceforge.net/plugins/Limiter"@
            &&& reverb && !compressor && !equalizer && !limiter ==> r is Some && r->0@
                == "http://calf.sourceforge.net/plugins/Reverb"@
            &&& deesser && !compressor && !equalizer && !limiter && !reverb ==> r is Some && r->0@
                == "http://calf.sourceforge.net/plugins/Deesser"@
            &&& !compressor && !equalizer && !limiter && !reverb && !deesser ==> r is None
        }),
{
}

/// A route that is neither a number nor the name of a strip that is known is refused by its
/// name, and nothing is sent.
pub proof fn lemma_unknown_route_is_refused(
    state: &ArdourState,
    route: String,
    name: String,
    uri: Option<String>,
    param: String,
    value: Number,
    start: i64,
    end: i64,
    r: Action,
)
    requires
        route_number(state@, route@) is None,
        call_ensures(
            set_region_parameter_tool,
            (state, route, name, uri, param, value, start, end),
            r,
        ),
    ensures
        refuses(
            r,
            "Route '"@ + route@
                + "' not found. Please use a numeric route ID or the name of a known strip."@,
        ),
{
}

/// A route that is given by the name of a strip has the number of the first strip that is
/// known by this name.
pub proof fn lemma_region_route_by_name(
    state: &ArdourState,
    route: String,
    i: int,
    name: String,
    uri: String,
    param: String,
    value: Number,
    start: i64,
    end: i64,
    r: Action,
)
    requires
        parsed_i32(route@) is None,
        0 <= i < known_strips(state@.strips).len(),
        known_strips(state@.strips)[i].name == route@,
        forall|j: int|
            0 <= j < i ==> (#[trigger] known_strips(state@.strips)[j]).name != route@,
        call_ensures(
            set_region_parameter_tool,
            (state, route, name, Some(uri), param, value, start, end),
            r,
        ),
    ensures
        r matches Action::Send(m, _) && m@.addr == "/strip/region/add_plugin"@ && m@.args.len() == 4
            && m@.args[0] == ArgView::Int(known_strips(state@.strips)[i].id) && m@.args[3]
            == ArgView::Text(uri@),
{
    lemma_route_by_name(state@, route@, i);
}

/// Once the plugin had time to be added, its parameter is set in the same range of the same
/// route, by the names of the plugin and of the parameter, to the value that is given.
pub proof fn lemma_region_parameter_is_set(
    state: &ArdourState,
    route: String,
    route_id: i32,
    name: String,
    uri: String,
    param: String,
    value: Number,
    start: i64,
    end: i64,
    first: Action,
    outcome: Result<(), SendFailure>,
    s: StateView,
    pause: Action,
    second: Action,
    done: Action,
    e: SendFailure,
    failed: Action,
)
    requires
        route@ == decimal_text(route_id as int),
        call_ensures(
            set_region_parameter_tool,
            (state, route, name, Some(uri), param, value, start, end),
            first,
        ),
        after_sending(first, outcome, s, pause),
        after_a_pause(pause, s, second),
        after_sending(second, Ok(()), s, done),
        after_sending(second, Err(e), s, failed),
    ensures
        pauses(pause, 100),
        second matches Action::Send(m, _) && m@.addr == "/strip/region/plugin/parameter"@
            && m@.args.len() == 6 && m@.args.take(3) == first->Send_0@.args.take(3) && m@.args[0]
            == ArgView::Int(route_id) && m@.args[3] == ArgView::Text(name@) && m@.args[4]
            == ArgView::Text(param@) && m@.args[5] == ArgView::Float(value.value),
        succeeds(
            done,
            "Regional parameter set: "@ + name@ + " on "@ + route@ + " ("@ + param@ + "="@
                + value.text@ + ") for range "@ + decimal_text(start as int) + "-"@ + decimal_text(
                end as int,
            ) + " samples"@,
        ),
        refuses(
            failed,
            "Failed to set Region FX parameter: "@ + e.text@
                + ". Plugin may need to be added first or parameter name may be incorrect."@,
        ),
{
    lemma_decimal_reads_back(route_id);
    assert(second->Send_0@.args.take(3) =~= first->Send_0@.args.take(3));
}

/// A parameter of a plugin is read and written at the same place: both messages hold the
/// route first, then the slot and the parameter, each counted from one, and then the time.
pub proof fn lemma_plugin_point_is_read_where_it_is_written(
    route_id: i32,
    control: String,
    slot: i32,
    param: i32,
    time: i64,
    value: Single,
    read: Action,
    written: Action,
)
    requires
        control@ == "plugin"@,
        call_ensures(
            read_automation_value_tool,
            (route_id, control, Some(slot), Some(param), time),
            read,
        ),
        call_ensures(write_plugin_automation_tool, (route_id, slot, param, time, value), written),
    ensures
        read is Send && written is Send,
        read->Send_0@.addr == "/mixpilot/read_plugin_auto"@,
        written->Send_0@.addr == "/mixpilot/write_plugin_auto"@,
        read->Send_0@.args.len() == 5 && written->Send_0@.args.len() == 5,
        read->Send_0@.args.take(4) == written->Send_0@.args.take(4),
        read->Send_0@.args[0] == ArgView::Int(route_id),
        slot < i32::MAX ==> read->Send_0@.args[1] == ArgView::Int((slot + 1) as i32),
        param < i32::MAX ==> read->Send_0@.args[2] == ArgView::Int((param + 1) as i32),
        i32::MIN <= time <= i32::MAX ==> read->Send_0@.args[3] == ArgView::Int(time as i32),
        read->Send_0@.args[4] == ArgView::Int(9099),
        written->Send_0@.args[4] == ArgView::Float(value),
{
    lemma_counting(slot);
    lemma_counting(param);
    assert(read->Send_0@.args.take(4) =~= written->Send_0@.args.take(4));
}

/// A control of a track is read and written at the same place: both messages hold the
/// route first, then the control and the time.
pub proof fn lemma_track_point_is_read_where_it_is_written(
    route_id: i32,
    control: String,
    slot: Option<i32>,
    param: Option<i32>,
    time: i64,
    value: Single,
    start: Option<bool>,
    read: Action,
    written: Action,
)
    requires
        control@ == "gain"@ || control@ == "pan_azimuth"@ || control@ == "pan_width"@,
        start != Some(true),
        call_ensures(read_automation_value_tool, (route_id, control, slot, param, time), read),
        call_ensures(write_track_automation_tool, (route_id, control, time, value, start), written),
    ensures
        read is Send && written is Send,
        read->Send_0@.addr == "/mixpilot/read_track_auto"@,
        written->Send_0@.addr == "/mixpilot/write_track_auto"@,
        read->Send_0@.args.len() == 4 && written->Send_0@.args.len() == 4,
        read->Send_0@.args.take(3) == written->Send_0@.args.take(3),
        read->Send_0@.args[0] == ArgView::Int(route_id),
        read->Send_0@.args[1] == ArgView::Text(control@),
        i32::MIN <= time <= i32::MAX ==> read->Send_0@.args[2] == ArgView::Int(time as i32),
        read->Send_0@.args[3] == ArgView::Int(9099),
        written->Send_0@.args[3] == ArgView::Float(value),
{
    lemma_controls_are_no_plugin();
    assert(read->Send_0@.args.take(3) =~= written->Send_0@.args.take(3));
}

/// No control of a track is called a plugin.
proof fn lemma_controls_are_no_plugin()
    ensures
        "gain"@ != "plugin"@,
        "pan_azimuth"@ != "plugin"@,
        "pan_width"@ != "plugin"@,
{
    reveal_strlit("gain");
    reveal_strlit("pan_azimuth");
    reveal_strlit("pan_width");
    reveal_strlit("plugin");
    assert("gain"@.len() == 4);
    assert("pan_azimuth"@.len() == 11);
    assert("pan_width"@.len() == 9);
    assert("plugin"@.len() == 6);
}

/// No other controls are read or written, and a plugin only by its slot and parameter.
pub proof fn lemma_other_controls_are_refused(
    route_id: i32,
    control: String,
    slot: Option<i32>,
    param: Option<i32>,
    time: i64,
    value: Single,
    start: Option<bool>,
    read: Action,
    written: Action,
)
    requires
        control@ != "gain"@ && control@ != "pan_azimuth"@ && control@ != "pan_width"@,
        call_ensures(read_automation_value_tool, (route_id, control, slot, param, time), read),
        call_ensures(write_track_automation_tool, (route_id, control, time, value, start), written),
    ensures
        control@ != "plugin"@ ==> refuses(
            read,
            "Invalid control_type: "@ + control@
                + ". Must be 'plugin', 'gain', 'pan_azimuth', or 'pan_width'"@,
        ),
        control@ == "plugin"@ && (slot is None || param is None) ==> refuses(
            read,
            "plugin_slot and param_id are required for 'plugin' control_type"@,
        ),
        refuses(
            written,
            "Invalid control_type: "@ + control@
                + ". Must be 'gain', 'pan_azimuth', or 'pan_width'"@,
        ),
{
}

/// The value that the workstation replies reaches the request for it, and is replied with
/// the route, the control and the time that were asked for.
pub proof fn lemma_automation_is_read<W>(
    route_id: i32,
    control: String,
    slot: Option<i32>,
    param: Option<i32>,
    time: i64,
    asked: Action,
    s: StateView,
    wait: Action,
    p: Map<Waiting, W>,
    request: W,
    v: Single,
    told: Action,
)
    requires
        call_ensures(read_automation_value_tool, (route_id, control, slot, param, time), asked),
        after_sending(asked, Ok(()), s, wait),
        after_a_reply(wait, Ok(Reply::AutoValue(v)), s, told),
    ensures
        awaits(wait, Waiting::AutoValue, 1500),
        delivered(
            p.insert(wait->Await_0, request),
            MessageView { addr: "/mixpilot/reply/auto_value"@, args: seq![ArgView::Float(v)] },
        ) == Some((request, ReplyView::AutoValue(v))),
        told matches Action::Finish(
            ToolReply::Document(
                Document::AutomationValue { value, route_id: id, control_type, time_samples },
            ),
        ) && value == v && id == route_id && control_type@ == control@ && time_samples == time,
{
    let args = seq![ArgView::Float(v)];
    lemma_arguments(args, 0);
    lemma_automation_reaches_request(s, p, args, v, request);
}

/// Where the value does not come, that is replied, with the reason; where it could not be
/// asked for, that is.
pub proof fn lemma_automation_is_not_read(
    route_id: i32,
    control: String,
    slot: Option<i32>,
    param: Option<i32>,
    time: i64,
    asked: Action,
    s: StateView,
    wait: Action,
    late: Action,
    lost: Action,
    e: SendFailure,
    unsent: Action,
)
    requires
        call_ensures(read_automation_value_tool, (route_id, control, slot, param, time), asked),
        after_sending(asked, Ok(()), s, wait),
        after_a_reply(wait, Err(WaitError::TimedOut), s, late),
        after_a_reply(wait, Err(WaitError::Cancelled), s, lost),
        after_sending(asked, Err(e), s, unsent),
    ensures
        refuses(
            late,
            "Failed to read automation value: "@
                + "Timed out waiting for /mixpilot/reply/auto_value"@,
        ),
        refuses(lost, "Failed to read automation value: "@ + "Auto value request cancelled"@),
        control@ == "plugin"@ ==> refuses(unsent, "Failed to send read_plugin_auto: "@ + e.text@),
        control@ != "plugin"@ ==> refuses(unsent, "Failed to send read_track_auto: "@ + e.text@),
{
}

/// A point that was written is replied as it was given.
pub proof fn lemma_written_point_is_told(
    route_id: i32,
    slot: i32,
    param: i32,
    control: String,
    time: i64,
    value: Single,
    plugin: Action,
    track: Action,
    s: StateView,
    e: SendFailure,
    plugin_done: Action,
    track_done: Action,
    plugin_failed: Action,
    track_failed: Action,
)
    requires
        control@ == "gain"@ || control@ == "pan_azimuth"@ || control@ == "pan_width"@,
        call_ensures(write_plugin_automation_tool, (route_id, slot, param, time, value), plugin),
        call_ensures(write_track_automation_tool, (route_id, control, time, value, None), track),
        after_sending(plugin, Ok(()), s, plugin_done),
        after_sending(track, Ok(()), s, track_done),
        after_sending(plugin, Err(e), s, plugin_failed),
        after_sending(track, Err(e), s, track_failed),
    ensures
        plugin_done matches Action::Finish(
            ToolReply::Document(
                Document::PluginAutomation {
                    route_id: a,
                    plugin_slot: b,
                    param_id: c,
                    time_samples: d,
                    value: v,
                },
            ),
        ) && a == route_id && b == slot && c == param && d == time && v == value,
        track_done matches Action::Finish(
            ToolReply::Document(
                Document::TrackAutomation {
                    route_id: a,
                    control_type: b,
                    time_samples: d,
                    value: v,
                },
            ),
        ) && a == route_id && b@ == control@ && d == time && v == value,
        refuses(plugin_failed, "Failed to write plugin automation: "@ + e.text@),
        refuses(track_failed, "Failed to write track automation: "@ + e.text@),
{
}

/// Where the current value is to be the start, it is read first, at the place where the
/// point is then written with just that value; where it does not come, nothing is written.
pub proof fn lemma_current_value_is_the_start(
    route_id: i32,
    control: String,
    time: i64,
    value: Single,
    s: StateView,
    asked: Action,
    wait: Action,
    v: Single,
    written: Action,
    missing: Action,
    e: SendFailure,
    unsent: Action,
)
    requires
        control@ == "gain"@ || control@ == "pan_azimuth"@ || control@ == "pan_width"@,
        call_ensures(
            write_track_automation_tool,
            (route_id, control, time, value, Some(true)),
            asked,
        ),
        after_sending(asked, Ok(()), s, wait),
        after_a_reply(wait, Ok(Reply::AutoValue(v)), s, written),
        after_a_reply(wait, Err(WaitError::TimedOut), s, missing),
        after_sending(asked, Err(e), s, unsent),
    ensures
        sends(
            asked,
            "/mixpilot/read_track_auto"@,
            seq![
                ArgView::Int(route_id),
                ArgView::Text(control@),
                ArgView::Int(time as i32),
                ArgView::Int(9099),
            ],
        ),
        awaits(wait, Waiting::AutoValue, 1500),
        sends(
            written,
            "/mixpilot/write_track_auto"@,
            seq![
                ArgView::Int(route_id),
                ArgView::Text(control@),
                ArgView::Int(time as i32),
                ArgView::Float(v),
            ],
        ),
        refuses(
            missing,
            "Failed to read automation value: "@
                + "Timed out waiting for /mixpilot/reply/auto_value"@,
        ),
        refuses(unsent, "Failed to send read_track_auto: "@ + e.text@),
{
}

/// A name stands for what its lower case stands for, and in lower case the words in it say
/// what that is.
pub proof fn lemma_names_in_lower_case(
    name: &str,
    small: &str,
    found: Option<String>,
    r: Option<String>,
)
    requires
        small@ == lowercase(name@),
        call_ensures(get_plugin_uri_from_name, (name,), found),
        call_ensures(find_uri, (small,), r),
    ensures
        text_view(found) == text_view(r),
        has_text(small@, "compressor"@) ==> r is Some && r->0@
            == "http://calf.sourceforge.net/plugins/Compressor"@,
        r is None <==> !has_text(small@, "compressor"@) && !has_text(small@, "equalizer"@)
            && !has_text(small@, "eq"@) && !has_text(small@, "limiter"@) && !has_text(
            small@,
            "reverb"@,
        ) && !has_text(small@, "deesser"@),
{
}

} // verus!
