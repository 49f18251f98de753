//! What the workstation reports, and what becomes known by it.

use crate::osc::{
    args_view, decode_packet, decoded, messages_of, ArgView, MessageView, OscArg, OscMessage,
    OscPacket, MAX_PACKET,
};
use crate::pending::{Delivery, LoopRange, PendingRequests, Reply, ReplyView, Waiting};
use crate::plugins::{
    by_slot, entries_view, insert_plugin, inserted, merge, merged, EntryView, PluginEntry,
};
use crate::single::{single_of_double, single_of_int, Single};
use crate::slots::{before, one_less};
use crate::state::{
    numbered, with_name, with_strip, with_type, ArdourState, PlaybackStatus, PortInfo, StateView,
    TrackView,
};
use crate::table::ParamKey;
use crate::text::{
    begins_with, behind, decimal, decimal_text, first_segment, parse_i32, parsed_i32, rest_behind,
    starts_with, text_is, up_to_slash,
};
use vstd::prelude::*;
use vstd::string::*;

verus! {

/// What a message is about, by its address. A number in the address stands with it
/// where it could be read.
#[derive(Clone, Copy, Debug, PartialEq, Eq, Structural)]
pub enum Route {
    StripName(Option<i32>),
    StripType(Option<i32>),
    TransportState,
    TransportFrame,
    StripPlay,
    Parameter(Option<i32>),
    ParameterName(Option<i32>),
    PluginSelected,
    PluginSelectedAt(Option<i32>),
    PluginList,
    PluginInserted,
    Descriptor,
    DescriptorEnd,
    ParameterValue,
    ParameterValues,
    SampleRate,
    LoopRange,
    AutoValue,
    StripList,
    StripSelect,
    Other,
}

/// What a message with this address is about.
pub open spec fn route(addr: Seq<char>) -> Route {
    if begins_with(addr, "/strip/name/"@) {
        Route::StripName(parsed_i32(behind(addr, "/strip/name/"@.len())))
    } else if begins_with(addr, "/strip/type/"@) {
        Route::StripType(parsed_i32(behind(addr, "/strip/type/"@.len())))
    } else if addr == "/transport_state"@ {
        Route::TransportState
    } else if addr == "/transport_frame"@ {
        Route::TransportFrame
    } else if addr == "/strip/play"@ {
        Route::StripPlay
    } else if begins_with(addr, "/select/plugin/parameter/"@) && !begins_with(
        addr,
        "/select/plugin/parameter/name"@,
    ) {
        Route::Parameter(parsed_i32(behind(addr, "/select/plugin/parameter/"@.len())))
    } else if begins_with(addr, "/select/plugin/parameter/name/"@) {
        Route::ParameterName(parsed_i32(behind(addr, "/select/plugin/parameter/name/"@.len())))
    } else if addr == "/select/plugin"@ {
        Route::PluginSelected
    } else if begins_with(addr, "/select/plugin/"@) {
        Route::PluginSelectedAt(
            parsed_i32(first_segment(behind(addr, "/select/plugin/"@.len()))),
        )
    } else if addr == "/strip/plugin/list"@ {
        Route::PluginList
    } else if addr == "/strip/plugin/inserted"@ {
        Route::PluginInserted
    } else if addr == "/strip/plugin/descriptor"@ {
        Route::Descriptor
    } else if addr == "/strip/plugin/descriptor_end"@ {
        Route::DescriptorEnd
    } else if addr == "/strip/plugin/parameter/value"@ {
        Route::ParameterValue
    } else if addr == "/strip/plugin/parameter/values"@ {
        Route::ParameterValues
    } else if addr == "/mixpilot/reply/sample_rate"@ {
        Route::SampleRate
    } else if addr == "/mixpilot/reply/loop_range"@ {
        Route::LoopRange
    } else if addr == "/mixpilot/reply/auto_value"@ {
        Route::AutoValue
    } else if addr == "/strip/list"@ {
        Route::StripList
    } else if addr == "/strip/select"@ {
        Route::StripSelect
    } else {
        Route::Other
    }
}

/// The number in `addr` behind its first `n` characters.
fn number_behind(addr: &str, n: usize) -> (r: Option<i32>)
    requires
        n <= addr@.len(),
    ensures
        r == parsed_i32(behind(addr@, n as nat)),
{
    parse_i32(rest_behind(addr, n).as_str())
}

/// What a message with this address is about.
pub fn classify(addr: &str) -> (r: Route)
    ensures
        r == route(addr@),
{
    proof {
        reveal_strlit("/strip/name/");
        reveal_strlit("/strip/type/");
        reveal_strlit("/select/plugin/parameter/");
        reveal_strlit("/select/plugin/parameter/name/");
        reveal_strlit("/select/plugin/");
    }
    if starts_with(addr, "/strip/name/") {
        Route::StripName(number_behind(addr, 12))
    } else if starts_with(addr, "/strip/type/") {
        Route::StripType(number_behind(addr, 12))
    } else if text_is(addr, "/transport_state") {
        Route::TransportState
    } else if text_is(addr, "/transport_frame") {
        Route::TransportFrame
    } else if text_is(addr, "/strip/play") {
        Route::StripPlay
    } else if starts_with(addr, "/select/plugin/parameter/") && !starts_with(
        addr,
        "/select/plugin/parameter/name",
    ) {
        Route::Parameter(number_behind(addr, 25))
    } else if starts_with(addr, "/select/plugin/parameter/name/") {
        Route::ParameterName(number_behind(addr, 30))
    } else if text_is(addr, "/select/plugin") {
        Route::PluginSelected
    } else if starts_with(addr, "/select/plugin/") {
        let rest = rest_behind(addr, 15);
        Route::PluginSelectedAt(parse_i32(up_to_slash(rest.as_str()).as_str()))
    } else if text_is(addr, "/strip/plugin/list") {
        Route::PluginList
    } else if text_is(addr, "/strip/plugin/inserted") {
        Route::PluginInserted
    } else if text_is(addr, "/strip/plugin/descriptor") {
        Route::Descriptor
    } else if text_is(addr, "/strip/plugin/descriptor_end") {
        Route::DescriptorEnd
    } else if text_is(addr, "/strip/plugin/parameter/value") {
        Route::ParameterValue
    } else if text_is(addr, "/strip/plugin/parameter/values") {
        Route::ParameterValues
    } else if text_is(addr, "/mixpilot/reply/sample_rate") {
        Route::SampleRate
    } else if text_is(addr, "/mixpilot/reply/loop_range") {
        Route::LoopRange
    } else if text_is(addr, "/mixpilot/reply/auto_value") {
        Route::AutoValue
    } else if text_is(addr, "/strip/list") {
        Route::StripList
    } else if text_is(addr, "/strip/select") {
        Route::StripSelect
    } else {
        Route::Other
    }
}

/// The argument at `i`, where it is a whole number.
pub open spec fn int_at(args: Seq<ArgView>, i: int) -> Option<i32> {
    if 0 <= i < args.len() {
        match args[i] {
            ArgView::Int(n) => Some(n),
            _ => None,
        }
    } else {
        None
    }
}

/// The argument at `i`, where it is a number in floating point.
pub open spec fn float_at(args: Seq<ArgView>, i: int) -> Option<Single> {
    if 0 <= i < args.len() {
        match args[i] {
            ArgView::Float(f) => Some(f),
            _ => None,
        }
    } else {
        None
    }
}

/// The argument at `i`, where it is text.
pub open spec fn text_at(args: Seq<ArgView>, i: int) -> Option<Seq<char>> {
    if 0 <= i < args.len() {
        match args[i] {
            ArgView::Text(t) => Some(t),
            _ => None,
        }
    } else {
        None
    }
}

/// The argument at `i` as a whole number, where it is a number; what stands behind the
/// point does not count.
pub open spec fn index_at(args: Seq<ArgView>, i: int) -> Option<i32> {
    if 0 <= i < args.len() {
        match args[i] {
            ArgView::Int(n) => Some(n),
            ArgView::Float(f) => Some(f.truncated() as i32),
            _ => None,
        }
    } else {
        None
    }
}

/// The argument at `i` as yes or no, where it is a number: zero is no.
pub open spec fn flag_at(args: Seq<ArgView>, i: int) -> Option<bool> {
    if 0 <= i < args.len() {
        match args[i] {
            ArgView::Int(n) => Some(n != 0),
            ArgView::Float(f) => Some(!f.zero()),
            _ => None,
        }
    } else {
        None
    }
}

/// The value that an argument gives a parameter.
pub open spec fn value_of(arg: ArgView) -> Option<Single> {
    match arg {
        ArgView::Float(f) => Some(f),
        ArgView::Double(d) => Some(single_of_double(d)),
        ArgView::Int(n) => Some(single_of_int(n)),
        _ => None,
    }
}

/// The value that the argument at `i` gives a parameter.
pub open spec fn value_at(args: Seq<ArgView>, i: int) -> Option<Single> {
    if 0 <= i < args.len() {
        value_of(args[i])
    } else {
        None
    }
}

/// The argument at `i`, where it is a whole number.
fn get_int(args: &Vec<OscArg>, i: usize) -> (r: Option<i32>)
    ensures
        r == int_at(args_view(args@), i as int),
{
    if i < args.len() {
        match &args[i] {
            OscArg::Int(n) => Some(*n),
            _ => None,
        }
    } else {
        None
    }
}

/// The argument at `i`, where it is a number in floating point.
fn get_float(args: &Vec<OscArg>, i: usize) -> (r: Option<Single>)
    ensures
        r == float_at(args_view(args@), i as int),
{
    if i < args.len() {
        match &args[i] {
            OscArg::Float(f) => Some(*f),
            _ => None,
        }
    } else {
        None
    }
}

/// The argument at `i`, where it is text.
fn get_text(args: &Vec<OscArg>, i: usize) -> (r: Option<String>)
    ensures
        match r {
            Some(t) => text_at(args_view(args@), i as int) == Some(t@),
            None => text_at(args_view(args@), i as int) is None,
        },
{
    if i < args.len() {
        match &args[i] {
            OscArg::Text(t) => Some(t.clone()),
            _ => None,
        }
    } else {
        None
    }
}

/// The argument at `i` as a whole number, where it is a number.
fn get_index(args: &Vec<OscArg>, i: usize) -> (r: Option<i32>)
    ensures
        r == index_at(args_view(args@), i as int),
{
    if i < args.len() {
        match &args[i] {
            OscArg::Int(n) => Some(*n),
            OscArg::Float(f) => Some(f.to_i32()),
            _ => None,
        }
    } else {
        None
    }
}

/// The argument at `i` as yes or no, where it is a number.
fn get_flag(args: &Vec<OscArg>, i: usize) -> (r: Option<bool>)
    ensures
        r == flag_at(args_view(args@), i as int),
{
    if i < args.len() {
        match &args[i] {
            OscArg::Int(n) => Some(*n != 0),
            OscArg::Float(f) => Some(!f.is_zero()),
            _ => None,
        }
    } else {
        None
    }
}

/// The value that the argument at `i` gives a parameter.
fn get_value(args: &Vec<OscArg>, i: usize) -> (r: Option<Single>)
    ensures
        r == value_at(args_view(args@), i as int),
{
    if i < args.len() {
        match &args[i] {
            OscArg::Float(f) => Some(*f),
            OscArg::Double(d) => Some(Single::from_double(*d)),
            OscArg::Int(n) => Some(Single::from_int(*n)),
            _ => None,
        }
    } else {
        None
    }
}

/// The text of a strip's type.
pub open spec fn type_text(arg: ArgView) -> Seq<char> {
    match arg {
        ArgView::Text(t) => t,
        ArgView::Int(n) => "type_id_"@ + decimal_text(n as int),
        _ => "unknown_type_format"@,
    }
}

/// The text of a strip's type in the list of all strips.
pub open spec fn listed_type_text(arg: ArgView) -> Seq<char> {
    match arg {
        ArgView::Text(t) => t,
        ArgView::Int(n) => "type_"@ + decimal_text(n as int),
        _ => "unknown"@,
    }
}

/// The strips that the arguments from `i` on list, together with `strips`: number, name
/// and type of each. What cannot be read ends the list.
pub open spec fn listed_strips(
    args: Seq<ArgView>,
    i: int,
    strips: Seq<TrackView>,
) -> Seq<TrackView>
    decreases args.len() - i,
{
    if 0 <= i && i + 2 < args.len() {
        match (index_at(args, i), text_at(args, i + 1)) {
            (Some(ssid), Some(name)) => listed_strips(
                args,
                i + 3,
                if ssid > 0 {
                    with_strip(strips, ssid, name, listed_type_text(args[i + 2]))
                } else {
                    strips
                },
            ),
            _ => strips,
        }
    } else {
        strips
    }
}

/// The plugins that the arguments from `i` on list: slot counted from one, name, and
/// whether it is enabled. What cannot be read ends the list.
pub open spec fn listed_plugins(args: Seq<ArgView>, i: int) -> Seq<EntryView>
    decreases args.len() - i,
{
    if 0 <= i && i + 2 < args.len() {
        match (index_at(args, i), text_at(args, i + 1), flag_at(args, i + 2)) {
            (Some(slot), Some(name), Some(enabled)) => seq![
                EntryView { slot: before(slot), name, enabled },
            ] + listed_plugins(args, i + 3),
            _ => Seq::empty(),
        }
    } else {
        Seq::empty()
    }
}

/// The values among the arguments from `i` on.
pub open spec fn listed_values(args: Seq<ArgView>, i: int) -> Seq<Single>
    decreases args.len() - i,
{
    if 0 <= i < args.len() {
        match value_of(args[i]) {
            Some(v) => seq![v] + listed_values(args, i + 1),
            None => listed_values(args, i + 1),
        }
    } else {
        Seq::empty()
    }
}

/// After the transport reported what it does, together with its speed.
pub open spec fn after_transport_state(s: StateView, args: Seq<ArgView>) -> StateView {
    if args.len() == 2 && float_at(args, 1) is Some {
        match int_at(args, 0) {
            Some(0) => StateView { playback: PlaybackStatus::Stopped, ..s },
            Some(1) => StateView { playback: PlaybackStatus::Playing, ..s },
            Some(2) => StateView { playback: PlaybackStatus::Playing, ..s },
            _ => s,
        }
    } else {
        s
    }
}

/// After the position of the playhead was reported.
pub open spec fn after_transport_frame(s: StateView, args: Seq<ArgView>) -> StateView {
    if args.len() == 1 {
        match args[0] {
            ArgView::Long(frame) => StateView { frame: Some(frame), ..s },
            _ => s,
        }
    } else {
        s
    }
}

/// After it was reported whether the transport rolls.
pub open spec fn after_strip_play(s: StateView, args: Seq<ArgView>) -> StateView {
    match int_at(args, 0) {
        Some(0) => StateView { playback: PlaybackStatus::Stopped, ..s },
        Some(1) => StateView { playback: PlaybackStatus::Playing, ..s },
        _ => s,
    }
}

/// The value of a parameter of the selected plugin: a finite number.
pub open spec fn reported_value(args: Seq<ArgView>) -> Option<Single> {
    match (float_at(args, 0), int_at(args, 0)) {
        (Some(f), _) => if f.finite() {
            Some(f)
        } else {
            None
        },
        (None, Some(n)) => Some(single_of_int(n)),
        _ => None,
    }
}

/// After a value of a parameter of the selected plugin was reported.
pub open spec fn after_parameter(s: StateView, param: i32, args: Seq<ArgView>) -> StateView {
    match (reported_value(args), s.selected_strip, s.selected_slot) {
        (Some(v), Some(ssid), Some(slot)) => StateView {
            values: s.values.insert(ParamKey { ssid, slot, param }, v),
            ..s
        },
        _ => s,
    }
}

/// After the name of a parameter of the selected plugin was reported.
pub open spec fn after_parameter_name(
    s: StateView,
    param: i32,
    args: Seq<ArgView>,
) -> StateView {
    match (text_at(args, 0), s.selected_strip, s.selected_slot) {
        (Some(name), Some(ssid), Some(slot)) => if name.len() > 0 {
            StateView { names: s.names.insert(ParamKey { ssid, slot, param }, name), ..s }
        } else {
            s
        },
        _ => s,
    }
}

/// After the slot of the selected plugin was reported, which counts only where a strip
/// is selected.
pub open spec fn after_plugin_selected(s: StateView, slot: Option<i32>) -> StateView {
    if slot is Some && s.selected_strip is Some {
        StateView { selected_slot: slot, ..s }
    } else {
        s
    }
}

/// After the plugins on a strip were reported. A report without any plugin never takes
/// the place of a list that has some; one with plugins adds to the list that is there.
pub open spec fn after_plugin_list(s: StateView, args: Seq<ArgView>) -> StateView {
    match index_at(args, 0) {
        Some(ssid) => {
            let list = listed_plugins(args, 1);
            if !s.plugins.contains_key(ssid) {
                StateView { plugins: s.plugins.insert(ssid, list), ..s }
            } else if list.len() > 0 {
                StateView {
                    plugins: s.plugins.insert(ssid, by_slot(merged(s.plugins[ssid], list))),
                    ..s
                }
            } else {
                s
            }
        },
        None => s,
    }
}

/// After a plugin was inserted on a strip: strip, slot counted from zero, name, URI, and
/// whether it is enabled.
pub open spec fn after_plugin_inserted(s: StateView, args: Seq<ArgView>) -> StateView {
    match (index_at(args, 0), index_at(args, 1), text_at(args, 2), flag_at(args, 4)) {
        (Some(ssid), Some(slot), Some(name), Some(enabled)) => if text_at(args, 3) is Some {
            let e = EntryView { slot, name, enabled };
            let list = if s.plugins.contains_key(ssid) {
                inserted(s.plugins[ssid], e)
            } else {
                seq![e]
            };
            StateView { plugins: s.plugins.insert(ssid, list), ..s }
        } else {
            s
        },
        _ => s,
    }
}

/// After a parameter of a plugin was described: strip, slot counted from one, number of
/// the parameter, label, and flags; the last argument is its value.
pub open spec fn after_descriptor(s: StateView, args: Seq<ArgView>) -> StateView {
    match (index_at(args, 0), index_at(args, 1), index_at(args, 2), int_at(args, 4)) {
        (Some(ssid), Some(slot), Some(param), Some(flags)) => if args.len() >= 9 {
            let k = ParamKey { ssid, slot: before(slot), param };
            let port = PortInfo {
                is_input: flags & 0x80 != 0,
                is_output: flags & 0x200 != 0,
                visible_index: None,
            };
            let name = match text_at(args, 3) {
                Some(label) => label,
                None => "unknown"@,
            };
            StateView {
                ports: s.ports.insert(k, port),
                names: s.names.insert(k, name),
                values: match value_of(args.last()) {
                    Some(v) => s.values.insert(k, v),
                    None => s.values,
                },
                ..s
            }
        } else {
            s
        },
        _ => s,
    }
}

/// After the last parameter of a plugin was described.
pub open spec fn after_descriptor_end(s: StateView, args: Seq<ArgView>) -> StateView {
    match (int_at(args, 0), int_at(args, 1)) {
        (Some(ssid), Some(slot)) => StateView {
            ports: numbered(s.ports, ssid, before(slot)),
            ..s
        },
        _ => s,
    }
}

/// After the value of a parameter was reported: strip, slot counted from one, number of
/// the parameter, value.
pub open spec fn after_parameter_value(s: StateView, args: Seq<ArgView>) -> StateView {
    match (index_at(args, 0), index_at(args, 1), index_at(args, 2), value_at(args, 3)) {
        (Some(ssid), Some(slot), Some(param), Some(v)) => StateView {
            values: s.values.insert(ParamKey { ssid, slot: before(slot), param }, v),
            ..s
        },
        _ => s,
    }
}

/// After a strip was selected, by which no plugin is.
pub open spec fn after_strip_select(s: StateView, args: Seq<ArgView>) -> StateView {
    match int_at(args, 0) {
        Some(ssid) => if ssid > 0 {
            StateView { selected_strip: Some(ssid), selected_slot: None, ..s }
        } else {
            s
        },
        None => s,
    }
}

/// What is known after a message.
pub open spec fn after_message(s: StateView, m: MessageView) -> StateView {
    match route(m.addr) {
        Route::StripName(Some(ssid)) => match text_at(m.args, 0) {
            Some(name) => if ssid > 0 {
                StateView { strips: with_name(s.strips, ssid, name), ..s }
            } else {
                s
            },
            None => s,
        },
        Route::StripType(Some(ssid)) => if ssid > 0 && m.args.len() > 0 {
            StateView { strips: with_type(s.strips, ssid, type_text(m.args[0])), ..s }
        } else {
            s
        },
        Route::TransportState => after_transport_state(s, m.args),
        Route::TransportFrame => after_transport_frame(s, m.args),
        Route::StripPlay => after_strip_play(s, m.args),
        Route::Parameter(Some(param)) => after_parameter(s, param, m.args),
        Route::ParameterName(Some(param)) => after_parameter_name(s, param, m.args),
        Route::PluginSelected => after_plugin_selected(s, index_at(m.args, 0)),
        Route::PluginSelectedAt(slot) => after_plugin_selected(s, slot),
        Route::PluginList => after_plugin_list(s, m.args),
        Route::PluginInserted => after_plugin_inserted(s, m.args),
        Route::Descriptor => after_descriptor(s, m.args),
        Route::DescriptorEnd => after_descriptor_end(s, m.args),
        Route::ParameterValue => after_parameter_value(s, m.args),
        Route::StripList => StateView { strips: listed_strips(m.args, 0, Seq::empty()), ..s },
        Route::StripSelect => after_strip_select(s, m.args),
        _ => s,
    }
}

/// The loop range that the arguments report, where they report one.
pub open spec fn reported_loop(args: Seq<ArgView>) -> Option<LoopRange> {
    match (int_at(args, 0), int_at(args, 1), float_at(args, 2), float_at(args, 3)) {
        (Some(start), Some(end), Some(start_seconds), Some(end_seconds)) => Some(
            LoopRange { start, end, start_seconds, end_seconds },
        ),
        _ => None,
    }
}

/// What a message replies, and to which request.
pub open spec fn answer(m: MessageView) -> Option<(Waiting, ReplyView)> {
    match route(m.addr) {
        Route::DescriptorEnd => match (int_at(m.args, 0), int_at(m.args, 1)) {
            (Some(ssid), Some(slot)) => Some(
                (Waiting::Descriptor { ssid, slot: before(slot) }, ReplyView::Described),
            ),
            _ => None,
        },
        Route::ParameterValue => match (
            index_at(m.args, 0),
            index_at(m.args, 1),
            index_at(m.args, 2),
            value_at(m.args, 3),
        ) {
            (Some(ssid), Some(slot), Some(param), Some(v)) => Some(
                (Waiting::Value { ssid, slot: before(slot), param }, ReplyView::Value(v)),
            ),
            _ => None,
        },
        Route::ParameterValues => match (
            index_at(m.args, 0),
            index_at(m.args, 1),
            index_at(m.args, 2),
        ) {
            (Some(ssid), Some(slot), Some(_)) => Some(
                (
                    Waiting::Batch { ssid, slot: before(slot) },
                    ReplyView::Batch(listed_values(m.args, 3)),
                ),
            ),
            _ => None,
        },
        Route::SampleRate => match int_at(m.args, 0) {
            Some(rate) => Some((Waiting::SampleRate, ReplyView::SampleRate(rate))),
            None => None,
        },
        Route::LoopRange => Some(
            (Waiting::LoopRange, ReplyView::LoopRange(reported_loop(m.args))),
        ),
        Route::AutoValue => match value_at(m.args, 0) {
            Some(v) => Some((Waiting::AutoValue, ReplyView::AutoValue(v))),
            None => None,
        },
        _ => None,
    }
}

/// The text of a strip's type.
fn strip_type(arg: &OscArg) -> (r: String)
    ensures
        r@ == type_text(arg@),
{
    match arg {
        OscArg::Text(t) => t.clone(),
        OscArg::Int(n) => {
            let mut t = "type_id_".to_owned();
            t.append(decimal(*n as i64).as_str());
            t
        },
        _ => "unknown_type_format".to_owned(),
    }
}

/// The text of a strip's type in the list of all strips.
fn listed_strip_type(arg: &OscArg) -> (r: String)
    ensures
        r@ == listed_type_text(arg@),
{
    match arg {
        OscArg::Text(t) => t.clone(),
        OscArg::Int(n) => {
            let mut t = "type_".to_owned();
            t.append(decimal(*n as i64).as_str());
            t
        },
        _ => "unknown".to_owned(),
    }
}

/// Takes note of the list of all strips, in place of what was known of them.
fn note_strip_list(state: &mut ArdourState, args: &Vec<OscArg>)
    requires
        old(state).wf(),
    ensures
        final(state).wf(),
        final(state)@ == (StateView {
            strips: listed_strips(args_view(args@), 0, Seq::empty()),
            ..old(state)@
        }),
{
    let ghost before_list = state@;
    let ghost view = args_view(args@);
    let ghost goal = listed_strips(view, 0, Seq::empty());
    state.clear_strips();
    let mut i: usize = 0;
    while args.len() >= 2 && i < args.len() - 2
        invariant_except_break
            goal == listed_strips(view, i as int, state@.strips),
        invariant
            state.wf(),
            view == args_view(args@),
            state@ == (StateView { strips: state@.strips, ..before_list }),
        ensures
            state@.strips == goal,
        decreases args.len() - i,
    {
        let ssid: i32 = match get_index(args, i) {
            Some(n) => n,
            None => {
                break;
            },
        };
        let name = match get_text(args, i + 1) {
            Some(t) => t,
            None => {
                break;
            },
        };
        let track_type = listed_strip_type(&args[i + 2]);
        assert(view[i + 2] == args@[i + 2]@);
        if ssid > 0 {
            state.file_strip(ssid, name, track_type);
        }
        i = i + 3;
    }
}

/// The plugins that the arguments of a report list.
fn read_plugins(args: &Vec<OscArg>) -> (r: Vec<PluginEntry>)
    ensures
        entries_view(r@) == listed_plugins(args_view(args@), 1),
{
    let ghost view = args_view(args@);
    let ghost goal = listed_plugins(view, 1);
    let mut r: Vec<PluginEntry> = Vec::new();
    let mut i: usize = 1;
    assert(entries_view(r@) + goal =~= goal);
    while args.len() >= 2 && i < args.len() - 2
        invariant_except_break
            goal == entries_view(r@) + listed_plugins(view, i as int),
        invariant
            i >= 1,
            view == args_view(args@),
        ensures
            goal == entries_view(r@),
        decreases args.len() - i,
    {
        let ghost so_far = entries_view(r@);
        assert(so_far + Seq::<EntryView>::empty() =~= so_far);
        let slot: i32 = match get_index(args, i) {
            Some(n) => n,
            None => {
                break;
            },
        };
        let name = match get_text(args, i + 1) {
            Some(t) => t,
            None => {
                break;
            },
        };
        let enabled: bool = match get_flag(args, i + 2) {
            Some(b) => b,
            None => {
                break;
            },
        };
        let entry = PluginEntry { slot: one_less(slot), name, enabled };
        r.push(entry);
        proof {
            assert(entries_view(r@) =~= so_far.push(entry@));
            let rest = listed_plugins(view, i + 3);
            assert(so_far + (seq![entry@] + rest) =~= so_far.push(entry@) + rest);
        }
        i = i + 3;
    }
    assert(goal =~= entries_view(r@));
    r
}

/// Takes note of the plugins on a strip.
fn note_plugin_list(state: &mut ArdourState, args: &Vec<OscArg>)
    requires
        old(state).wf(),
    ensures
        final(state).wf(),
        final(state)@ == after_plugin_list(old(state)@, args_view(args@)),
{
    let ssid: i32 = match get_index(args, 0) {
        Some(n) => n,
        None => {
            return;
        },
    };
    let list = read_plugins(args);
    assert(entries_view(list@).len() == list@.len());
    let known: Option<Vec<PluginEntry>> = match state.plugins_on(ssid) {
        Some(old_list) => if list.len() > 0 {
            Some(merge(old_list, &list))
        } else {
            return;
        },
        None => None,
    };
    match known {
        Some(all) => {
            state.set_plugins(ssid, all);
        },
        None => {
            state.set_plugins(ssid, list);
        },
    }
}

/// Takes note of a plugin that was inserted.
fn note_plugin_inserted(state: &mut ArdourState, args: &Vec<OscArg>)
    requires
        old(state).wf(),
    ensures
        final(state).wf(),
        final(state)@ == after_plugin_inserted(old(state)@, args_view(args@)),
{
    match (
        get_index(args, 0),
        get_index(args, 1),
        get_text(args, 2),
        get_text(args, 3),
        get_flag(args, 4),
    ) {
        (Some(ssid), Some(slot), Some(name), Some(_), Some(enabled)) => {
            let entry = PluginEntry { slot, name, enabled };
            let list: Vec<PluginEntry> = match state.plugins_on(ssid) {
                Some(known) => insert_plugin(known, entry),
                None => {
                    let mut only: Vec<PluginEntry> = Vec::new();
                    only.push(entry);
                    assert(entries_view(only@) =~= seq![entry@]);
                    only
                },
            };
            state.set_plugins(ssid, list);
        },
        _ => {},
    }
}

/// Takes note of the description of a parameter.
fn note_descriptor(state: &mut ArdourState, args: &Vec<OscArg>)
    requires
        old(state).wf(),
    ensures
        final(state).wf(),
        final(state)@ == after_descriptor(old(state)@, args_view(args@)),
{
    if args.len() < 9 {
        return;
    }
    match (get_index(args, 0), get_index(args, 1), get_index(args, 2), get_int(args, 4)) {
        (Some(ssid), Some(slot), Some(param), Some(flags)) => {
            let k = ParamKey { ssid, slot: one_less(slot), param };
            state.set_port(k, flags & 0x80 != 0, flags & 0x200 != 0);
            let name = match get_text(args, 3) {
                Some(label) => label,
                None => "unknown".to_owned(),
            };
            state.set_name(k, name);
            match get_value(args, args.len() - 1) {
                Some(v) => {
                    state.set_value(k, v);
                },
                None => {},
            }
        },
        _ => {},
    }
}

/// The value of a parameter of the selected plugin.
fn read_reported_value(args: &Vec<OscArg>) -> (r: Option<Single>)
    ensures
        r == reported_value(args_view(args@)),
{
    match get_float(args, 0) {
        Some(f) => if f.is_finite() {
            Some(f)
        } else {
            None
        },
        None => match get_int(args, 0) {
            Some(n) => Some(Single::from_int(n)),
            None => None,
        },
    }
}

/// Takes note of what a message reports.
fn note(state: &mut ArdourState, msg: &OscMessage, about: Route)
    requires
        old(state).wf(),
        about == route(msg@.addr),
    ensures
        final(state).wf(),
        final(state)@ == after_message(old(state)@, msg@),
{
    let args = &msg.args;
    match about {
        Route::StripName(Some(ssid)) => {
            match get_text(args, 0) {
                Some(name) => {
                    if ssid > 0 {
                        state.name_strip(ssid, name);
                    }
                },
                None => {},
            }
        },
        Route::StripType(Some(ssid)) => {
            if ssid > 0 && args.len() > 0 {
                assert(args_view(args@)[0] == args@[0]@);
                state.type_strip(ssid, strip_type(&args[0]));
            }
        },
        Route::TransportState => {
            if args.len() == 2 && get_float(args, 1).is_some() {
                match get_int(args, 0) {
                    Some(0) => {
                        state.set_playback(PlaybackStatus::Stopped);
                    },
                    Some(1) | Some(2) => {
                        state.set_playback(PlaybackStatus::Playing);
                    },
                    _ => {},
                }
            }
        },
        Route::TransportFrame => {
            if args.len() == 1 {
                match &args[0] {
                    OscArg::Long(frame) => {
                        state.set_frame(*frame);
                    },
                    _ => {},
                }
            }
        },
        Route::StripPlay => {
            match get_int(args, 0) {
                Some(0) => {
                    state.set_playback(PlaybackStatus::Stopped);
                },
                Some(1) => {
                    state.set_playback(PlaybackStatus::Playing);
                },
                _ => {},
            }
        },
        Route::Parameter(Some(param)) => {
            match (
                read_reported_value(args),
                state.selected_strip(),
                state.selected_plugin_slot(),
            ) {
                (Some(v), Some(ssid), Some(slot)) => {
                    state.set_value(ParamKey { ssid, slot, param }, v);
                },
                _ => {},
            }
        },
        Route::ParameterName(Some(param)) => {
            match (get_text(args, 0), state.selected_strip(), state.selected_plugin_slot()) {
                (Some(name), Some(ssid), Some(slot)) => {
                    if name.as_str().unicode_len() > 0 {
                        state.set_name(ParamKey { ssid, slot, param }, name);
                    }
                },
                _ => {},
            }
        },
        Route::PluginSelected => {
            match (get_index(args, 0), state.selected_strip()) {
                (Some(slot), Some(ssid)) => {
                    state.select_plugin(ssid, slot);
                },
                _ => {},
            }
        },
        Route::PluginSelectedAt(Some(slot)) => {
            match state.selected_strip() {
                Some(ssid) => {
                    state.select_plugin(ssid, slot);
                },
                None => {},
            }
        },
        Route::PluginList => {
            note_plugin_list(state, args);
        },
        Route::PluginInserted => {
            note_plugin_inserted(state, args);
        },
        Route::Descriptor => {
            note_descriptor(state, args);
        },
        Route::DescriptorEnd => {
            match (get_int(args, 0), get_int(args, 1)) {
                (Some(ssid), Some(slot)) => {
                    state.number_inputs(ssid, one_less(slot));
                },
                _ => {},
            }
        },
        Route::ParameterValue => {
            match (
                get_index(args, 0),
                get_index(args, 1),
                get_index(args, 2),
                get_value(args, 3),
            ) {
                (Some(ssid), Some(slot), Some(param), Some(v)) => {
                    state.set_value(ParamKey { ssid, slot: one_less(slot), param }, v);
                },
                _ => {},
            }
        },
        Route::StripList => {
            note_strip_list(state, args);
        },
        Route::StripSelect => {
            match get_int(args, 0) {
                Some(ssid) => {
                    if ssid > 0 {
                        state.select_strip(ssid);
                    }
                },
                None => {},
            }
        },
        _ => {},
    }
}

/// The values that the arguments of a report list.
fn read_values(args: &Vec<OscArg>) -> (r: Vec<Single>)
    ensures
        r@ == listed_values(args_view(args@), 3),
{
    let ghost view = args_view(args@);
    let ghost goal = listed_values(view, 3);
    let mut r: Vec<Single> = Vec::new();
    let mut i: usize = 3;
    assert(r@ + goal =~= goal);
    while i < args.len()
        invariant
            i >= 3,
            view == args_view(args@),
            goal == r@ + listed_values(view, i as int),
        decreases args.len() - i,
    {
        let ghost so_far = r@;
        match get_value(args, i) {
            Some(v) => {
                r.push(v);
                proof {
                    let rest = listed_values(view, i + 1);
                    assert(so_far + (seq![v] + rest) =~= so_far.push(v) + rest);
                }
            },
            None => {},
        }
        i = i + 1;
    }
    assert(goal =~= r@);
    r
}

/// The loop range that the arguments report.
fn read_loop(args: &Vec<OscArg>) -> (r: Option<LoopRange>)
    ensures
        r == reported_loop(args_view(args@)),
{
    match (get_int(args, 0), get_int(args, 1), get_float(args, 2), get_float(args, 3)) {
        (Some(start), Some(end), Some(start_seconds), Some(end_seconds)) => Some(
            LoopRange { start, end, start_seconds, end_seconds },
        ),
        _ => None,
    }
}

/// What a message replies, and to which request.
pub fn read_answer(msg: &OscMessage) -> (r: Option<(Waiting, Reply)>)
    ensures
        match r {
            Some((w, reply)) => answer(msg@) == Some((w, reply@)),
            None => answer(msg@) is None,
        },
{
    let args = &msg.args;
    match classify(msg.addr.as_str()) {
        Route::DescriptorEnd => match (get_int(args, 0), get_int(args, 1)) {
            (Some(ssid), Some(slot)) => Some(
                (Waiting::Descriptor { ssid, slot: one_less(slot) }, Reply::Described),
            ),
            _ => None,
        },
        Route::ParameterValue => match (
            get_index(args, 0),
            get_index(args, 1),
            get_index(args, 2),
            get_value(args, 3),
        ) {
            (Some(ssid), Some(slot), Some(param), Some(v)) => Some(
                (Waiting::Value { ssid, slot: one_less(slot), param }, Reply::Value(v)),
            ),
            _ => None,
        },
        Route::ParameterValues => match (
            get_index(args, 0),
            get_index(args, 1),
            get_index(args, 2),
        ) {
            (Some(ssid), Some(slot), Some(_)) => Some(
                (Waiting::Batch { ssid, slot: one_less(slot) }, Reply::Batch(read_values(args))),
            ),
            _ => None,
        },
        Route::SampleRate => match get_int(args, 0) {
            Some(rate) => Some((Waiting::SampleRate, Reply::SampleRate(rate))),
            None => None,
        },
        Route::LoopRange => Some((Waiting::LoopRange, Reply::LoopRange(read_loop(args)))),
        Route::AutoValue => match get_value(args, 0) {
            Some(v) => Some((Waiting::AutoValue, Reply::AutoValue(v))),
            None => None,
        },
        _ => None,
    }
}

/// Which requests still wait after a message.
pub open spec fn waiting_after<W>(p: Map<Waiting, W>, m: MessageView) -> Map<Waiting, W> {
    match answer(m) {
        Some((w, _)) => p.remove(w),
        None => p,
    }
}

/// The request that a message replies to, with the reply.
pub open spec fn delivered<W>(p: Map<Waiting, W>, m: MessageView) -> Option<(W, ReplyView)> {
    match answer(m) {
        Some((w, reply)) => if p.contains_key(w) {
            Some((p[w], reply))
        } else {
            None
        },
        None => None,
    }
}

/// Takes note of what a message reports, and finds the request that it replies to.
pub fn handle_message<W>(
    state: &mut ArdourState,
    pending: &mut PendingRequests<W>,
    msg: &OscMessage,
) -> (r: Option<Delivery<W>>)
    requires
        old(state).wf(),
        old(pending).wf(),
    ensures
        final(state).wf(),
        final(pending).wf(),
        final(state)@ == after_message(old(state)@, msg@),
        final(pending)@ == waiting_after(old(pending)@, msg@),
        match r {
            Some(d) => delivered(old(pending)@, msg@) == Some((d.to, d.reply@)),
            None => delivered(old(pending)@, msg@) is None,
        },
{
    note(state, msg, classify(msg.addr.as_str()));
    match read_answer(msg) {
        Some((w, reply)) => pending.deliver(w, reply),
        None => None,
    }
}

/// What is known after all of `msgs`, in order.
pub open spec fn after_messages(s: StateView, msgs: Seq<MessageView>) -> StateView
    decreases msgs.len(),
{
    if msgs.len() == 0 {
        s
    } else {
        after_message(after_messages(s, msgs.drop_last()), msgs.last())
    }
}

/// Which requests still wait after all of `msgs`, in order.
pub open spec fn waiting_after_all<W>(
    p: Map<Waiting, W>,
    msgs: Seq<MessageView>,
) -> Map<Waiting, W>
    decreases msgs.len(),
{
    if msgs.len() == 0 {
        p
    } else {
        waiting_after(waiting_after_all(p, msgs.drop_last()), msgs.last())
    }
}

/// The requests that `msgs` reply to, with the replies, in order.
pub open spec fn all_delivered<W>(
    p: Map<Waiting, W>,
    msgs: Seq<MessageView>,
) -> Seq<(W, ReplyView)>
    decreases msgs.len(),
{
    if msgs.len() == 0 {
        Seq::empty()
    } else {
        all_delivered(p, msgs.drop_last()) + match delivered(
            waiting_after_all(p, msgs.drop_last()),
            msgs.last(),
        ) {
            Some(d) => seq![d],
            None => Seq::empty(),
        }
    }
}

/// What the deliveries of a list hold.
pub open spec fn deliveries_view<W>(list: Seq<Delivery<W>>) -> Seq<(W, ReplyView)> {
    list.map_values(|d: Delivery<W>| (d.to, d.reply@))
}

/// Messages in a row can be handled in two parts, the second from where the first ended.
pub proof fn lemma_messages_in_parts<W>(
    s: StateView,
    p: Map<Waiting, W>,
    a: Seq<MessageView>,
    b: Seq<MessageView>,
)
    ensures
        after_messages(s, a + b) == after_messages(after_messages(s, a), b),
        waiting_after_all(p, a + b) == waiting_after_all(waiting_after_all(p, a), b),
        all_delivered(p, a + b) == all_delivered(p, a) + all_delivered(
            waiting_after_all(p, a),
            b,
        ),
    decreases b.len(),
{
    if b.len() == 0 {
        assert(a + b =~= a);
        assert(all_delivered(p, a) + Seq::<(W, ReplyView)>::empty() =~= all_delivered(p, a));
    } else {
        assert((a + b).drop_last() =~= a + b.drop_last());
        lemma_messages_in_parts(s, p, a, b.drop_last());
        assert(all_delivered(p, a + b) =~= all_delivered(p, a) + all_delivered(
            waiting_after_all(p, a),
            b,
        ));
    }
}

/// Handles the messages of a packet and adds what they deliver to `out`.
fn handle_into<W>(
    state: &mut ArdourState,
    pending: &mut PendingRequests<W>,
    packet: &OscPacket,
    out: &mut Vec<Delivery<W>>,
)
    requires
        old(state).wf(),
        old(pending).wf(),
    ensures
        final(state).wf(),
        final(pending).wf(),
        final(state)@ == after_messages(old(state)@, packet.messages()),
        final(pending)@ == waiting_after_all(old(pending)@, packet.messages()),
        deliveries_view(final(out)@) == deliveries_view(old(out)@) + all_delivered(
            old(pending)@,
            packet.messages(),
        ),
    decreases packet,
{
    match packet {
        OscPacket::Message(msg) => {
            let ghost one = seq![msg@];
            proof {
                reveal_with_fuel(after_messages, 2);
                reveal_with_fuel(waiting_after_all, 2);
                reveal_with_fuel(all_delivered, 2);
                assert(one.drop_last() =~= Seq::<MessageView>::empty());
                assert(one.last() == msg@);
            }
            match handle_message(state, pending, msg) {
                Some(d) => {
                    out.push(d);
                },
                None => {},
            }
            assert(deliveries_view(out@) =~= deliveries_view(old(out)@) + all_delivered(
                old(pending)@,
                one,
            ));
        },
        OscPacket::Bundle(packets) => {
            let mut i: usize = 0;
            assert(deliveries_view(out@) =~= deliveries_view(old(out)@) + Seq::<
                (W, ReplyView),
            >::empty());
            while i < packets.len()
                invariant
                    i <= packets.len(),
                    *packet == OscPacket::Bundle(*packets),
                    state.wf(),
                    pending.wf(),
                    state@ == after_messages(old(state)@, messages_of(packets@, i as nat)),
                    pending@ == waiting_after_all(
                        old(pending)@,
                        messages_of(packets@, i as nat),
                    ),
                    deliveries_view(out@) == deliveries_view(old(out)@) + all_delivered(
                        old(pending)@,
                        messages_of(packets@, i as nat),
                    ),
                decreases packets.len() - i,
            {
                let ghost done = messages_of(packets@, i as nat);
                let ghost next = packets@[i as int].messages();
                proof {
                    assert(decreases_to!(packet => packet->Bundle_0));
                    assert(decreases_to!(packets => packets@));
                    assert(decreases_to!(packets@ => packets@[i as int]));
                }
                handle_into(state, pending, &packets[i], out);
                proof {
                    lemma_messages_in_parts(old(state)@, old(pending)@, done, next);
                    assert(messages_of(packets@, (i + 1) as nat) == done + next);
                    assert(deliveries_view(out@) =~= deliveries_view(old(out)@) + all_delivered(
                        old(pending)@,
                        done + next,
                    ));
                }
                i = i + 1;
            }
        },
    }
}

/// Takes note of what the messages of a packet report, in order, and finds the requests
/// that they reply to.
pub fn handle_osc_packet<W>(
    state: &mut ArdourState,
    pending: &mut PendingRequests<W>,
    packet: &OscPacket,
) -> (r: Vec<Delivery<W>>)
    requires
        old(state).wf(),
        old(pending).wf(),
    ensures
        final(state).wf(),
        final(pending).wf(),
        final(state)@ == after_messages(old(state)@, packet.messages()),
        final(pending)@ == waiting_after_all(old(pending)@, packet.messages()),
        deliveries_view(r@) == all_delivered(old(pending)@, packet.messages()),
{
    let mut r: Vec<Delivery<W>> = Vec::new();
    handle_into(state, pending, packet, &mut r);
    assert(deliveries_view(r@) =~= all_delivered(old(pending)@, packet.messages()));
    r
}

/// Reads a packet from the bytes of a datagram and handles it. Bytes that cannot be
/// decoded change nothing; the error text of the decoder comes back.
pub fn receive<W>(
    state: &mut ArdourState,
    pending: &mut PendingRequests<W>,
    bytes: &[u8],
) -> (r: Result<Vec<Delivery<W>>, String>)
    requires
        old(state).wf(),
        old(pending).wf(),
        bytes@.len() <= MAX_PACKET,
    ensures
        final(state).wf(),
        final(pending).wf(),
        match decoded(bytes@) {
            Ok(msgs) => {
                &&& r matches Ok(list) && deliveries_view(list@) == all_delivered(
                    old(pending)@,
                    msgs,
                )
                &&& final(state)@ == after_messages(old(state)@, msgs)
                &&& final(pending)@ == waiting_after_all(old(pending)@, msgs)
            },
            Err(text) => {
                &&& r matches Err(e) && e@ == text
                &&& final(state)@ == old(state)@
                &&& final(pending)@ == old(pending)@
            },
        },
{
    match decode_packet(bytes) {
        Ok(packet) => Ok(handle_osc_packet(state, pending, &packet)),
        Err(e) => Err(e),
    }
}

} // verus!
