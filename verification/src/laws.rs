//! What holds of the library as a whole.

use crate::action::{
    connection_lost, reported, send_error_text, Action, AfterAwait, AfterSend, AfterSleep,
    AutomationQuery, FailureView, ParameterChange, RegionChange, SendFailure,
};
use crate::automation::{point_written, region_begun, route_number};
use crate::feedback::{
    after_message, after_messages, after_parameter, after_plugin_inserted, after_plugin_list,
    after_strip_select, all_delivered, answer, delivered, index_at, int_at, listed_plugins,
    listed_strips, listed_type_text, reported_value, route, text_at, value_at, waiting_after,
    waiting_after_all, Route,
};
use crate::osc::{messages_of, ArgView, MessageView, OscMessage, OscPacket};
use crate::pending::{Reply, ReplyView, WaitError, Waiting};
use crate::readings::{
    belongs, known_parameters, lemma_known_parameters, lemma_slots_among, reading, shown,
    slots_among,
};
use crate::reply::ToolReplyView;
use crate::resources::{
    all_readings, known_reading, resource, slot_readings, strip_readings, strips_among,
    ResourceView,
};
use crate::selection::{select_strip_message, strip_selected_state};
use crate::service::ArdourService;
use crate::single::Single;
use crate::slots::{after, before, lemma_counted_back};
use crate::state::{
    ends_with_a_strip, numbered, padded, placeholder, strips_in_place, with_strip, ArdourState,
    ParameterView, PlaybackStatus, StateView, TrackView,
};
use crate::table::{in_order, lemma_in_order, ParamKey};
use crate::text::{
    begins_with, behind, decimal_text, first_segment, has_text, has_text_at, is_digit,
    lemma_decimal_reads_back, lemma_first_segment, lemma_nat_text_digits, lemma_text_within,
    nat_text, parsed_i32,
};
use crate::tools::{
    goes_on_after_await, goes_on_after_send, goes_on_after_sleep, state_after_send,
};
use vstd::prelude::*;
use vstd::string::*;

verus! {

/// Placeholders put no strip out of its place.
proof fn lemma_padded_in_place(strips: Seq<TrackView>, n: nat)
    requires
        strips_in_place(strips),
    ensures
        strips_in_place(padded(strips, n)),
        padded(strips, n).len() >= n,
{
    let all = padded(strips, n);
    assert forall|i: int| 0 <= i < all.len() implies (#[trigger] all[i]) == placeholder()
        || all[i].id == i + 1 by {
        if i < strips.len() {
            assert(all[i] == strips[i]);
        }
    }
}

/// A list of strips puts each of them into its place.
proof fn lemma_listed_in_place(args: Seq<ArgView>, i: int, strips: Seq<TrackView>)
    requires
        strips_in_place(strips),
        ends_with_a_strip(strips),
    ensures
        strips_in_place(listed_strips(args, i, strips)),
        ends_with_a_strip(listed_strips(args, i, strips)),
    decreases args.len() - i,
{
    if 0 <= i && i + 2 < args.len() {
        match (index_at(args, i), text_at(args, i + 1)) {
            (Some(ssid), Some(name)) => {
                if ssid > 0 {
                    lemma_padded_in_place(strips, ssid as nat);
                }
                let next = if ssid > 0 {
                    with_strip(strips, ssid, name, listed_type_text(args[i + 2]))
                } else {
                    strips
                };
                assert(strips_in_place(next));
                lemma_listed_in_place(args, i + 3, next);
            },
            _ => {},
        }
    }
}

/// Whatever the workstation reports, what is known stays coherent.
pub proof fn lemma_message_keeps_coherent(s: StateView, m: MessageView)
    requires
        s.coherent(),
    ensures
        after_message(s, m).coherent(),
{
    assert(strips_in_place(s.strips));
    let t = after_message(s, m);
    match route(m.addr) {
        Route::StripName(Some(ssid)) => {
            if ssid > 0 {
                lemma_padded_in_place(s.strips, ssid as nat);
            }
        },
        Route::StripList => {
            lemma_listed_in_place(m.args, 0, Seq::empty());
        },
        Route::DescriptorEnd => {
            match (int_at(m.args, 0), int_at(m.args, 1)) {
                (Some(ssid), Some(slot)) => {
                    assert(numbered(s.ports, ssid, before(slot)).dom() =~= s.ports.dom());
                },
                _ => {},
            }
        },
        _ => {},
    }
    assert(strips_in_place(t.strips));
}

/// Whatever the workstation reports in a row, what is known stays coherent.
pub proof fn lemma_messages_keep_coherent(s: StateView, msgs: Seq<MessageView>)
    requires
        s.coherent(),
    ensures
        after_messages(s, msgs).coherent(),
    decreases msgs.len(),
{
    if msgs.len() > 0 {
        lemma_messages_keep_coherent(s, msgs.drop_last());
        lemma_message_keeps_coherent(after_messages(s, msgs.drop_last()), msgs.last());
    }
}

/// A message about something else changes nothing and replies to nobody.
pub proof fn lemma_other_message_changes_nothing<W>(
    s: StateView,
    p: Map<Waiting, W>,
    m: MessageView,
)
    requires
        route(m.addr) == Route::Other,
    ensures
        after_message(s, m) == s,
        waiting_after(p, m) == p,
        delivered(p, m) is None,
{
}

/// The reply that a message holds is of the kind that is waited for.
pub proof fn lemma_reply_suits(m: MessageView)
    ensures
        answer(m) matches Some((w, reply)) ==> reply.suits(w),
{
}

/// A request that waits is told the reply, once; a request that waits for something else
/// goes on waiting.
pub proof fn lemma_reply_reaches_request<W>(
    p: Map<Waiting, W>,
    w: Waiting,
    request: W,
    m: MessageView,
    reply: ReplyView,
)
    requires
        answer(m) == Some((w, reply)),
    ensures
        delivered(p.insert(w, request), m) == Some((request, reply)),
        delivered(waiting_after(p.insert(w, request), m), m) is None,
        forall|other: Waiting|
            other != w ==> (#[trigger] waiting_after(p, m).contains_key(other) <==> p.contains_key(
                other,
            )) && (p.contains_key(other) ==> waiting_after(p, m)[other] == p[other]),
{
}

/// Only replies of the workstation end a wait: a message that holds none leaves all
/// requests waiting.
pub proof fn lemma_requests_go_on_waiting<W>(p: Map<Waiting, W>, m: MessageView)
    requires
        answer(m) is None,
    ensures
        waiting_after(p, m) == p,
        delivered(p, m) is None,
{
}

/// A report without any plugin does not take the place of a list that has some.
pub proof fn lemma_empty_list_is_ignored(s: StateView, args: Seq<ArgView>, ssid: i32)
    requires
        index_at(args, 0) == Some(ssid),
        listed_plugins(args, 1).len() == 0,
        s.plugins.contains_key(ssid),
    ensures
        after_plugin_list(s, args) == s,
{
}

/// A report about one strip leaves what is known of the plugins on the others.
pub proof fn lemma_lists_are_separate(s: StateView, args: Seq<ArgView>, other: i32)
    requires
        index_at(args, 0) != Some(other),
    ensures
        after_plugin_list(s, args).plugins.contains_key(other) <==> s.plugins.contains_key(other),
        s.plugins.contains_key(other) ==> after_plugin_list(s, args).plugins[other]
            == s.plugins[other],
        after_plugin_inserted(s, args).plugins.contains_key(other) <==> s.plugins.contains_key(
            other,
        ),
        s.plugins.contains_key(other) ==> after_plugin_inserted(s, args).plugins[other]
            == s.plugins[other],
{
}

/// The selection of a strip, be it made or reported, ends the selection of a plugin and
/// leaves what is known of plugins and parameters.
pub proof fn lemma_strip_selection(s: StateView, args: Seq<ArgView>, rid: i32)
    requires
        rid > 0,
        int_at(args, 0) == Some(rid),
    ensures
        after_strip_select(s, args) == strip_selected_state(s, rid, Ok(())),
        after_strip_select(s, args).selected_strip == Some(rid),
        after_strip_select(s, args).selected_slot is None,
        after_strip_select(s, args).plugins == s.plugins,
        after_strip_select(s, args).values == s.values,
        after_strip_select(s, args).names == s.names,
        after_strip_select(s, args).ports == s.ports,
{
}

/// A tool never changes what is known but for the selection, and that only where its
/// message was sent.
pub proof fn lemma_tools_only_select(
    step: AfterSend,
    outcome: Result<(), SendFailure>,
    s: StateView,
)
    ensures
        state_after_send(step, outcome, s) == (StateView {
            selected_strip: state_after_send(step, outcome, s).selected_strip,
            selected_slot: state_after_send(step, outcome, s).selected_slot,
            ..s
        }),
        outcome is Err ==> state_after_send(step, outcome, s) == s,
        s.coherent() ==> state_after_send(step, outcome, s).coherent(),
{
}

/// A message that could not be sent is never reported as sent.
pub proof fn lemma_failed_send_is_reported(
    done: ToolReplyView,
    failed: FailureView,
    e: SendFailure,
)
    ensures
        reported(done, failed, Err(e)) is Error || reported(done, failed, Err(e)) is InternalError,
{
}

/// That nobody listens can still be told from the text that says why a message could not
/// be sent.
pub proof fn lemma_lost_connection_shows(text: Seq<char>)
    requires
        connection_lost(text),
    ensures
        connection_lost(send_error_text(text)),
{
    let head = "OSC connection to Ardour lost: "@;
    let tail = ". Ardour may have crashed or OSC server stopped."@;
    lemma_text_inside(head, text, tail, "Connection refused"@);
    lemma_text_inside(head, text, tail, "os error 61"@);
}

/// What occurs in a text occurs in any text around it.
proof fn lemma_text_inside(head: Seq<char>, text: Seq<char>, tail: Seq<char>, pattern: Seq<char>)
    ensures
        has_text(text, pattern) ==> has_text(head + text + tail, pattern),
{
    if has_text(text, pattern) {
        let all = head + text + tail;
        assert(all.subrange(head.len() as int, (head.len() + text.len()) as int) =~= text);
        assert(has_text_at(all, text, head.len() as int));
        lemma_text_within(all, text, pattern);
    }
}

/// A parameter of a plugin is set by way of the selection only where it could not be set
/// by itself: once the first message was sent, nothing else is.
pub proof fn lemma_parameter_is_set_by_itself_first(
    change: ParameterChange,
    outcome: Result<(), SendFailure>,
    s: StateView,
    r: Action,
)
    requires
        goes_on_after_send(AfterSend::ChangeTried(change), outcome, s, r),
    ensures
        outcome is Ok <==> r is Finish,
        outcome is Ok ==> r->Finish_0@ is Success,
        outcome is Err <==> r is Send,
        outcome is Err ==> r->Send_0@ == select_strip_message(change.rid),
{
}

/// Where the value that a control has is to be written, what is replied to the request for
/// it is what is written.
pub proof fn lemma_current_value_is_written(
    query: AutomationQuery,
    value: Single,
    s: StateView,
    asked: Action,
    t: StateView,
    written: Action,
)
    requires
        goes_on_after_send(AfterSend::CurrentValueRequested(query), Ok(()), s, asked),
        asked matches Action::Await(_, _, step) ==> goes_on_after_await(
            step,
            Ok(Reply::AutoValue(value)),
            t,
            written,
        ),
    ensures
        asked matches Action::Await(w, _, _) && w == Waiting::AutoValue,
        point_written(query, value, written),
{
}

/// Both messages of a change in a region are for the same route, the one that is known
/// under its number or name, whether or not the first could be sent.
pub proof fn lemma_region_messages_agree(
    known: StateView,
    change: RegionChange,
    uri: Seq<char>,
    outcome: Result<(), SendFailure>,
    first: Action,
    s: StateView,
    wait: Action,
    t: StateView,
    last: Action,
)
    requires
        route_number(known, change.route@) == Some(change.route_id),
        region_begun(change, Some(uri), first),
        first matches Action::Send(_, step) ==> goes_on_after_send(step, outcome, s, wait),
        wait matches Action::Sleep(_, step) ==> goes_on_after_sleep(step, t, last),
    ensures
        first matches Action::Send(m, _) && int_at(m@.args, 0) == route_number(
            known,
            change.route@,
        ),
        last matches Action::Send(m, _) && int_at(m@.args, 0) == route_number(
            known,
            change.route@,
        ),
{
}

/// The position of the playhead that was reported can be read.
pub proof fn lemma_frame_is_read_back(s: StateView, frame: i64)
    ensures
        resource(
            after_message(
                s,
                MessageView { addr: "/transport_frame"@, args: seq![ArgView::Long(frame)] },
            ),
            "ardour:/state/transport_frame"@,
        ) == Some(ResourceView::Text(decimal_text(frame as int))),
{
    let m = MessageView { addr: "/transport_frame"@, args: seq![ArgView::Long(frame)] };
    reveal_strlit("/transport_frame");
    reveal_strlit("/transport_state");
    reveal_strlit("/strip/name/");
    reveal_strlit("/strip/type/");
    reveal_strlit("ardour:/state/playback");
    reveal_strlit("ardour:/strip/list");
    reveal_strlit("ardour:/state/transport_frame");
    assert(m.addr[1] == 't');
    assert("/strip/name/"@[1] == 's');
    assert("/strip/type/"@[1] == 's');
    lemma_other_start(m.addr, "/strip/name/"@, 1);
    lemma_other_start(m.addr, "/strip/type/"@, 1);
    assert(m.addr[11] == 'f');
    assert("/transport_state"@[11] == 's');
    assert(route(m.addr) == Route::TransportFrame);
    assert("ardour:/state/transport_frame"@.len() != "ardour:/state/playback"@.len());
    assert("ardour:/state/transport_frame"@.len() != "ardour:/strip/list"@.len());
}

/// Texts that differ at one place do not begin alike.
pub proof fn lemma_other_start(s: Seq<char>, prefix: Seq<char>, i: int)
    requires
        0 <= i < prefix.len(),
        i >= s.len() || s[i] != prefix[i],
    ensures
        !begins_with(s, prefix),
{
    if begins_with(s, prefix) {
        assert(s.subrange(0, prefix.len() as int)[i] == s[i]);
    }
}

/// What was reported of the transport can be read.
pub proof fn lemma_playback_is_read_back(s: StateView, rolling: bool)
    ensures
        resource(
            after_message(
                s,
                MessageView {
                    addr: "/strip/play"@,
                    args: seq![ArgView::Int(if rolling { 1 } else { 0 })],
                },
            ),
            "ardour:/state/playback"@,
        ) == Some(
            ResourceView::Text(
                if rolling {
                    "Playing"@
                } else {
                    "Stopped"@
                },
            ),
        ),
{
    let m = MessageView {
        addr: "/strip/play"@,
        args: seq![ArgView::Int(if rolling { 1 } else { 0 })],
    };
    reveal_strlit("/strip/play");
    reveal_strlit("/transport_frame");
    reveal_strlit("/transport_state");
    reveal_strlit("/strip/name/");
    reveal_strlit("/strip/type/");
    assert(m.addr[7] == 'p');
    assert("/strip/name/"@[7] == 'n');
    assert("/strip/type/"@[7] == 't');
    lemma_other_start(m.addr, "/strip/name/"@, 7);
    lemma_other_start(m.addr, "/strip/type/"@, 7);
    assert(m.addr.len() != "/transport_frame"@.len());
    assert(m.addr.len() != "/transport_state"@.len());
    assert(route(m.addr) == Route::StripPlay);
}

/// A value that was reported for the selected plugin is among the parameters that are
/// shown for it.
pub proof fn lemma_selected_value_is_read_back(
    s: StateView,
    ssid: i32,
    slot: i32,
    param: i32,
    args: Seq<ArgView>,
    v: Single,
)
    requires
        s.coherent(),
        s.selected_strip == Some(ssid),
        s.selected_slot == Some(slot),
        reported_value(args) == Some(v),
    ensures
        exists|p: ParameterView| #[trigger]
            known_parameters(after_parameter(s, param, args), ssid, slot).contains(p) && p.param_id
                == param && p.value == v,
{
    let t = after_parameter(s, param, args);
    let k = ParamKey { ssid, slot, param };
    assert(t.values[k] == v);
    lemma_known_parameters(t, ssid, slot, k);
    assert(known_parameters(t, ssid, slot).contains(shown(t, slot)(k)));
}

/// A parameter that has a value is among all readings, under its strip and its slot, with
/// its name and that value.
pub proof fn lemma_value_is_read_back(s: StateView, k: ParamKey)
    requires
        s.coherent(),
        s.values.contains_key(k),
    ensures
        exists|i: int, j: int, n: int|
            0 <= i < all_readings(s).len() && 0 <= j < all_readings(s)[i].plugins.len() && 0 <= n
                < all_readings(s)[i].plugins[j].parameters.len() && all_readings(s)[i].id == k.ssid
                && all_readings(s)[i].plugins[j].slot == k.slot && (
            #[trigger] all_readings(s)[i].plugins[j].parameters[n]) == reading(s, k, s.values[k]),
{
    let keys = in_order(s.values.dom());
    lemma_in_order(s.values.dom());
    assert(keys.contains(k));
    let at = choose|at: int| 0 <= at < keys.len() && keys[at] == k;
    lemma_strips_among(keys);
    lemma_slots_among(keys, k.ssid);
    let strips = strips_among(keys);
    assert(keys[at].ssid == k.ssid && keys[at].slot == k.slot);
    assert(strips.contains(k.ssid));
    let i = choose|i: int| 0 <= i < strips.len() && strips[i] == k.ssid;
    let slots = slots_among(keys, k.ssid);
    assert(slots.contains(k.slot));
    let j = choose|j: int| 0 <= j < slots.len() && slots[j] == k.slot;
    let mine = keys.filter(belongs(k.ssid, k.slot));
    keys.lemma_filter_contains(belongs(k.ssid, k.slot), at);
    assert(mine.contains(k));
    let n = choose|n: int| 0 <= n < mine.len() && mine[n] == k;
    let all = all_readings(s);
    assert(all[i] == strip_readings(s, keys)(k.ssid));
    assert(all[i].plugins[j] == slot_readings(s, keys, k.ssid)(k.slot));
    assert(all[i].plugins[j].parameters[n] == known_reading(s)(k));
}

/// The strips among `keys` are all there, none of them twice.
proof fn lemma_strips_among(keys: Seq<ParamKey>)
    ensures
        strips_among(keys).no_duplicates(),
        forall|i: int|
            0 <= i < keys.len() ==> strips_among(keys).contains((#[trigger] keys[i]).ssid),
    decreases keys.len(),
{
    if keys.len() > 0 {
        let rest = keys.drop_last();
        let head = strips_among(rest);
        let all = strips_among(keys);
        lemma_strips_among(rest);
        assert forall|i: int| 0 <= i < keys.len() implies all.contains(
            (#[trigger] keys[i]).ssid,
        ) by {
            if i < rest.len() {
                assert(rest[i] == keys[i]);
            }
            if head.contains(keys[i].ssid) {
                let n = choose|n: int| 0 <= n < head.len() && head[n] == keys[i].ssid;
                assert(all[n] == keys[i].ssid);
            } else {
                assert(all[head.len() as int] == keys[i].ssid);
            }
        }
    }
}

/// The value that was reported for a parameter is what is known of it, whatever slot is
/// selected, and it is what the request that waits for it is told.
pub proof fn lemma_reported_value<W>(
    s: StateView,
    p: Map<Waiting, W>,
    m: MessageView,
    k: ParamKey,
    v: Single,
    request: W,
)
    requires
        route(m.addr) == Route::ParameterValue,
        index_at(m.args, 0) == Some(k.ssid),
        index_at(m.args, 1) == Some(after(k.slot)),
        index_at(m.args, 2) == Some(k.param),
        value_at(m.args, 3) == Some(v),
    ensures
        after_message(s, m).values == s.values.insert(k, v),
        delivered(
            p.insert(Waiting::Value { ssid: k.ssid, slot: k.slot, param: k.param }, request),
            m,
        ) == Some((request, ReplyView::Value(v))),
{
    lemma_counted_back(k.slot);
}

/// A prefix comes off again.
proof fn lemma_behind_prefix(prefix: Seq<char>, rest: Seq<char>)
    ensures
        begins_with(prefix + rest, prefix),
        behind(prefix + rest, prefix.len()) == rest,
{
    assert((prefix + rest).subrange(0, prefix.len() as int) =~= prefix);
    assert(behind(prefix + rest, prefix.len()) =~= rest);
}

/// The text of a number begins with a digit or with a minus sign.
proof fn lemma_number_start(n: i32)
    ensures
        decimal_text(n as int).len() > 0,
        is_digit(decimal_text(n as int)[0]) || decimal_text(n as int)[0] == '-',
{
    if n >= 0 {
        lemma_nat_text_digits(n as nat);
    }
}

/// The number of a strip can be read from the address of a message about its name or its
/// type.
pub proof fn lemma_strip_addresses(n: i32)
    ensures
        route("/strip/name/"@ + decimal_text(n as int)) == Route::StripName(Some(n)),
        route("/strip/type/"@ + decimal_text(n as int)) == Route::StripType(Some(n)),
{
    reveal_strlit("/strip/name/");
    reveal_strlit("/strip/type/");
    let t = decimal_text(n as int);
    lemma_decimal_reads_back(n);
    lemma_behind_prefix("/strip/name/"@, t);
    lemma_behind_prefix("/strip/type/"@, t);
    lemma_other_start("/strip/type/"@ + t, "/strip/name/"@, 7);
}

/// What is not about a strip or the transport, by its beginning.
proof fn lemma_select_address(addr: Seq<char>)
    requires
        begins_with(addr, "/select/plugin/"@),
    ensures
        !begins_with(addr, "/strip/name/"@),
        !begins_with(addr, "/strip/type/"@),
        addr != "/transport_state"@,
        addr != "/transport_frame"@,
        addr != "/strip/play"@,
        addr != "/select/plugin"@,
{
    reveal_strlit("/select/plugin/");
    reveal_strlit("/select/plugin");
    reveal_strlit("/strip/name/");
    reveal_strlit("/strip/type/");
    reveal_strlit("/transport_state");
    reveal_strlit("/transport_frame");
    reveal_strlit("/strip/play");
    assert(addr.subrange(0, 15)[2] == addr[2]);
    assert(addr[2] == 'e');
    lemma_other_start(addr, "/strip/name/"@, 2);
    lemma_other_start(addr, "/strip/type/"@, 2);
    assert("/transport_state"@[2] == 'r');
    assert("/transport_frame"@[2] == 'r');
    assert("/strip/play"@[2] == 't');
}

/// The number of a parameter can be read from the address of a message about its value or
/// its name, and the two are told apart.
pub proof fn lemma_parameter_addresses(n: i32)
    ensures
        route("/select/plugin/parameter/"@ + decimal_text(n as int)) == Route::Parameter(Some(n)),
        route("/select/plugin/parameter/name/"@ + decimal_text(n as int)) == Route::ParameterName(
            Some(n),
        ),
{
    reveal_strlit("/select/plugin/");
    reveal_strlit("/select/plugin/parameter/");
    reveal_strlit("/select/plugin/parameter/name");
    reveal_strlit("/select/plugin/parameter/name/");
    let t = decimal_text(n as int);
    lemma_decimal_reads_back(n);
    lemma_number_start(n);
    let value = "/select/plugin/parameter/"@ + t;
    let name = "/select/plugin/parameter/name/"@ + t;
    lemma_behind_prefix("/select/plugin/parameter/"@, t);
    lemma_behind_prefix("/select/plugin/parameter/name/"@, t);
    assert(value.subrange(0, 15) =~= "/select/plugin/"@);
    assert(name.subrange(0, 15) =~= "/select/plugin/"@);
    lemma_select_address(value);
    lemma_select_address(name);
    assert(value[25] == t[0]);
    lemma_other_start(value, "/select/plugin/parameter/name"@, 25);
    assert(name.subrange(0, 29) =~= "/select/plugin/parameter/name"@);
}

/// The slot of a plugin can be read from the address of a message about its selection.
pub proof fn lemma_plugin_address(n: i32)
    ensures
        route("/select/plugin/"@ + decimal_text(n as int)) == Route::PluginSelectedAt(Some(n)),
{
    reveal_strlit("/select/plugin/");
    reveal_strlit("/select/plugin/parameter/");
    reveal_strlit("/select/plugin/parameter/name/");
    let t = decimal_text(n as int);
    lemma_decimal_reads_back(n);
    lemma_number_start(n);
    let addr = "/select/plugin/"@ + t;
    lemma_behind_prefix("/select/plugin/"@, t);
    lemma_select_address(addr);
    assert(addr[15] == t[0]);
    lemma_other_start(addr, "/select/plugin/parameter/"@, 15);
    lemma_other_start(addr, "/select/plugin/parameter/name/"@, 15);
    lemma_number_has_no_slash(n);
    lemma_first_segment_is_all(t);
}

/// The slot of a plugin stands in front of whatever follows it in the address.
pub proof fn lemma_longer_plugin_address(n: i32, rest: Seq<char>)
    ensures
        route("/select/plugin/"@ + (decimal_text(n as int) + "/"@ + rest))
            == Route::PluginSelectedAt(Some(n)),
{
    reveal_strlit("/");
    reveal_strlit("/select/plugin/");
    reveal_strlit("/select/plugin/parameter/");
    reveal_strlit("/select/plugin/parameter/name/");
    let number = decimal_text(n as int);
    let t = number + "/"@ + rest;
    lemma_decimal_reads_back(n);
    lemma_number_start(n);
    let addr = "/select/plugin/"@ + t;
    lemma_behind_prefix("/select/plugin/"@, t);
    lemma_select_address(addr);
    assert(addr[15] == number[0]);
    lemma_other_start(addr, "/select/plugin/parameter/"@, 15);
    lemma_other_start(addr, "/select/plugin/parameter/name/"@, 15);
    lemma_number_has_no_slash(n);
    lemma_first_segment(t, number.len() as int);
    assert(t.take(number.len() as int) =~= number);
}

/// An address that names a strip by something else than a number names none.
pub proof fn lemma_addresses_without_number(t: Seq<char>)
    requires
        parsed_i32(t) is None,
    ensures
        route("/strip/name/"@ + t) == Route::StripName(None),
        route("/strip/type/"@ + t) == Route::StripType(None),
{
    reveal_strlit("/strip/name/");
    reveal_strlit("/strip/type/");
    lemma_behind_prefix("/strip/name/"@, t);
    lemma_behind_prefix("/strip/type/"@, t);
    lemma_other_start("/strip/type/"@ + t, "/strip/name/"@, 7);
}

/// No slash stands in the text of a number.
proof fn lemma_number_has_no_slash(n: i32)
    ensures
        forall|i: int| 0 <= i < decimal_text(n as int).len() ==> decimal_text(n as int)[i] != '/',
{
    let t = decimal_text(n as int);
    if n >= 0 {
        lemma_nat_text_digits(n as nat);
        assert forall|i: int| 0 <= i < t.len() implies t[i] != '/' by {
            assert(is_digit(t[i]));
        }
    } else {
        let digits = nat_text((-(n as int)) as nat);
        lemma_nat_text_digits((-(n as int)) as nat);
        assert forall|i: int| 0 <= i < t.len() implies t[i] != '/' by {
            if i > 0 {
                assert(t[i] == digits[i - 1]);
                assert(is_digit(digits[i - 1]));
            }
        }
    }
}

/// A text without a slash is its own first part.
proof fn lemma_first_segment_is_all(t: Seq<char>)
    requires
        forall|i: int| 0 <= i < t.len() ==> t[i] != '/',
    ensures
        first_segment(t) == t,
    decreases t.len(),
{
    if t.len() > 0 {
        let rest = t.drop_first();
        assert forall|i: int| 0 <= i < rest.len() implies rest[i] != '/' by {
            assert(rest[i] == t[i + 1]);
        }
        lemma_first_segment_is_all(rest);
        assert(seq![t[0]] + rest =~= t);
    }
}

/// A message by itself is handled as it is, and a packet with one message holds just that.
pub proof fn lemma_one_message<W>(s: StateView, p: Map<Waiting, W>, m: OscMessage)
    ensures
        OscPacket::Message(m).messages() == seq![m@],
        after_messages(s, seq![m@]) == after_message(s, m@),
        waiting_after_all(p, seq![m@]) == waiting_after(p, m@),
        delivered(p, m@) matches Some(d) ==> all_delivered(p, seq![m@]) == seq![d],
        delivered(p, m@) is None ==> all_delivered(p, seq![m@]).len() == 0,
{
    reveal_with_fuel(after_messages, 2);
    reveal_with_fuel(waiting_after_all, 2);
    reveal_with_fuel(all_delivered, 2);
    let one = seq![m@];
    assert(one.drop_last() =~= Seq::<MessageView>::empty());
    match delivered(p, m@) {
        Some(d) => {
            assert(all_delivered(p, one) =~= seq![d]);
        },
        None => {},
    }
}

/// A bundle holds the messages of its packets, one packet after the other: with one more
/// packet at its end it holds the messages of that packet behind the others.
pub proof fn lemma_bundle_is_in_order(a: Vec<OscPacket>, b: Vec<OscPacket>, last: OscPacket)
    requires
        b@ == a@.push(last),
    ensures
        a@.len() == 0 ==> OscPacket::Bundle(a).messages().len() == 0,
        OscPacket::Bundle(b).messages() == OscPacket::Bundle(a).messages() + last.messages(),
{
    lemma_same_messages(a@, b@, a@.len());
}

/// Only the packets that count matter.
proof fn lemma_same_messages(a: Seq<OscPacket>, b: Seq<OscPacket>, n: nat)
    requires
        n <= a.len(),
        n <= b.len(),
        forall|i: int| 0 <= i < n ==> a[i] == b[i],
    ensures
        messages_of(a, n) == messages_of(b, n),
    decreases n,
{
    if n > 0 {
        lemma_same_messages(a, b, (n - 1) as nat);
    }
}

/// In the beginning nothing is known, and nobody waits.
pub proof fn lemma_nothing_is_known_at_first<W>(state: ArdourState, service: ArdourService<W>)
    requires
        call_ensures(ArdourState::new, (), state),
        call_ensures(ArdourService::<W>::new, (), service),
    ensures
        state@ == service.known(),
        state@.playback == PlaybackStatus::Unknown,
        state@.frame is None,
        state@.strips.len() == 0,
        state@.selected_strip is None && state@.selected_slot is None,
        forall|k: ParamKey|
            !(#[trigger] state@.values.contains_key(k)) && !state@.names.contains_key(k)
                && !state@.ports.contains_key(k),
        forall|ssid: i32| !(#[trigger] state@.plugins.contains_key(ssid)),
        forall|w: Waiting| !(#[trigger] service.waiting().contains_key(w)),
{
}

/// A tool goes on in the same way whether it is asked by itself or as a part of the service.
pub proof fn lemma_service_goes_on<W>(
    service: &ArdourService<W>,
    slept: AfterSleep,
    received: AfterAwait,
    outcome: Result<Reply, WaitError>,
    a: Action,
    b: Action,
)
    requires
        call_ensures(ArdourService::<W>::slept, (service, slept), a),
        call_ensures(ArdourService::<W>::received, (service, received, outcome), b),
    ensures
        goes_on_after_sleep(slept, service.known(), a),
        goes_on_after_await(received, outcome, service.known(), b),
{
}

} // verus!
