//! What the tools that send one message send, and what they reply.

use crate::action::{reports, Action, AfterSend, FailureView, Number, SendFailure};
use crate::commands::{
    access_action_tool, add_marker_tool, ffwd_tool, goto_end_tool, goto_start_tool,
    insert_strip_plugin_tool, locate_tool, loop_toggle_tool, next_marker_tool, prev_marker_tool,
    rec_enable_toggle_tool, redo_tool, rewind_tool, save_state_tool,
    set_selected_strip_pan_stereo_width_tool, set_strip_pan_stereo_width_tool,
    set_strip_plugin_active_tool, set_strip_polarity_tool, set_strip_send_enable_tool,
    set_strip_send_fader_tool, set_strip_send_gain_db_tool, set_track_gain_abs_tool,
    set_track_gain_db_tool, set_track_mute_tool, set_track_rec_enable_tool, set_track_solo_tool,
    set_track_trim_abs_tool, set_track_trim_db_tool, set_transport_speed_tool,
    toggle_all_rec_enables_tool, toggle_punch_in_tool, toggle_punch_out_tool, transport_play_tool,
    transport_stop_tool, undo_tool,
};
use crate::fader::{
    gain_in_range, lemma_gain_position_grows, lemma_gain_position_in_range,
    lemma_gain_position_is_half, lemma_gain_position_is_near_half, lemma_one_is_whole,
    lemma_trim_position_ends, lemma_trim_position_grows, lemma_trim_position_in_range,
    lemma_trim_position_is_part, trim_in_range,
};
use crate::osc::{ArgView, MessageView};
use crate::reply::{ToolReply, ToolReplyView};
use crate::single::{apart, single_of_int, whole, Single};
use crate::state::StateView;
use crate::text::decimal_text;
use crate::tools::goes_on_after_send;
use vstd::arithmetic::power2::*;
use vstd::prelude::*;
use vstd::string::*;

verus! {

/// Whether a tool sends a message to this address, with these arguments.
pub open spec fn sends(r: Action, addr: Seq<char>, args: Seq<ArgView>) -> bool {
    r matches Action::Send(m, _) && m@.addr == addr && m@.args == args
}

/// Whether a tool is done once its message was sent, and replies this.
pub open spec fn says(r: Action, text: Seq<char>) -> bool {
    r matches Action::Send(_, step) && forall|s: StateView, next: Action|
        #[trigger] goes_on_after_send(step, Ok(()), s, next) ==> (
        next matches Action::Finish(ToolReply::Success(t)) && t@ == text)
}

/// Whether a tool ends with an error where its message could not be sent: this text, and
/// then the reason.
pub open spec fn admits(r: Action, text: Seq<char>) -> bool {
    r matches Action::Send(_, step) && forall|e: SendFailure, s: StateView, next: Action|
        #[trigger] goes_on_after_send(step, Err(e), s, next) ==> (
        next matches Action::Finish(ToolReply::Error(t)) && t@ == text + e.text@)
}

/// Whether the call of a tool fails where its message could not be sent: this text, and
/// then the reason in full.
pub open spec fn fails(r: Action, text: Seq<char>) -> bool {
    r matches Action::Send(_, step) && forall|e: SendFailure, s: StateView, next: Action|
        #[trigger] goes_on_after_send(step, Err(e), s, next) ==> (
        next matches Action::Finish(ToolReply::InternalError(t)) && t@ == text + e.debug@)
}

/// Whether a tool sends nothing and replies this error.
pub open spec fn refuses(r: Action, text: Seq<char>) -> bool {
    r matches Action::Finish(ToolReply::Error(t)) && t@ == text
}

/// What a tool that reports what came of its message says.
proof fn lemma_reports(
    r: Action,
    addr: Seq<char>,
    args: Seq<ArgView>,
    done: Seq<char>,
    before: Seq<char>,
)
    requires
        reports(
            r,
            (MessageView { addr, args }),
            ToolReplyView::Success(done),
            (FailureView { before, behind: Seq::empty(), internal: false }),
        ),
    ensures
        sends(r, addr, args),
        says(r, done),
        admits(r, before),
{
    let step = r->Send_1;
    assert forall|e: SendFailure, s: StateView, next: Action|
        #[trigger] goes_on_after_send(step, Err(e), s, next) implies (
    next matches Action::Finish(ToolReply::Error(t)) && t@ == before + e.text@) by {
        assert(before + e.text@ + Seq::<char>::empty() =~= before + e.text@);
    }
}

/// What a tool whose call fails says.
proof fn lemma_fails(r: Action, before: Seq<char>)
    requires
        r matches Action::Send(_, AfterSend::Report { done, failed }) && failed@ == (FailureView {
            before,
            behind: Seq::empty(),
            internal: true,
        }),
    ensures
        fails(r, before),
{
    let step = r->Send_1;
    assert forall|e: SendFailure, s: StateView, next: Action|
        #[trigger] goes_on_after_send(step, Err(e), s, next) implies (
    next matches Action::Finish(ToolReply::InternalError(t)) && t@ == before + e.debug@) by {
        assert(before + e.debug@ + Seq::<char>::empty() =~= before + e.debug@);
    }
}

/// Playback is started and stopped by messages of their own.
pub proof fn lemma_playback(transport_play: Action, transport_stop: Action)
    requires
        call_ensures(transport_play_tool, (), transport_play),
        call_ensures(transport_stop_tool, (), transport_stop),
    ensures
        sends(transport_play, "/transport_play"@, Seq::empty()),
        says(transport_play, "Playback started"@),
        admits(transport_play, "OSC send error: "@),
        sends(transport_stop, "/transport_stop"@, Seq::empty()),
        says(transport_stop, "Playback stopped"@),
        admits(transport_stop, "OSC send error: "@),
{
    lemma_reports(
        transport_play,
        "/transport_play"@,
        Seq::empty(),
        "Playback started"@,
        "OSC send error: "@,
    );
    lemma_reports(
        transport_stop,
        "/transport_stop"@,
        Seq::empty(),
        "Playback stopped"@,
        "OSC send error: "@,
    );
}

/// The playhead is moved to either end of the session by messages of their own.
pub proof fn lemma_jumps(goto_start: Action, goto_end: Action)
    requires
        call_ensures(goto_start_tool, (), goto_start),
        call_ensures(goto_end_tool, (), goto_end),
    ensures
        sends(goto_start, "/goto_start"@, Seq::empty()),
        says(goto_start, "Playhead moved to start"@),
        admits(goto_start, "OSC send error: "@),
        sends(goto_end, "/goto_end"@, Seq::empty()),
        says(goto_end, "Playhead moved to end"@),
        admits(goto_end, "OSC send error: "@),
{
    lemma_reports(
        goto_start,
        "/goto_start"@,
        Seq::empty(),
        "Playhead moved to start"@,
        "OSC send error: "@,
    );
    lemma_reports(
        goto_end,
        "/goto_end"@,
        Seq::empty(),
        "Playhead moved to end"@,
        "OSC send error: "@,
    );
}

/// Undoing and redoing are messages of their own.
pub proof fn lemma_undoing(undo: Action, redo: Action)
    requires
        call_ensures(undo_tool, (), undo),
        call_ensures(redo_tool, (), redo),
    ensures
        sends(undo, "/undo"@, Seq::empty()),
        says(undo, "Undo action performed"@),
        admits(undo, "OSC send error: "@),
        sends(redo, "/redo"@, Seq::empty()),
        says(redo, "Redo action performed"@),
        admits(redo, "OSC send error: "@),
{
    lemma_reports(undo, "/undo"@, Seq::empty(), "Undo action performed"@, "OSC send error: "@);
    lemma_reports(redo, "/redo"@, Seq::empty(), "Redo action performed"@, "OSC send error: "@);
}

/// Punching in and punching out are turned on and off each by its own message.
pub proof fn lemma_punching(toggle_punch_in: Action, toggle_punch_out: Action)
    requires
        call_ensures(toggle_punch_in_tool, (), toggle_punch_in),
        call_ensures(toggle_punch_out_tool, (), toggle_punch_out),
    ensures
        sends(toggle_punch_in, "/toggle_punch_in"@, Seq::empty()),
        says(toggle_punch_in, "Punch In toggled"@),
        admits(toggle_punch_in, "OSC send error: "@),
        sends(toggle_punch_out, "/toggle_punch_out"@, Seq::empty()),
        says(toggle_punch_out, "Punch Out toggled"@),
        admits(toggle_punch_out, "OSC send error: "@),
{
    lemma_reports(
        toggle_punch_in,
        "/toggle_punch_in"@,
        Seq::empty(),
        "Punch In toggled"@,
        "OSC send error: "@,
    );
    lemma_reports(
        toggle_punch_out,
        "/toggle_punch_out"@,
        Seq::empty(),
        "Punch Out toggled"@,
        "OSC send error: "@,
    );
}

/// Recording is turned on and off by one message, and for all tracks by another.
pub proof fn lemma_record_toggles(rec_enable_toggle: Action, toggle_all_rec_enables: Action)
    requires
        call_ensures(rec_enable_toggle_tool, (), rec_enable_toggle),
        call_ensures(toggle_all_rec_enables_tool, (), toggle_all_rec_enables),
    ensures
        sends(rec_enable_toggle, "/rec_enable_toggle"@, Seq::empty()),
        says(rec_enable_toggle, "Record Enable toggled"@),
        admits(rec_enable_toggle, "OSC send error: "@),
        sends(toggle_all_rec_enables, "/toggle_all_rec_enables"@, Seq::empty()),
        says(toggle_all_rec_enables, "All Record Enables toggled"@),
        admits(toggle_all_rec_enables, "OSC send error: "@),
{
    lemma_reports(
        rec_enable_toggle,
        "/rec_enable_toggle"@,
        Seq::empty(),
        "Record Enable toggled"@,
        "OSC send error: "@,
    );
    lemma_reports(
        toggle_all_rec_enables,
        "/toggle_all_rec_enables"@,
        Seq::empty(),
        "All Record Enables toggled"@,
        "OSC send error: "@,
    );
}

/// Winding forward and winding back are messages of their own.
pub proof fn lemma_winding(ffwd: Action, rewind: Action)
    requires
        call_ensures(ffwd_tool, (), ffwd),
        call_ensures(rewind_tool, (), rewind),
    ensures
        sends(ffwd, "/ffwd"@, Seq::empty()),
        says(ffwd, "Fast Forward activated"@),
        admits(ffwd, "OSC send error: "@),
        sends(rewind, "/rewind"@, Seq::empty()),
        says(rewind, "Rewind activated"@),
        admits(rewind, "OSC send error: "@),
{
    lemma_reports(ffwd, "/ffwd"@, Seq::empty(), "Fast Forward activated"@, "OSC send error: "@);
    lemma_reports(rewind, "/rewind"@, Seq::empty(), "Rewind activated"@, "OSC send error: "@);
}

/// Markers are added, and gone to in either direction, each by its own message.
pub proof fn lemma_markers(add_marker: Action, next_marker: Action, prev_marker: Action)
    requires
        call_ensures(add_marker_tool, (), add_marker),
        call_ensures(next_marker_tool, (), next_marker),
        call_ensures(prev_marker_tool, (), prev_marker),
    ensures
        sends(add_marker, "/add_marker"@, Seq::empty()),
        says(add_marker, "Marker added"@),
        admits(add_marker, "OSC send error: "@),
        sends(next_marker, "/next_marker"@, Seq::empty()),
        says(next_marker, "Moved to next marker"@),
        admits(next_marker, "OSC send error: "@),
        sends(prev_marker, "/prev_marker"@, Seq::empty()),
        says(prev_marker, "Moved to previous marker"@),
        admits(prev_marker, "OSC send error: "@),
{
    lemma_reports(add_marker, "/add_marker"@, Seq::empty(), "Marker added"@, "OSC send error: "@);
    lemma_reports(
        next_marker,
        "/next_marker"@,
        Seq::empty(),
        "Moved to next marker"@,
        "OSC send error: "@,
    );
    lemma_reports(
        prev_marker,
        "/prev_marker"@,
        Seq::empty(),
        "Moved to previous marker"@,
        "OSC send error: "@,
    );
}

/// Looping is turned on and off by one message, and the session is saved by another.
pub proof fn lemma_looping_and_saving(loop_toggle: Action, save_state: Action)
    requires
        call_ensures(loop_toggle_tool, (), loop_toggle),
        call_ensures(save_state_tool, (), save_state),
    ensures
        sends(loop_toggle, "/loop_toggle"@, Seq::empty()),
        says(loop_toggle, "Loop mode toggled"@),
        admits(loop_toggle, "OSC send error: "@),
        sends(save_state, "/save_state"@, Seq::empty()),
        says(save_state, "Session state saved"@),
        admits(save_state, "OSC send error: "@),
{
    lemma_reports(
        loop_toggle,
        "/loop_toggle"@,
        Seq::empty(),
        "Loop mode toggled"@,
        "OSC send error: "@,
    );
    lemma_reports(
        save_state,
        "/save_state"@,
        Seq::empty(),
        "Session state saved"@,
        "OSC send error: "@,
    );
}

/// A track is muted with 1 and unmuted with 0, under its own number.
pub proof fn lemma_mute(rid: i32, on: bool, r: Action)
    requires
        call_ensures(set_track_mute_tool, (rid, on), r),
    ensures
        sends(r, "/strip/mute"@, seq![ArgView::Int(rid), ArgView::Int(if on { 1 } else { 0 })]),
        says(
            r,
            "Track "@ + decimal_text(rid as int) + " mute state set to "@
                + (if on { "true"@ } else { "false"@ }),
        ),
        admits(r, "OSC send error for "@ + "/strip/mute"@ + ": "@),
{
    lemma_reports(
        r,
        "/strip/mute"@,
        seq![ArgView::Int(rid), ArgView::Int(if on { 1 } else { 0 })],
        "Track "@ + decimal_text(rid as int) + " mute state set to "@
            + (if on { "true"@ } else { "false"@ }),
        "OSC send error for "@ + "/strip/mute"@ + ": "@,
    );
}

/// The transport takes any speed from -8 to 8, as it is given; a call with a speed
/// outside of that fails, and nothing is sent.
pub proof fn lemma_speed(speed: Number, r: Action)
    requires
        call_ensures(set_transport_speed_tool, (speed,), r),
    ensures
        (speed.value.nan() || -8 * pow2(149) <= speed.value.units() <= 8 * pow2(149)) ==> sends(
            r,
            "/set_transport_speed"@,
            seq![ArgView::Float(speed.value)],
        ),
        (speed.value.nan() || -8 * pow2(149) <= speed.value.units() <= 8 * pow2(149)) ==> says(
            r,
            "Transport speed set to "@ + speed.text@,
        ),
        !(speed.value.nan() || -8 * pow2(149) <= speed.value.units() <= 8 * pow2(149)) ==> (
        r matches Action::Finish(ToolReply::InvalidParams(t)) && t@ == "Invalid transport speed: "@
            + speed.text@ + ". Must be between -8.0 and 8.0."@),
        (speed.value.nan() || -8 * pow2(149) <= speed.value.units() <= 8 * pow2(149)) ==> admits(
            r,
            "OSC send error for "@ + "/set_transport_speed"@ + ": "@,
        ),
{
    if speed.value.nan() || -8 * pow2(149) <= speed.value.units() <= 8 * pow2(149) {
        lemma_reports(
            r,
            "/set_transport_speed"@,
            seq![ArgView::Float(speed.value)],
            "Transport speed set to "@ + speed.text@,
            "OSC send error for "@ + "/set_transport_speed"@ + ": "@,
        );
    }
}

/// The playhead is moved to the very sample that is given, rolling or not as is said.
pub proof fn lemma_locate(spos: i64, roll: i32, r: Action)
    requires
        call_ensures(locate_tool, (spos, roll), r),
    ensures
        sends(r, "/locate"@, seq![ArgView::Long(spos), ArgView::Int(roll)]),
        says(
            r,
            "Located to sample "@ + decimal_text(spos as int) + " with roll state "@
                + decimal_text(roll as int),
        ),
        admits(r, "OSC send error for "@ + "/locate"@ + ": "@),
{
    lemma_reports(
        r,
        "/locate"@,
        seq![ArgView::Long(spos), ArgView::Int(roll)],
        "Located to sample "@ + decimal_text(spos as int) + " with roll state "@
            + decimal_text(roll as int),
        "OSC send error for "@ + "/locate"@ + ": "@,
    );
}

/// Solo is turned on with 1 and off with 0 for the track of that number, and nothing
/// else is accepted.
pub proof fn lemma_solo(rid: i32, solo_st: i32, r: Action)
    requires
        call_ensures(set_track_solo_tool, (rid, solo_st), r),
    ensures
        (solo_st == 0 || solo_st == 1) ==> sends(
            r,
            "/strip/solo"@,
            seq![ArgView::Int(rid), ArgView::Int(solo_st)],
        ),
        (solo_st == 0 || solo_st == 1) ==> says(
            r,
            "Track "@ + decimal_text(rid as int) + " solo state set to "@
                + decimal_text(solo_st as int),
        ),
        (solo_st == 0 || solo_st == 1) ==> admits(
            r,
            "OSC send error for "@ + "/strip/solo"@ + ": "@,
        ),
        !((solo_st == 0 || solo_st == 1)) ==> refuses(
            r,
            "Invalid solo_st value: "@ + decimal_text(solo_st as int)
                + ". Must be 0 (off) or 1 (on)."@,
        ),
{
    if (solo_st == 0 || solo_st == 1) {
        lemma_reports(
            r,
            "/strip/solo"@,
            seq![ArgView::Int(rid), ArgView::Int(solo_st)],
            "Track "@ + decimal_text(rid as int) + " solo state set to "@
                + decimal_text(solo_st as int),
            "OSC send error for "@ + "/strip/solo"@ + ": "@,
        );
    }
}

/// Recording is turned on with 1 and off with 0 for the track of that number, and
/// nothing else is accepted.
pub proof fn lemma_record(rid: i32, rec_st: i32, r: Action)
    requires
        call_ensures(set_track_rec_enable_tool, (rid, rec_st), r),
    ensures
        (rec_st == 0 || rec_st == 1) ==> sends(
            r,
            "/strip/recenable"@,
            seq![ArgView::Int(rid), ArgView::Int(rec_st)],
        ),
        (rec_st == 0 || rec_st == 1) ==> says(
            r,
            "Track "@ + decimal_text(rid as int) + " record enable state set to "@
                + decimal_text(rec_st as int),
        ),
        (rec_st == 0 || rec_st == 1) ==> admits(
            r,
            "OSC send error for "@ + "/strip/recenable"@ + ": "@,
        ),
        !((rec_st == 0 || rec_st == 1)) ==> refuses(
            r,
            "Invalid rec_st value: "@ + decimal_text(rec_st as int)
                + ". Must be 0 (off) or 1 (on)."@,
        ),
{
    if (rec_st == 0 || rec_st == 1) {
        lemma_reports(
            r,
            "/strip/recenable"@,
            seq![ArgView::Int(rid), ArgView::Int(rec_st)],
            "Track "@ + decimal_text(rid as int) + " record enable state set to "@
                + decimal_text(rec_st as int),
            "OSC send error for "@ + "/strip/recenable"@ + ": "@,
        );
    }
}

/// A gain in decibels is sent as it is given, from -400 to 6; any other, and what is
/// not a number, is refused.
pub proof fn lemma_gain_db(rid: i32, db: Number, r: Action)
    requires
        call_ensures(set_track_gain_db_tool, (rid, db), r),
    ensures
        (!db.value.nan() && -400 * pow2(149) <= db.value.units() <= 6 * pow2(149)) ==> sends(
            r,
            "/strip/gain"@,
            seq![ArgView::Int(rid), ArgView::Float(db.value)],
        ),
        (!db.value.nan() && -400 * pow2(149) <= db.value.units() <= 6 * pow2(149)) ==> says(
            r,
            "Track "@ + decimal_text(rid as int) + " gain (dB) set to "@ + db.text@,
        ),
        (!db.value.nan() && -400 * pow2(149) <= db.value.units() <= 6 * pow2(149)) ==> admits(
            r,
            "OSC send error for "@ + "/strip/gain"@ + ": "@,
        ),
        !((!db.value.nan() && -400 * pow2(149) <= db.value.units() <= 6 * pow2(149))) ==> refuses(
            r,
            "Invalid gain_db value: "@ + db.text@ + ". Must be between -400.0 and 6.0."@,
        ),
{
    if (!db.value.nan() && -400 * pow2(149) <= db.value.units() <= 6 * pow2(149)) {
        lemma_reports(
            r,
            "/strip/gain"@,
            seq![ArgView::Int(rid), ArgView::Float(db.value)],
            "Track "@ + decimal_text(rid as int) + " gain (dB) set to "@ + db.text@,
            "OSC send error for "@ + "/strip/gain"@ + ": "@,
        );
    }
}

/// A trim in decibels is sent as it is given, from -20 to 20; any other is refused.
/// Where the message cannot be sent, the call itself fails.
pub proof fn lemma_trim_db(rid: i32, db: Number, r: Action)
    requires
        call_ensures(set_track_trim_db_tool, (rid, db), r),
    ensures
        (db.value.nan() || -20 * pow2(149) <= db.value.units() <= 20 * pow2(149)) ==> sends(
            r,
            "/strip/trimdB"@,
            seq![ArgView::Int(rid), ArgView::Float(db.value)],
        ),
        (db.value.nan() || -20 * pow2(149) <= db.value.units() <= 20 * pow2(149)) ==> says(
            r,
            "Successfully sent OSC message /strip/trimdB with rid "@ + decimal_text(rid as int)
                + " and trim_db "@ + db.text@,
        ),
        (db.value.nan() || -20 * pow2(149) <= db.value.units() <= 20 * pow2(149)) ==> fails(
            r,
            "Failed to send OSC message /strip/trimdB for rid "@ + decimal_text(rid as int) + ": "@,
        ),
        !(db.value.nan() || -20 * pow2(149) <= db.value.units() <= 20 * pow2(149)) ==> refuses(
            r,
            "Invalid trim_db value: "@ + db.text@ + ". Must be between -20.0 and 20.0."@,
        ),
{
    if db.value.nan() || -20 * pow2(149) <= db.value.units() <= 20 * pow2(149) {
        lemma_fails(
            r,
            "Failed to send OSC message /strip/trimdB for rid "@ + decimal_text(rid as int) + ": "@,
        );
    }
}

/// A menu action is run by the very name that is given; only an empty one is refused.
/// Where the message cannot be sent, the call itself fails.
pub proof fn lemma_menu_action(name: String, r: Action)
    requires
        call_ensures(access_action_tool, (name,), r),
    ensures
        name@.len() > 0 ==> sends(r, "/access_action"@, seq![ArgView::Text(name@)]),
        name@.len() > 0 ==> says(
            r,
            "Successfully sent OSC message /access_action with action_name '"@ + name@ + "'"@,
        ),
        name@.len() > 0 ==> fails(
            r,
            "Failed to send OSC message /access_action for action_name '"@ + name@ + "': "@,
        ),
        name@.len() == 0 ==> refuses(r, "action_name cannot be empty."@),
{
    if name@.len() > 0 {
        lemma_fails(
            r,
            "Failed to send OSC message /access_action for action_name '"@ + name@ + "': "@,
        );
    }
}

/// A plugin is turned on by a message to one address and off by a message to another,
/// both with the number of the strip and the slot, counted from one; the reply names
/// what was sent.
pub proof fn lemma_plugin_is_turned_on_and_off(rid: i32, plugin_slot: i32, on: Action, off: Action)
    requires
        call_ensures(set_strip_plugin_active_tool, (rid, plugin_slot, true), on),
        call_ensures(set_strip_plugin_active_tool, (rid, plugin_slot, false), off),
    ensures
        plugin_slot > 0 ==> sends(
            on,
            "/strip/plugin/activate"@,
            seq![ArgView::Int(rid), ArgView::Int(plugin_slot)],
        ),
        plugin_slot > 0 ==> sends(
            off,
            "/strip/plugin/deactivate"@,
            seq![ArgView::Int(rid), ArgView::Int(plugin_slot)],
        ),
        plugin_slot > 0 ==> on->Send_0@.addr != off->Send_0@.addr,
        plugin_slot > 0 ==> says(
            on,
            "Strip "@ + decimal_text(rid as int) + " plugin in slot "@
                + decimal_text(plugin_slot as int) + " command ("@ + "activate"@ + ") sent."@,
        ),
        plugin_slot > 0 ==> says(
            off,
            "Strip "@ + decimal_text(rid as int) + " plugin in slot "@
                + decimal_text(plugin_slot as int) + " command ("@ + "deactivate"@ + ") sent."@,
        ),
        plugin_slot > 0 ==> admits(on, "OSC send error for "@ + "/strip/plugin/activate"@ + ": "@),
        plugin_slot > 0 ==> admits(
            off,
            "OSC send error for "@ + "/strip/plugin/deactivate"@ + ": "@,
        ),
        plugin_slot <= 0
            ==> refuses(on, "Invalid plugin_slot: must be a positive integer."@) && refuses(
                off,
                "Invalid plugin_slot: must be a positive integer."@,
            ),
{
    reveal_strlit("/strip/plugin/activate");
    reveal_strlit("/strip/plugin/deactivate");
    if plugin_slot > 0 {
        lemma_reports(
            on,
            "/strip/plugin/activate"@,
            seq![ArgView::Int(rid), ArgView::Int(plugin_slot)],
            "Strip "@ + decimal_text(rid as int) + " plugin in slot "@
                + decimal_text(plugin_slot as int) + " command ("@ + "activate"@ + ") sent."@,
            "OSC send error for "@ + "/strip/plugin/activate"@ + ": "@,
        );
        lemma_reports(
            off,
            "/strip/plugin/deactivate"@,
            seq![ArgView::Int(rid), ArgView::Int(plugin_slot)],
            "Strip "@ + decimal_text(rid as int) + " plugin in slot "@
                + decimal_text(plugin_slot as int) + " command ("@ + "deactivate"@ + ") sent."@,
            "OSC send error for "@ + "/strip/plugin/deactivate"@ + ": "@,
        );
    }
}

/// A plugin is inserted on the strip of that number, by the very URI that is given, at
/// the slot that is given.
pub proof fn lemma_plugin_is_inserted(rid: i32, uri: String, slot: i32, r: Action)
    requires
        call_ensures(insert_strip_plugin_tool, (rid, uri, Some(slot)), r),
    ensures
        rid > 0 ==> sends(
            r,
            "/strip/plugin/insert"@,
            seq![ArgView::Int(rid), ArgView::Text(uri@), ArgView::Int(slot)],
        ),
        rid > 0 ==> says(
            r,
            "Plugin insertion command sent: "@ + uri@ + " on strip "@ + decimal_text(rid as int)
                + " at slot "@
                + (if slot == 0 { "auto-append"@ } else { decimal_text(slot as int) }),
        ),
        rid > 0 ==> admits(r, "OSC send error for "@ + "/strip/plugin/insert"@ + ": "@),
        !(rid > 0) ==> refuses(r, "Invalid rid: must be a positive integer."@),
{
    if rid > 0 {
        lemma_reports(
            r,
            "/strip/plugin/insert"@,
            seq![ArgView::Int(rid), ArgView::Text(uri@), ArgView::Int(slot)],
            "Plugin insertion command sent: "@ + uri@ + " on strip "@ + decimal_text(rid as int)
                + " at slot "@
                + (if slot == 0 { "auto-append"@ } else { decimal_text(slot as int) }),
            "OSC send error for "@ + "/strip/plugin/insert"@ + ": "@,
        );
    }
}

/// To give no slot is to give slot 0: the plugin is put at the end.
pub proof fn lemma_plugin_is_appended(rid: i32, uri: String, without: Action, at_zero: Action)
    requires
        rid > 0,
        call_ensures(insert_strip_plugin_tool, (rid, uri, None), without),
        call_ensures(insert_strip_plugin_tool, (rid, uri, Some(0i32)), at_zero),
    ensures
        without->Send_0@ == at_zero->Send_0@,
        sends(
            without,
            "/strip/plugin/insert"@,
            seq![ArgView::Int(rid), ArgView::Text(uri@), ArgView::Int(0)],
        ),
{
}

/// The stereo width of a strip is sent as it is given, from 0 to 1; any other, and what
/// is not a number, is refused.
pub proof fn lemma_width(rid: i32, width: Number, r: Action)
    requires
        call_ensures(set_strip_pan_stereo_width_tool, (rid, width), r),
    ensures
        (!width.value.nan() && 0 <= width.value.units() <= pow2(149)) ==> sends(
            r,
            "/strip/panner/width"@,
            seq![ArgView::Int(rid), ArgView::Float(width.value)],
        ),
        (!width.value.nan() && 0 <= width.value.units() <= pow2(149)) ==> says(
            r,
            "Strip "@ + decimal_text(rid as int) + " stereo pan width set to "@ + width.text@
                + "."@,
        ),
        (!width.value.nan() && 0 <= width.value.units() <= pow2(149)) ==> admits(
            r,
            "OSC send error for "@ + "/strip/panner/width"@ + ": "@,
        ),
        !((!width.value.nan() && 0 <= width.value.units() <= pow2(149))) ==> refuses(
            r,
            "Invalid width: must be between 0.0 and 1.0 (inclusive)."@,
        ),
{
    assert(whole(0) == 0) by (nonlinear_arith);
    if (!width.value.nan() && 0 <= width.value.units() <= pow2(149)) {
        lemma_reports(
            r,
            "/strip/panner/width"@,
            seq![ArgView::Int(rid), ArgView::Float(width.value)],
            "Strip "@ + decimal_text(rid as int) + " stereo pan width set to "@ + width.text@
                + "."@,
            "OSC send error for "@ + "/strip/panner/width"@ + ": "@,
        );
    }
}

/// The stereo width of the selected strip is sent as it is given, from 0 to 1; any
/// other, and what is not a number, is refused.
pub proof fn lemma_selected_width(width: Number, r: Action)
    requires
        call_ensures(set_selected_strip_pan_stereo_width_tool, (width,), r),
    ensures
        (!width.value.nan() && 0 <= width.value.units() <= pow2(149)) ==> sends(
            r,
            "/select/pan_stereo_width"@,
            seq![ArgView::Float(width.value)],
        ),
        (!width.value.nan() && 0 <= width.value.units() <= pow2(149)) ==> says(
            r,
            "Selected strip stereo pan width set to "@ + width.text@
                + ".\n (Ensure a strip was selected prior to calling this)"@,
        ),
        (!width.value.nan() && 0 <= width.value.units() <= pow2(149)) ==> admits(
            r,
            "OSC send error for "@ + "/select/pan_stereo_width"@ + ": "@,
        ),
        !((!width.value.nan() && 0 <= width.value.units() <= pow2(149))) ==> refuses(
            r,
            "Invalid width: must be between 0.0 and 1.0 (inclusive)."@,
        ),
{
    assert(whole(0) == 0) by (nonlinear_arith);
    if (!width.value.nan() && 0 <= width.value.units() <= pow2(149)) {
        lemma_reports(
            r,
            "/select/pan_stereo_width"@,
            seq![ArgView::Float(width.value)],
            "Selected strip stereo pan width set to "@ + width.text@
                + ".\n (Ensure a strip was selected prior to calling this)"@,
            "OSC send error for "@ + "/select/pan_stereo_width"@ + ": "@,
        );
    }
}

/// The gain of a send, of the strip and the send with these numbers, is sent as it is
/// given.
pub proof fn lemma_send_gain(rid: i32, send_id: i32, v: Number, r: Action)
    requires
        call_ensures(set_strip_send_gain_db_tool, (rid, send_id, v), r),
    ensures
        (rid > 0 && send_id > 0) ==> sends(
            r,
            "/strip/send/gain"@,
            seq![ArgView::Int(rid), ArgView::Int(send_id), ArgView::Float(v.value)],
        ),
        (rid > 0 && send_id > 0) ==> says(
            r,
            "Strip "@ + decimal_text(rid as int) + " send "@ + decimal_text(send_id as int)
                + " gain set to "@ + v.text@ + " dB."@,
        ),
        (rid > 0 && send_id > 0) ==> admits(
            r,
            "OSC send error for "@ + "/strip/send/gain"@ + ": "@,
        ),
        !((rid > 0 && send_id > 0)) ==> refuses(
            r,
            "Invalid rid/send_id: must be positive integers."@,
        ),
{
    if (rid > 0 && send_id > 0) {
        lemma_reports(
            r,
            "/strip/send/gain"@,
            seq![ArgView::Int(rid), ArgView::Int(send_id), ArgView::Float(v.value)],
            "Strip "@ + decimal_text(rid as int) + " send "@ + decimal_text(send_id as int)
                + " gain set to "@ + v.text@ + " dB."@,
            "OSC send error for "@ + "/strip/send/gain"@ + ": "@,
        );
    }
}

/// The fader of a send, of the strip and the send with these numbers, is sent as it is
/// given.
pub proof fn lemma_send_fader(rid: i32, send_id: i32, v: Number, r: Action)
    requires
        call_ensures(set_strip_send_fader_tool, (rid, send_id, v), r),
    ensures
        (rid > 0 && send_id > 0) ==> sends(
            r,
            "/strip/send/fader"@,
            seq![ArgView::Int(rid), ArgView::Int(send_id), ArgView::Float(v.value)],
        ),
        (rid > 0 && send_id > 0) ==> says(
            r,
            "Strip "@ + decimal_text(rid as int) + " send "@ + decimal_text(send_id as int)
                + " fader set to "@ + v.text@ + "."@,
        ),
        (rid > 0 && send_id > 0) ==> admits(
            r,
            "OSC send error for "@ + "/strip/send/fader"@ + ": "@,
        ),
        !((rid > 0 && send_id > 0)) ==> refuses(
            r,
            "Invalid rid/send_id: must be positive integers."@,
        ),
{
    if (rid > 0 && send_id > 0) {
        lemma_reports(
            r,
            "/strip/send/fader"@,
            seq![ArgView::Int(rid), ArgView::Int(send_id), ArgView::Float(v.value)],
            "Strip "@ + decimal_text(rid as int) + " send "@ + decimal_text(send_id as int)
                + " fader set to "@ + v.text@ + "."@,
            "OSC send error for "@ + "/strip/send/fader"@ + ": "@,
        );
    }
}

/// A send is turned on with 1 and off with 0, under the numbers of the strip and of the
/// send.
pub proof fn lemma_send_switch(rid: i32, send_id: i32, on: bool, r: Action)
    requires
        call_ensures(set_strip_send_enable_tool, (rid, send_id, on), r),
    ensures
        (rid > 0 && send_id > 0) ==> sends(
            r,
            "/strip/send/enable"@,
            seq![
                ArgView::Int(rid),
                ArgView::Int(send_id),
                ArgView::Float(single_of_int(if on { 1 } else { 0 })),
            ],
        ),
        (rid > 0 && send_id > 0) ==> says(
            r,
            "Strip "@ + decimal_text(rid as int) + " send "@ + decimal_text(send_id as int)
                + " enable set to "@ + (if on { "true"@ } else { "false"@ }) + "."@,
        ),
        (rid > 0 && send_id > 0) ==> admits(
            r,
            "OSC send error for "@ + "/strip/send/enable"@ + ": "@,
        ),
        !((rid > 0 && send_id > 0)) ==> refuses(
            r,
            "Invalid rid/send_id: must be positive integers."@,
        ),
{
    if (rid > 0 && send_id > 0) {
        lemma_reports(
            r,
            "/strip/send/enable"@,
            seq![
                ArgView::Int(rid),
                ArgView::Int(send_id),
                ArgView::Float(single_of_int(if on { 1 } else { 0 })),
            ],
            "Strip "@ + decimal_text(rid as int) + " send "@ + decimal_text(send_id as int)
                + " enable set to "@ + (if on { "true"@ } else { "false"@ }) + "."@,
            "OSC send error for "@ + "/strip/send/enable"@ + ": "@,
        );
    }
}

/// The polarity of a strip is inverted with 1 and set back with 0, at an address that
/// holds the number of the strip.
pub proof fn lemma_polarity(rid: i32, invert: bool, r: Action)
    requires
        call_ensures(set_strip_polarity_tool, (rid, invert), r),
    ensures
        rid > 0 ==> sends(
            r,
            ("/strip/"@ + decimal_text(rid as int) + "/polarity"@),
            seq![ArgView::Int(if invert { 1 } else { 0 })],
        ),
        rid > 0 ==> says(
            r,
            "Strip "@ + decimal_text(rid as int) + " polarity invert set to "@
                + (if invert { "true"@ } else { "false"@ }) + "."@,
        ),
        rid > 0 ==> admits(
            r,
            "OSC send error for "@ + ("/strip/"@ + decimal_text(rid as int) + "/polarity"@) + ": "@,
        ),
        !(rid > 0) ==> refuses(r, "Invalid rid: must be a positive integer."@),
{
    if rid > 0 {
        lemma_reports(
            r,
            ("/strip/"@ + decimal_text(rid as int) + "/polarity"@),
            seq![ArgView::Int(if invert { 1 } else { 0 })],
            "Strip "@ + decimal_text(rid as int) + " polarity invert set to "@
                + (if invert { "true"@ } else { "false"@ }) + "."@,
            "OSC send error for "@ + ("/strip/"@ + decimal_text(rid as int) + "/polarity"@) + ": "@,
        );
    }
}


/// The fader that sets a gain stands at half of it: a gain from 0 to 2 is sent as a
/// position from 0 to 1, and any other gain is refused.
pub proof fn lemma_gain(rid: i32, gain: Number, text: String, r: Action)
    requires
        call_ensures(set_track_gain_abs_tool, (rid, gain, text), r),
        !gain.value.nan(),
    ensures
        0 <= gain.value.units() <= 2 * pow2(149) ==> {
            &&& r matches Action::Send(m, _) && m@.addr == "/strip/fader"@ && m@.args.len() == 2
                && m@.args[0] == ArgView::Int(rid)
            &&& r->Send_0@.args[1] matches ArgView::Float(p) && !p.nan() && 0 <= p.units()
                <= pow2(149)
            &&& gain.value.magnitude() == 0 || gain.value.magnitude() >= 0x100_0000 ==> 2
                * r->Send_0@.args[1]->Float_0.units() == gain.value.units()
        },
        0 <= gain.value.units() <= 2 * pow2(149) ==> says(
            r,
            "Track "@ + decimal_text(rid as int) + " fader position set to "@ + text@
                + " (from gain_abs "@ + gain.text@ + ")"@,
        ),
        !(0 <= gain.value.units() <= 2 * pow2(149)) ==> refuses(
            r,
            "Invalid gain_abs value: "@ + gain.text@
                + ". Must be between 0.0 and 2.0 (maps to fader 0.0-1.0)."@,
        ),
{
    assert(whole(0) == 0) by (nonlinear_arith);
    if gain_in_range(gain.value) {
        lemma_gain_position_in_range(gain.value);
        if gain.value.magnitude() == 0 || gain.value.magnitude() >= 0x100_0000 {
            lemma_gain_position_is_half(gain.value);
        }
    }
}

/// Of two gains, the larger one never puts the fader lower.
pub proof fn lemma_gains_in_order(
    rid: i32,
    low: Number,
    high: Number,
    text: String,
    first: Action,
    second: Action,
)
    requires
        call_ensures(set_track_gain_abs_tool, (rid, low, text), first),
        call_ensures(set_track_gain_abs_tool, (rid, high, text), second),
        !low.value.nan(),
        !high.value.nan(),
        0 <= low.value.units() <= high.value.units() <= 2 * pow2(149),
    ensures
        first->Send_0@.args[1]->Float_0.units() <= second->Send_0@.args[1]->Float_0.units(),
{
    assert(whole(0) == 0) by (nonlinear_arith);
    lemma_gain_position_grows(low.value, high.value);
}

/// A trim from 0.1 to 10 is sent as a position of the fader from 0 to 1, and any other trim
/// is refused.
pub proof fn lemma_trim(rid: i32, trim: Number, text: String, r: Action)
    requires
        call_ensures(set_track_trim_abs_tool, (rid, trim, text), r),
        !trim.value.nan(),
    ensures
        (Single { bits: 0x3dcc_cccd }).units() <= trim.value.units() <= 10 * pow2(149) ==> {
            &&& r matches Action::Send(m, _) && m@.addr == "/strip/trim_fader"@ && m@.args.len()
                == 2 && m@.args[0] == ArgView::Int(rid)
            &&& r->Send_0@.args[1] matches ArgView::Float(p) && !p.nan() && 0 <= p.units()
                <= pow2(149)
        },
        (Single { bits: 0x3dcc_cccd }).units() <= trim.value.units() <= 10 * pow2(149) ==> says(
            r,
            "Track "@ + decimal_text(rid as int) + " trim fader position set to "@ + text@
                + " (from trim_abs "@ + trim.text@ + ")"@,
        ),
        !((Single { bits: 0x3dcc_cccd }).units() <= trim.value.units() <= 10 * pow2(149))
            ==> refuses(
            r,
            "Invalid trim_abs value: "@ + trim.text@ + ". Must be between 0.1 and 10.0."@,
        ),
{
    assert(whole(0) == 0) by (nonlinear_arith);
    if trim_in_range(trim.value) {
        lemma_trim_position_in_range(trim.value);
    }
}

/// Of two trims, the larger one never puts the fader lower; the least puts it at 0, and the
/// largest at 1.
pub proof fn lemma_trims_in_order(
    rid: i32,
    low: Number,
    high: Number,
    text: String,
    first: Action,
    second: Action,
)
    requires
        call_ensures(set_track_trim_abs_tool, (rid, low, text), first),
        call_ensures(set_track_trim_abs_tool, (rid, high, text), second),
        !low.value.nan(),
        !high.value.nan(),
        (Single { bits: 0x3dcc_cccd }).units() <= low.value.units() <= high.value.units() <= 10
            * pow2(149),
    ensures
        first->Send_0@.args[1]->Float_0.units() <= second->Send_0@.args[1]->Float_0.units(),
        low.value.bits == 0x3dcc_cccd ==> first->Send_0@.args[1]->Float_0.units() == 0,
        high.value.bits == 0x4120_0000 ==> second->Send_0@.args[1]->Float_0.units() == pow2(149),
{
    lemma_trim_position_grows(low.value, high.value);
    lemma_trim_position_ends();
    lemma_one_is_whole();
}

/// The position of the fader is half the gain, and for a trim the part of 9.9 that it
/// exceeds 0.1 by, as near as the digits of a number allow.
pub proof fn lemma_positions(
    rid: i32,
    gain: Number,
    trim: Number,
    text: String,
    first: Action,
    second: Action,
)
    requires
        call_ensures(set_track_gain_abs_tool, (rid, gain, text), first),
        call_ensures(set_track_trim_abs_tool, (rid, trim, text), second),
        !gain.value.nan(),
        !trim.value.nan(),
        0 <= gain.value.units() <= 2 * pow2(149),
        (Single { bits: 0x3dcc_cccd }).units() <= trim.value.units() <= 10 * pow2(149),
    ensures
        apart(2 * first->Send_0@.args[1]->Float_0.units(), gain.value.units()) <= 1,
        ({
            let all = (Single { bits: 0x411e_6666 }).units();
            let over = trim.value.units() - (Single { bits: 0x3dcc_cccd }).units();
            apart(second->Send_0@.args[1]->Float_0.units() * all, over * pow2(149)) * 0x40_0000
                <= over * pow2(149) + all * 0x40_0000
        }),
{
    assert(whole(0) == 0) by (nonlinear_arith);
    lemma_gain_position_is_near_half(gain.value);
    lemma_trim_position_is_part(trim.value);
}

/// What is no number is neither below nor above any bound, and is sent as it is.
pub proof fn lemma_not_a_number(
    rid: i32,
    n: Number,
    text: String,
    gain: Action,
    trim: Action,
)
    requires
        n.value.nan(),
        call_ensures(set_track_gain_abs_tool, (rid, n, text), gain),
        call_ensures(set_track_trim_abs_tool, (rid, n, text), trim),
    ensures
        sends(gain, "/strip/fader"@, seq![ArgView::Int(rid), ArgView::Float(n.value)]),
        sends(trim, "/strip/trim_fader"@, seq![ArgView::Int(rid), ArgView::Float(n.value)]),
{
}

/// Where the position of a fader cannot be sent, that is replied, with the address.
pub proof fn lemma_fader_cannot_be_moved(
    rid: i32,
    n: Number,
    text: String,
    gain: Action,
    trim: Action,
)
    requires
        call_ensures(set_track_gain_abs_tool, (rid, n, text), gain),
        call_ensures(set_track_trim_abs_tool, (rid, n, text), trim),
    ensures
        gain is Send ==> admits(gain, "OSC send error for "@ + "/strip/fader"@ + ": "@),
        trim is Send ==> admits(trim, "OSC send error for "@ + "/strip/trim_fader"@ + ": "@),
{
    if gain is Send {
        lemma_reports(
            gain,
            "/strip/fader"@,
            gain->Send_0@.args,
            "Track "@ + decimal_text(rid as int) + " fader position set to "@ + text@
                + " (from gain_abs "@ + n.text@ + ")"@,
            "OSC send error for "@ + "/strip/fader"@ + ": "@,
        );
    }
    if trim is Send {
        lemma_reports(
            trim,
            "/strip/trim_fader"@,
            trim->Send_0@.args,
            "Track "@ + decimal_text(rid as int) + " trim fader position set to "@ + text@
                + " (from trim_abs "@ + n.text@ + ")"@,
            "OSC send error for "@ + "/strip/trim_fader"@ + ": "@,
        );
    }
}

} // verus!
