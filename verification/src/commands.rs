//! Tools that send one message and report what came of it.

use crate::action::{
    failing, failure, finishes, five_args, one_arg, plain, plain_message, refuse,
    reports, three_args, two_args, Action, AfterSend, Failure, FailureView, Number,
};
use crate::fader::{
    gain_fader, gain_in_range, gain_position, trim_fader, trim_in_range, trim_position, TENTH,
};
use crate::osc::{args_view, message, ArgView, MessageView, OscArg};
use crate::reply::{Document, DocumentView, ToolReply, ToolReplyView};
use crate::single::{single_of_int, Single};
use crate::slots::{after, one_more};
use crate::text::{bool_text, decimal, decimal_text, truth};
use vstd::prelude::*;
use vstd::string::*;

verus! {

/// Sends a message without arguments.
fn send_plain(addr: &str, done: &str) -> (r: Action)
    ensures
        reports(
            r,
            plain(addr@),
            ToolReplyView::Success(done@),
            failure("OSC send error: "@),
        ),
{
    Action::Send(
        plain_message(addr),
        AfterSend::Report {
            done: ToolReply::Success(done.to_owned()),
            failed: failing("OSC send error: "),
        },
    )
}

/// What an error about the address `addr` begins with.
pub open spec fn error_for(addr: Seq<char>) -> FailureView {
    failure("OSC send error for "@ + addr + ": "@)
}

/// Sends a message to `addr`.
fn send_to(addr: &str, args: Vec<OscArg>, done: ToolReply) -> (r: Action)
    ensures
        reports(
            r,
            (MessageView { addr: addr@, args: args_view(args@) }),
            done@,
            error_for(addr@),
        ),
{
    let mut before = "OSC send error for ".to_owned();
    before.append(addr);
    before.append(": ");
    Action::Send(
        message(addr, args),
        AfterSend::Report { done, failed: failing(before.as_str()) },
    )
}

/// `head`, then a number.
fn with_number(head: &str, n: i64) -> (r: String)
    ensures
        r@ == head@ + decimal_text(n as int),
{
    let mut t = head.to_owned();
    t.append(decimal(n).as_str());
    t
}

/// Starts playback.
pub fn transport_play_tool() -> (r: Action)
    ensures
        reports(
            r,
            plain("/transport_play"@),
            ToolReplyView::Success("Playback started"@),
            failure("OSC send error: "@),
        ),
{
    send_plain("/transport_play", "Playback started")
}

/// Stops playback.
pub fn transport_stop_tool() -> (r: Action)
    ensures
        reports(
            r,
            plain("/transport_stop"@),
            ToolReplyView::Success("Playback stopped"@),
            failure("OSC send error: "@),
        ),
{
    send_plain("/transport_stop", "Playback stopped")
}

/// Moves the playhead to the start of the session.
pub fn goto_start_tool() -> (r: Action)
    ensures
        reports(
            r,
            plain("/goto_start"@),
            ToolReplyView::Success("Playhead moved to start"@),
            failure("OSC send error: "@),
        ),
{
    send_plain("/goto_start", "Playhead moved to start")
}

/// Moves the playhead to the end of the session.
pub fn goto_end_tool() -> (r: Action)
    ensures
        reports(
            r,
            plain("/goto_end"@),
            ToolReplyView::Success("Playhead moved to end"@),
            failure("OSC send error: "@),
        ),
{
    send_plain("/goto_end", "Playhead moved to end")
}

/// Turns loop playback on or off.
pub fn loop_toggle_tool() -> (r: Action)
    ensures
        reports(
            r,
            plain("/loop_toggle"@),
            ToolReplyView::Success("Loop mode toggled"@),
            failure("OSC send error: "@),
        ),
{
    send_plain("/loop_toggle", "Loop mode toggled")
}

/// Undoes the last action.
pub fn undo_tool() -> (r: Action)
    ensures
        reports(
            r,
            plain("/undo"@),
            ToolReplyView::Success("Undo action performed"@),
            failure("OSC send error: "@),
        ),
{
    send_plain("/undo", "Undo action performed")
}

/// Redoes the last action that was undone.
pub fn redo_tool() -> (r: Action)
    ensures
        reports(
            r,
            plain("/redo"@),
            ToolReplyView::Success("Redo action performed"@),
            failure("OSC send error: "@),
        ),
{
    send_plain("/redo", "Redo action performed")
}

/// Turns punching in on or off.
pub fn toggle_punch_in_tool() -> (r: Action)
    ensures
        reports(
            r,
            plain("/toggle_punch_in"@),
            ToolReplyView::Success("Punch In toggled"@),
            failure("OSC send error: "@),
        ),
{
    send_plain("/toggle_punch_in", "Punch In toggled")
}

/// Turns punching out on or off.
pub fn toggle_punch_out_tool() -> (r: Action)
    ensures
        reports(
            r,
            plain("/toggle_punch_out"@),
            ToolReplyView::Success("Punch Out toggled"@),
            failure("OSC send error: "@),
        ),
{
    send_plain("/toggle_punch_out", "Punch Out toggled")
}

/// Turns recording on or off.
pub fn rec_enable_toggle_tool() -> (r: Action)
    ensures
        reports(
            r,
            plain("/rec_enable_toggle"@),
            ToolReplyView::Success("Record Enable toggled"@),
            failure("OSC send error: "@),
        ),
{
    send_plain("/rec_enable_toggle", "Record Enable toggled")
}

/// Turns recording on or off for all tracks.
pub fn toggle_all_rec_enables_tool() -> (r: Action)
    ensures
        reports(
            r,
            plain("/toggle_all_rec_enables"@),
            ToolReplyView::Success("All Record Enables toggled"@),
            failure("OSC send error: "@),
        ),
{
    send_plain("/toggle_all_rec_enables", "All Record Enables toggled")
}

/// Winds forward.
pub fn ffwd_tool() -> (r: Action)
    ensures
        reports(
            r,
            plain("/ffwd"@),
            ToolReplyView::Success("Fast Forward activated"@),
            failure("OSC send error: "@),
        ),
{
    send_plain("/ffwd", "Fast Forward activated")
}

/// Winds back.
pub fn rewind_tool() -> (r: Action)
    ensures
        reports(
            r,
            plain("/rewind"@),
            ToolReplyView::Success("Rewind activated"@),
            failure("OSC send error: "@),
        ),
{
    send_plain("/rewind", "Rewind activated")
}

/// Puts a marker where the playhead is.
pub fn add_marker_tool() -> (r: Action)
    ensures
        reports(
            r,
            plain("/add_marker"@),
            ToolReplyView::Success("Marker added"@),
            failure("OSC send error: "@),
        ),
{
    send_plain("/add_marker", "Marker added")
}

/// Moves the playhead to the next marker.
pub fn next_marker_tool() -> (r: Action)
    ensures
        reports(
            r,
            plain("/next_marker"@),
            ToolReplyView::Success("Moved to next marker"@),
            failure("OSC send error: "@),
        ),
{
    send_plain("/next_marker", "Moved to next marker")
}

/// Moves the playhead to the previous marker.
pub fn prev_marker_tool() -> (r: Action)
    ensures
        reports(
            r,
            plain("/prev_marker"@),
            ToolReplyView::Success("Moved to previous marker"@),
            failure("OSC send error: "@),
        ),
{
    send_plain("/prev_marker", "Moved to previous marker")
}

/// Saves the session.
pub fn save_state_tool() -> (r: Action)
    ensures
        reports(
            r,
            plain("/save_state"@),
            ToolReplyView::Success("Session state saved"@),
            failure("OSC send error: "@),
        ),
{
    send_plain("/save_state", "Session state saved")
}

/// Mutes or unmutes a track.
pub fn set_track_mute_tool(rid: i32, mute_state: bool) -> (r: Action)
    ensures
        reports(
            r,
            (MessageView {
                addr: "/strip/mute"@,
                args: seq![ArgView::Int(rid), ArgView::Int(if mute_state { 1 } else { 0 })],
            }),
            ToolReplyView::Success(
                "Track "@ + decimal_text(rid as int) + " mute state set to "@ + bool_text(
                    mute_state,
                ),
            ),
            error_for("/strip/mute"@),
        ),
{
    let state: i32 = if mute_state {
        1
    } else {
        0
    };
    let mut done = with_number("Track ", rid as i64);
    done.append(" mute state set to ");
    done.append(truth(mute_state).as_str());
    send_to(
        "/strip/mute",
        two_args(OscArg::Int(rid), OscArg::Int(state)),
        ToolReply::Success(done),
    )
}

/// Says that a transport speed cannot be set.
pub open spec fn bad_speed(text: Seq<char>) -> Seq<char> {
    "Invalid transport speed: "@ + text + ". Must be between -8.0 and 8.0."@
}

/// Sets the transport speed, which lies between -8 and 8. A call with another speed
/// fails.
pub fn set_transport_speed_tool(speed: Number) -> (r: Action)
    ensures
        if speed.value.below(-8) || speed.value.above(8) {
            finishes(r, ToolReplyView::InvalidParams(bad_speed(speed.text@)))
        } else {
            reports(
                r,
                (MessageView {
                    addr: "/set_transport_speed"@,
                    args: seq![ArgView::Float(speed.value)],
                }),
                ToolReplyView::Success("Transport speed set to "@ + speed.text@),
                error_for("/set_transport_speed"@),
            )
        },
{
    if speed.value.is_below(-8) || speed.value.is_above(8) {
        let mut t = "Invalid transport speed: ".to_owned();
        t.append(speed.text.as_str());
        t.append(". Must be between -8.0 and 8.0.");
        return Action::Finish(ToolReply::InvalidParams(t));
    }
    let mut done = "Transport speed set to ".to_owned();
    done.append(speed.text.as_str());
    send_to(
        "/set_transport_speed",
        one_arg(OscArg::Float(speed.value)),
        ToolReply::Success(done),
    )
}

/// Moves the playhead to a sample.
pub fn locate_tool(spos: i64, roll: i32) -> (r: Action)
    ensures
        reports(
            r,
            (MessageView {
                addr: "/locate"@,
                args: seq![ArgView::Long(spos), ArgView::Int(roll)],
            }),
            ToolReplyView::Success(
                "Located to sample "@ + decimal_text(spos as int) + " with roll state "@
                    + decimal_text(roll as int),
            ),
            error_for("/locate"@),
        ),
{
    let mut done = with_number("Located to sample ", spos);
    done.append(" with roll state ");
    done.append(decimal(roll as i64).as_str());
    send_to(
        "/locate",
        two_args(OscArg::Long(spos), OscArg::Int(roll)),
        ToolReply::Success(done),
    )
}

/// Turns solo on (1) or off (0) for a track.
pub fn set_track_solo_tool(rid: i32, solo_st: i32) -> (r: Action)
    ensures
        if solo_st != 0 && solo_st != 1 {
            finishes(
                r,
                ToolReplyView::Error(
                    "Invalid solo_st value: "@ + decimal_text(solo_st as int)
                        + ". Must be 0 (off) or 1 (on)."@,
                ),
            )
        } else {
            reports(
                r,
                (MessageView {
                    addr: "/strip/solo"@,
                    args: seq![ArgView::Int(rid), ArgView::Int(solo_st)],
                }),
                ToolReplyView::Success(
                    "Track "@ + decimal_text(rid as int) + " solo state set to "@ + decimal_text(
                        solo_st as int,
                    ),
                ),
                error_for("/strip/solo"@),
            )
        },
{
    if solo_st != 0 && solo_st != 1 {
        let mut t = with_number("Invalid solo_st value: ", solo_st as i64);
        t.append(". Must be 0 (off) or 1 (on).");
        return Action::Finish(ToolReply::Error(t));
    }
    let mut done = with_number("Track ", rid as i64);
    done.append(" solo state set to ");
    done.append(decimal(solo_st as i64).as_str());
    send_to(
        "/strip/solo",
        two_args(OscArg::Int(rid), OscArg::Int(solo_st)),
        ToolReply::Success(done),
    )
}

/// Turns recording on (1) or off (0) for a track.
pub fn set_track_rec_enable_tool(rid: i32, rec_st: i32) -> (r: Action)
    ensures
        if rec_st != 0 && rec_st != 1 {
            finishes(
                r,
                ToolReplyView::Error(
                    "Invalid rec_st value: "@ + decimal_text(rec_st as int)
                        + ". Must be 0 (off) or 1 (on)."@,
                ),
            )
        } else {
            reports(
                r,
                (MessageView {
                    addr: "/strip/recenable"@,
                    args: seq![ArgView::Int(rid), ArgView::Int(rec_st)],
                }),
                ToolReplyView::Success(
                    "Track "@ + decimal_text(rid as int) + " record enable state set to "@ + decimal_text(
                        rec_st as int,
                    ),
                ),
                error_for("/strip/recenable"@),
            )
        },
{
    if rec_st != 0 && rec_st != 1 {
        let mut t = with_number("Invalid rec_st value: ", rec_st as i64);
        t.append(". Must be 0 (off) or 1 (on).");
        return Action::Finish(ToolReply::Error(t));
    }
    let mut done = with_number("Track ", rid as i64);
    done.append(" record enable state set to ");
    done.append(decimal(rec_st as i64).as_str());
    send_to(
        "/strip/recenable",
        two_args(OscArg::Int(rid), OscArg::Int(rec_st)),
        ToolReply::Success(done),
    )
}

/// Sets the gain of a track by the position of a fader, whose text is handed over.
pub fn set_track_gain_abs_tool(rid: i32, gain_abs: Number, position_text: String) -> (r: Action)
    ensures
        if !gain_in_range(gain_abs.value) {
            finishes(
                r,
                ToolReplyView::Error(
                    "Invalid gain_abs value: "@ + gain_abs.text@
                        + ". Must be between 0.0 and 2.0 (maps to fader 0.0-1.0)."@,
                ),
            )
        } else {
            reports(
                r,
                (MessageView {
                    addr: "/strip/fader"@,
                    args: seq![
                        ArgView::Int(rid),
                        ArgView::Float(gain_position(gain_abs.value)),
                    ],
                }),
                ToolReplyView::Success(
                    "Track "@ + decimal_text(rid as int) + " fader position set to "@
                        + position_text@ + " (from gain_abs "@ + gain_abs.text@ + ")"@,
                ),
                error_for("/strip/fader"@),
            )
        },
{
    if gain_abs.value.is_below(0) || gain_abs.value.is_above(2) {
        let mut t = "Invalid gain_abs value: ".to_owned();
        t.append(gain_abs.text.as_str());
        t.append(". Must be between 0.0 and 2.0 (maps to fader 0.0-1.0).");
        return Action::Finish(ToolReply::Error(t));
    }
    let position = gain_fader(gain_abs.value);
    let mut done = with_number("Track ", rid as i64);
    done.append(" fader position set to ");
    done.append(position_text.as_str());
    done.append(" (from gain_abs ");
    done.append(gain_abs.text.as_str());
    done.append(")");
    send_to(
        "/strip/fader",
        two_args(OscArg::Int(rid), OscArg::Float(position)),
        ToolReply::Success(done),
    )
}

/// Sets the trim of a track by the position of a fader, whose text is handed over.
pub fn set_track_trim_abs_tool(rid: i32, trim_abs: Number, position_text: String) -> (r: Action)
    ensures
        if !trim_in_range(trim_abs.value) {
            finishes(
                r,
                ToolReplyView::Error(
                    "Invalid trim_abs value: "@ + trim_abs.text@
                        + ". Must be between 0.1 and 10.0."@,
                ),
            )
        } else {
            reports(
                r,
                (MessageView {
                    addr: "/strip/trim_fader"@,
                    args: seq![
                        ArgView::Int(rid),
                        ArgView::Float(trim_position(trim_abs.value)),
                    ],
                }),
                ToolReplyView::Success(
                    "Track "@ + decimal_text(rid as int) + " trim fader position set to "@
                        + position_text@ + " (from trim_abs "@ + trim_abs.text@ + ")"@,
                ),
                error_for("/strip/trim_fader"@),
            )
        },
{
    if trim_abs.value.less(&Single { bits: TENTH }) || trim_abs.value.is_above(10) {
        let mut t = "Invalid trim_abs value: ".to_owned();
        t.append(trim_abs.text.as_str());
        t.append(". Must be between 0.1 and 10.0.");
        return Action::Finish(ToolReply::Error(t));
    }
    let position = trim_fader(trim_abs.value);
    let mut done = with_number("Track ", rid as i64);
    done.append(" trim fader position set to ");
    done.append(position_text.as_str());
    done.append(" (from trim_abs ");
    done.append(trim_abs.text.as_str());
    done.append(")");
    send_to(
        "/strip/trim_fader",
        two_args(OscArg::Int(rid), OscArg::Float(position)),
        ToolReply::Success(done),
    )
}

/// Sets the gain of a track in decibels, between -400 and 6.
pub fn set_track_gain_db_tool(rid: i32, gain_db: Number) -> (r: Action)
    ensures
        if gain_db.value.nan() || gain_db.value.below(-400) || gain_db.value.above(6) {
            finishes(
                r,
                ToolReplyView::Error(
                    "Invalid gain_db value: "@ + gain_db.text@
                        + ". Must be between -400.0 and 6.0."@,
                ),
            )
        } else {
            reports(
                r,
                (MessageView {
                    addr: "/strip/gain"@,
                    args: seq![ArgView::Int(rid), ArgView::Float(gain_db.value)],
                }),
                ToolReplyView::Success(
                    "Track "@ + decimal_text(rid as int) + " gain (dB) set to "@ + gain_db.text@,
                ),
                error_for("/strip/gain"@),
            )
        },
{
    if gain_db.value.is_nan() || gain_db.value.is_below(-400) || gain_db.value.is_above(6) {
        let mut t = "Invalid gain_db value: ".to_owned();
        t.append(gain_db.text.as_str());
        t.append(". Must be between -400.0 and 6.0.");
        return Action::Finish(ToolReply::Error(t));
    }
    let mut done = with_number("Track ", rid as i64);
    done.append(" gain (dB) set to ");
    done.append(gain_db.text.as_str());
    send_to(
        "/strip/gain",
        two_args(OscArg::Int(rid), OscArg::Float(gain_db.value)),
        ToolReply::Success(done),
    )
}

/// Sets the trim of a track in decibels, between -20 and 20. Where the message cannot be
/// sent, the call fails.
pub fn set_track_trim_db_tool(rid: i32, trim_db: Number) -> (r: Action)
    ensures
        if trim_db.value.below(-20) || trim_db.value.above(20) {
            finishes(
                r,
                ToolReplyView::Error(
                    "Invalid trim_db value: "@ + trim_db.text@
                        + ". Must be between -20.0 and 20.0."@,
                ),
            )
        } else {
            reports(
                r,
                (MessageView {
                    addr: "/strip/trimdB"@,
                    args: seq![ArgView::Int(rid), ArgView::Float(trim_db.value)],
                }),
                ToolReplyView::Success(
                    "Successfully sent OSC message /strip/trimdB with rid "@ + decimal_text(
                        rid as int,
                    ) + " and trim_db "@ + trim_db.text@,
                ),
                (FailureView {
                    before: "Failed to send OSC message /strip/trimdB for rid "@ + decimal_text(
                        rid as int,
                    ) + ": "@,
                    behind: Seq::empty(),
                    internal: true,
                }),
            )
        },
{
    if trim_db.value.is_below(-20) || trim_db.value.is_above(20) {
        let mut t = "Invalid trim_db value: ".to_owned();
        t.append(trim_db.text.as_str());
        t.append(". Must be between -20.0 and 20.0.");
        return Action::Finish(ToolReply::Error(t));
    }
    let mut done = with_number(
        "Successfully sent OSC message /strip/trimdB with rid ",
        rid as i64,
    );
    done.append(" and trim_db ");
    done.append(trim_db.text.as_str());
    let mut before = with_number(
        "Failed to send OSC message /strip/trimdB for rid ",
        rid as i64,
    );
    before.append(": ");
    Action::Send(
        message("/strip/trimdB", two_args(OscArg::Int(rid), OscArg::Float(trim_db.value))),
        AfterSend::Report {
            done: ToolReply::Success(done),
            failed: Failure { before, behind: String::new(), internal: true },
        },
    )
}

/// Runs a menu action by its name. Where the message cannot be sent, the call fails.
pub fn access_action_tool(action_name: String) -> (r: Action)
    ensures
        if action_name@.len() == 0 {
            finishes(r, ToolReplyView::Error("action_name cannot be empty."@))
        } else {
            reports(
                r,
                (MessageView {
                    addr: "/access_action"@,
                    args: seq![ArgView::Text(action_name@)],
                }),
                ToolReplyView::Success(
                    "Successfully sent OSC message /access_action with action_name '"@
                        + action_name@ + "'"@,
                ),
                (FailureView {
                    before: "Failed to send OSC message /access_action for action_name '"@
                        + action_name@ + "': "@,
                    behind: Seq::empty(),
                    internal: true,
                }),
            )
        },
{
    if action_name.as_str().unicode_len() == 0 {
        return refuse("action_name cannot be empty.");
    }
    let mut done = "Successfully sent OSC message /access_action with action_name '".to_owned();
    done.append(action_name.as_str());
    done.append("'");
    let mut before = "Failed to send OSC message /access_action for action_name '".to_owned();
    before.append(action_name.as_str());
    before.append("': ");
    Action::Send(
        message("/access_action", one_arg(OscArg::Text(action_name))),
        AfterSend::Report {
            done: ToolReply::Success(done),
            failed: Failure { before, behind: String::new(), internal: true },
        },
    )
}

/// The address that turns a plugin on or off.
pub open spec fn activation_address(active: bool) -> Seq<char> {
    if active {
        "/strip/plugin/activate"@
    } else {
        "/strip/plugin/deactivate"@
    }
}

/// Turns a plugin on or off. Its slot is counted from one.
pub fn set_strip_plugin_active_tool(rid: i32, plugin_slot: i32, active_state: bool) -> (r: Action)
    ensures
        if plugin_slot <= 0 {
            finishes(
                r,
                ToolReplyView::Error("Invalid plugin_slot: must be a positive integer."@),
            )
        } else {
            reports(
                r,
                (MessageView {
                    addr: activation_address(active_state),
                    args: seq![ArgView::Int(rid), ArgView::Int(plugin_slot)],
                }),
                ToolReplyView::Success(
                    "Strip "@ + decimal_text(rid as int) + " plugin in slot "@ + decimal_text(
                        plugin_slot as int,
                    ) + " command ("@ + (if active_state {
                        "activate"@
                    } else {
                        "deactivate"@
                    }) + ") sent."@,
                ),
                error_for(activation_address(active_state)),
            )
        },
{
    if plugin_slot <= 0 {
        return refuse("Invalid plugin_slot: must be a positive integer.");
    }
    let (addr, word) = if active_state {
        ("/strip/plugin/activate", "activate")
    } else {
        ("/strip/plugin/deactivate", "deactivate")
    };
    let mut done = with_number("Strip ", rid as i64);
    done.append(" plugin in slot ");
    done.append(decimal(plugin_slot as i64).as_str());
    done.append(" command (");
    done.append(word);
    done.append(") sent.");
    send_to(
        addr,
        two_args(OscArg::Int(rid), OscArg::Int(plugin_slot)),
        ToolReply::Success(done),
    )
}

/// The slot that a plugin is inserted at; 0 stands for the end.
pub open spec fn insertion_slot(slot: Option<i32>) -> i32 {
    match slot {
        Some(n) => n,
        None => 0,
    }
}

/// Inserts a plugin on a strip.
pub fn insert_strip_plugin_tool(rid: i32, plugin_uri: String, slot: Option<i32>) -> (r: Action)
    ensures
        if rid <= 0 {
            finishes(r, ToolReplyView::Error("Invalid rid: must be a positive integer."@))
        } else {
            reports(
                r,
                (MessageView {
                    addr: "/strip/plugin/insert"@,
                    args: seq![
                        ArgView::Int(rid),
                        ArgView::Text(plugin_uri@),
                        ArgView::Int(insertion_slot(slot)),
                    ],
                }),
                ToolReplyView::Success(
                    "Plugin insertion command sent: "@ + plugin_uri@ + " on strip "@
                        + decimal_text(rid as int) + " at slot "@ + (if insertion_slot(slot)
                        == 0 {
                        "auto-append"@
                    } else {
                        decimal_text(insertion_slot(slot) as int)
                    }),
                ),
                error_for("/strip/plugin/insert"@),
            )
        },
{
    if rid <= 0 {
        return refuse("Invalid rid: must be a positive integer.");
    }
    let at: i32 = match slot {
        Some(n) => n,
        None => 0,
    };
    let mut done = "Plugin insertion command sent: ".to_owned();
    done.append(plugin_uri.as_str());
    done.append(" on strip ");
    done.append(decimal(rid as i64).as_str());
    done.append(" at slot ");
    if at == 0 {
        done.append("auto-append");
    } else {
        done.append(decimal(at as i64).as_str());
    }
    send_to(
        "/strip/plugin/insert",
        three_args(OscArg::Int(rid), OscArg::Text(plugin_uri), OscArg::Int(at)),
        ToolReply::Success(done),
    )
}

/// Whether a number lies outside 0 to 1, or is not a number.
pub open spec fn outside_unit(v: Single) -> bool {
    v.nan() || v.below(0) || v.above(1)
}

/// Whether a number lies outside 0 to 1, or is not a number.
pub fn is_outside_unit(v: &Single) -> (r: bool)
    ensures
        r == outside_unit(*v),
{
    v.is_nan() || v.is_below(0) || v.is_above(1)
}

/// Sets the stereo width of a strip.
pub fn set_strip_pan_stereo_width_tool(rid: i32, width: Number) -> (r: Action)
    ensures
        if outside_unit(width.value) {
            finishes(
                r,
                ToolReplyView::Error("Invalid width: must be between 0.0 and 1.0 (inclusive)."@),
            )
        } else {
            reports(
                r,
                (MessageView {
                    addr: "/strip/panner/width"@,
                    args: seq![ArgView::Int(rid), ArgView::Float(width.value)],
                }),
                ToolReplyView::Success(
                    "Strip "@ + decimal_text(rid as int) + " stereo pan width set to "@
                        + width.text@ + "."@,
                ),
                error_for("/strip/panner/width"@),
            )
        },
{
    if is_outside_unit(&width.value) {
        return refuse("Invalid width: must be between 0.0 and 1.0 (inclusive).");
    }
    let mut done = with_number("Strip ", rid as i64);
    done.append(" stereo pan width set to ");
    done.append(width.text.as_str());
    done.append(".");
    send_to(
        "/strip/panner/width",
        two_args(OscArg::Int(rid), OscArg::Float(width.value)),
        ToolReply::Success(done),
    )
}

/// Sets the stereo width of the selected strip.
pub fn set_selected_strip_pan_stereo_width_tool(width: Number) -> (r: Action)
    ensures
        if outside_unit(width.value) {
            finishes(
                r,
                ToolReplyView::Error("Invalid width: must be between 0.0 and 1.0 (inclusive)."@),
            )
        } else {
            reports(
                r,
                (MessageView {
                    addr: "/select/pan_stereo_width"@,
                    args: seq![ArgView::Float(width.value)],
                }),
                ToolReplyView::Success(
                    "Selected strip stereo pan width set to "@ + width.text@
                        + ".\n (Ensure a strip was selected prior to calling this)"@,
                ),
                error_for("/select/pan_stereo_width"@),
            )
        },
{
    if is_outside_unit(&width.value) {
        return refuse("Invalid width: must be between 0.0 and 1.0 (inclusive).");
    }
    let mut done = "Selected strip stereo pan width set to ".to_owned();
    done.append(width.text.as_str());
    done.append(".\n (Ensure a strip was selected prior to calling this)");
    send_to(
        "/select/pan_stereo_width",
        one_arg(OscArg::Float(width.value)),
        ToolReply::Success(done),
    )
}

/// Sets the gain of a send in decibels.
pub fn set_strip_send_gain_db_tool(rid: i32, send_id: i32, gain_db: Number) -> (r: Action)
    ensures
        if rid <= 0 || send_id <= 0 {
            finishes(
                r,
                ToolReplyView::Error("Invalid rid/send_id: must be positive integers."@),
            )
        } else {
            reports(
                r,
                (MessageView {
                    addr: "/strip/send/gain"@,
                    args: seq![
                        ArgView::Int(rid),
                        ArgView::Int(send_id),
                        ArgView::Float(gain_db.value),
                    ],
                }),
                ToolReplyView::Success(
                    "Strip "@ + decimal_text(rid as int) + " send "@ + decimal_text(
                        send_id as int,
                    ) + " gain set to "@ + gain_db.text@ + " dB."@,
                ),
                error_for("/strip/send/gain"@),
            )
        },
{
    if rid <= 0 || send_id <= 0 {
        return refuse("Invalid rid/send_id: must be positive integers.");
    }
    let mut done = with_number("Strip ", rid as i64);
    done.append(" send ");
    done.append(decimal(send_id as i64).as_str());
    done.append(" gain set to ");
    done.append(gain_db.text.as_str());
    done.append(" dB.");
    send_to(
        "/strip/send/gain",
        three_args(OscArg::Int(rid), OscArg::Int(send_id), OscArg::Float(gain_db.value)),
        ToolReply::Success(done),
    )
}

/// Sets the fader of a send.
pub fn set_strip_send_fader_tool(rid: i32, send_id: i32, fader: Number) -> (r: Action)
    ensures
        if rid <= 0 || send_id <= 0 {
            finishes(
                r,
                ToolReplyView::Error("Invalid rid/send_id: must be positive integers."@),
            )
        } else {
            reports(
                r,
                (MessageView {
                    addr: "/strip/send/fader"@,
                    args: seq![
                        ArgView::Int(rid),
                        ArgView::Int(send_id),
                        ArgView::Float(fader.value),
                    ],
                }),
                ToolReplyView::Success(
                    "Strip "@ + decimal_text(rid as int) + " send "@ + decimal_text(
                        send_id as int,
                    ) + " fader set to "@ + fader.text@ + "."@,
                ),
                error_for("/strip/send/fader"@),
            )
        },
{
    if rid <= 0 || send_id <= 0 {
        return refuse("Invalid rid/send_id: must be positive integers.");
    }
    let mut done = with_number("Strip ", rid as i64);
    done.append(" send ");
    done.append(decimal(send_id as i64).as_str());
    done.append(" fader set to ");
    done.append(fader.text.as_str());
    done.append(".");
    send_to(
        "/strip/send/fader",
        three_args(OscArg::Int(rid), OscArg::Int(send_id), OscArg::Float(fader.value)),
        ToolReply::Success(done),
    )
}

/// Turns a send on or off.
pub fn set_strip_send_enable_tool(rid: i32, send_id: i32, enable_state: bool) -> (r: Action)
    ensures
        if rid <= 0 || send_id <= 0 {
            finishes(
                r,
                ToolReplyView::Error("Invalid rid/send_id: must be positive integers."@),
            )
        } else {
            reports(
                r,
                (MessageView {
                    addr: "/strip/send/enable"@,
                    args: seq![
                        ArgView::Int(rid),
                        ArgView::Int(send_id),
                        ArgView::Float(single_of_int(if enable_state { 1 } else { 0 })),
                    ],
                }),
                ToolReplyView::Success(
                    "Strip "@ + decimal_text(rid as int) + " send "@ + decimal_text(
                        send_id as int,
                    ) + " enable set to "@ + bool_text(enable_state) + "."@,
                ),
                error_for("/strip/send/enable"@),
            )
        },
{
    if rid <= 0 || send_id <= 0 {
        return refuse("Invalid rid/send_id: must be positive integers.");
    }
    let state: i32 = if enable_state {
        1
    } else {
        0
    };
    let mut done = with_number("Strip ", rid as i64);
    done.append(" send ");
    done.append(decimal(send_id as i64).as_str());
    done.append(" enable set to ");
    done.append(truth(enable_state).as_str());
    done.append(".");
    send_to(
        "/strip/send/enable",
        three_args(OscArg::Int(rid), OscArg::Int(send_id), OscArg::Float(Single::from_int(state))),
        ToolReply::Success(done),
    )
}

/// The address that sets the polarity of a strip.
pub open spec fn polarity_address(rid: i32) -> Seq<char> {
    "/strip/"@ + decimal_text(rid as int) + "/polarity"@
}

/// Inverts the polarity of a strip, or sets it back.
pub fn set_strip_polarity_tool(rid: i32, invert_state: bool) -> (r: Action)
    ensures
        if rid <= 0 {
            finishes(r, ToolReplyView::Error("Invalid rid: must be a positive integer."@))
        } else {
            reports(
                r,
                (MessageView {
                    addr: polarity_address(rid),
                    args: seq![ArgView::Int(if invert_state { 1 } else { 0 })],
                }),
                ToolReplyView::Success(
                    "Strip "@ + decimal_text(rid as int) + " polarity invert set to "@
                        + bool_text(invert_state) + "."@,
                ),
                error_for(polarity_address(rid)),
            )
        },
{
    if rid <= 0 {
        return refuse("Invalid rid: must be a positive integer.");
    }
    let mut addr = with_number("/strip/", rid as i64);
    addr.append("/polarity");
    let state: i32 = if invert_state {
        1
    } else {
        0
    };
    let mut done = with_number("Strip ", rid as i64);
    done.append(" polarity invert set to ");
    done.append(truth(invert_state).as_str());
    done.append(".");
    send_to(addr.as_str(), one_arg(OscArg::Int(state)), ToolReply::Success(done))
}

/// Writes an automation point for a parameter of a plugin. Slot and parameter are counted
/// from zero.
pub fn write_plugin_automation_tool(
    route_id: i32,
    plugin_slot: i32,
    param_id: i32,
    time_samples: i64,
    value: Single,
) -> (r: Action)
    ensures
        reports(
            r,
            (MessageView {
                addr: "/mixpilot/write_plugin_auto"@,
                args: seq![
                    ArgView::Int(route_id),
                    ArgView::Int(after(plugin_slot)),
                    ArgView::Int(after(param_id)),
                    ArgView::Int(time_samples as i32),
                    ArgView::Float(value),
                ],
            }),
            ToolReplyView::Document(
                DocumentView::PluginAutomation {
                    route_id,
                    plugin_slot,
                    param_id,
                    time_samples,
                    value,
                },
            ),
            failure("Failed to write plugin automation: "@),
        ),
{
    Action::Send(
        message(
            "/mixpilot/write_plugin_auto",
            five_args(
                OscArg::Int(route_id),
                OscArg::Int(one_more(plugin_slot)),
                OscArg::Int(one_more(param_id)),
                OscArg::Int(time_samples as i32),
                OscArg::Float(value),
            ),
        ),
        AfterSend::Report {
            done: ToolReply::Document(
                Document::PluginAutomation { route_id, plugin_slot, param_id, time_samples, value },
            ),
            failed: failing("Failed to write plugin automation: "),
        },
    )
}

} // verus!
