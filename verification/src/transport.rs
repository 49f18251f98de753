//! The state of the transport and of the session.

use crate::action::{
    connection_lost, finishes, is_connection_lost, one_arg, plain, plain_message, refuse, Action,
    AfterAwait, AfterSend, AfterSleep, SendFailure,
};
use crate::osc::{message, ArgView, MessageView, OscArg};
use crate::pending::{LoopRange, Reply, WaitError, Waiting};
use crate::reply::{Document, DocumentView, ToolReply, ToolReplyView};
use crate::state::{known_strips, ArdourState, PlaybackStatus, StateView};
use crate::text::{decimal, decimal_text, nat_text, natural};
use vstd::prelude::*;
use vstd::string::*;

verus! {

/// The port on which replies of the workstation are received.
pub const REPLY_PORT: i32 = 9099;

/// The sample rate that a session is taken to have where it cannot be learned.
pub const DEFAULT_SAMPLE_RATE: i32 = 48000;

/// Whether the transport rolls, as text.
pub open spec fn status_text(status: PlaybackStatus) -> Seq<char> {
    match status {
        PlaybackStatus::Playing => "Playing"@,
        PlaybackStatus::Stopped => "Stopped"@,
        PlaybackStatus::Unknown => "Unknown"@,
    }
}

/// The position of the playhead, as text.
pub open spec fn frame_text(frame: Option<i64>) -> Seq<char> {
    match frame {
        Some(n) => decimal_text(n as int),
        None => "Unknown"@,
    }
}

/// Whether the transport rolls, as text.
pub fn describe_status(status: PlaybackStatus) -> (r: String)
    ensures
        r@ == status_text(status),
{
    match status {
        PlaybackStatus::Playing => "Playing".to_owned(),
        PlaybackStatus::Stopped => "Stopped".to_owned(),
        PlaybackStatus::Unknown => "Unknown".to_owned(),
    }
}

/// The position of the playhead, as text.
pub fn describe_frame(frame: Option<i64>) -> (r: String)
    ensures
        r@ == frame_text(frame),
{
    match frame {
        Some(n) => decimal(n),
        None => "Unknown".to_owned(),
    }
}

/// A reply about the transport.
pub open spec fn transport_reply(status: PlaybackStatus, position: Seq<char>) -> ToolReplyView {
    ToolReplyView::Document(DocumentView::TransportState { status: status_text(status), position })
}

/// Replies what the transport does.
fn reply_transport(status: PlaybackStatus, position: String) -> (r: Action)
    ensures
        finishes(r, transport_reply(status, position@)),
{
    Action::Finish(
        ToolReply::Document(
            Document::TransportState { status: describe_status(status), position },
        ),
    )
}

/// Tells what the transport does. Where that is not known, the workstation is first asked
/// for the position of the playhead, which may make it report more.
pub fn get_transport_state_tool(state: &ArdourState) -> (r: Action)
    ensures
        if state@.playback == PlaybackStatus::Unknown {
            r matches Action::Send(m, AfterSend::Refreshed { position }) && m@ == plain(
                "/transport_frame"@,
            ) && position@ == frame_text(state@.frame)
        } else {
            finishes(r, transport_reply(state@.playback, frame_text(state@.frame)))
        },
{
    let status = state.playback_status();
    let position = describe_frame(state.transport_frame());
    match status {
        PlaybackStatus::Unknown => Action::Send(
            plain_message("/transport_frame"),
            AfterSend::Refreshed { position },
        ),
        _ => reply_transport(status, position),
    }
}

/// How it goes on once the position was asked for.
pub open spec fn refreshed(
    position: String,
    outcome: Result<(), SendFailure>,
    r: Action,
) -> bool {
    match outcome {
        Ok(_) => r == Action::Sleep(100, AfterSleep::Refreshed { position }),
        Err(e) => if connection_lost(e.text@) {
            finishes(
                r,
                ToolReplyView::Error(
                    "OSC connection to Ardour lost. Ardour may have crashed or OSC server stopped."@,
                ),
            )
        } else {
            finishes(r, transport_reply(PlaybackStatus::Unknown, position@))
        },
    }
}

/// Goes on once the position was asked for.
pub fn after_refresh(position: String, outcome: Result<(), SendFailure>) -> (r: Action)
    ensures
        refreshed(position, outcome, r),
{
    match outcome {
        Ok(_) => Action::Sleep(100, AfterSleep::Refreshed { position }),
        Err(e) => if is_connection_lost(e.text.as_str()) {
            refuse("OSC connection to Ardour lost. Ardour may have crashed or OSC server stopped.")
        } else {
            reply_transport(PlaybackStatus::Unknown, position)
        },
    }
}

/// Tells what the transport does after it had time to report; the position is that from
/// before.
pub fn after_refresh_time(position: String, state: &ArdourState) -> (r: Action)
    ensures
        finishes(r, transport_reply(state@.playback, position@)),
{
    reply_transport(state.playback_status(), position)
}

/// Asks for the sample rate of the session.
pub fn get_session_sample_rate_tool() -> (r: Action)
    ensures
        r matches Action::Send(m, AfterSend::SampleRateRequested) && m@ == (MessageView {
            addr: "/mixpilot/get_sample_rate"@,
            args: seq![ArgView::Int(REPLY_PORT)],
        }),
{
    Action::Send(
        message("/mixpilot/get_sample_rate", one_arg(OscArg::Int(REPLY_PORT))),
        AfterSend::SampleRateRequested,
    )
}

/// A reply with a sample rate.
pub open spec fn rate_reply(rate: i32) -> ToolReplyView {
    ToolReplyView::Document(DocumentView::SampleRate(rate))
}

/// How it goes on once the sample rate was asked for.
pub open spec fn sample_rate_requested(outcome: Result<(), SendFailure>, r: Action) -> bool {
    match outcome {
        Ok(_) => r == Action::Await(Waiting::SampleRate, 1000, AfterAwait::SampleRate),
        Err(_) => finishes(r, rate_reply(DEFAULT_SAMPLE_RATE)),
    }
}

/// Goes on once the sample rate was asked for.
pub fn after_sample_rate_request(outcome: Result<(), SendFailure>) -> (r: Action)
    ensures
        sample_rate_requested(outcome, r),
{
    match outcome {
        Ok(_) => Action::Await(Waiting::SampleRate, 1000, AfterAwait::SampleRate),
        Err(_) => Action::Finish(ToolReply::Document(Document::SampleRate(DEFAULT_SAMPLE_RATE))),
    }
}

/// The sample rate that was replied, or the default.
pub open spec fn replied_rate(outcome: Result<Reply, WaitError>) -> i32 {
    match outcome {
        Ok(Reply::SampleRate(rate)) => rate,
        _ => DEFAULT_SAMPLE_RATE,
    }
}

/// Replies the sample rate once it came, or the default.
pub fn after_sample_rate(outcome: Result<Reply, WaitError>) -> (r: Action)
    ensures
        finishes(r, rate_reply(replied_rate(outcome))),
{
    let rate: i32 = match outcome {
        Ok(Reply::SampleRate(rate)) => rate,
        _ => DEFAULT_SAMPLE_RATE,
    };
    Action::Finish(ToolReply::Document(Document::SampleRate(rate)))
}

/// Asks for the loop range of the session.
pub fn get_loop_range_tool() -> (r: Action)
    ensures
        r matches Action::Send(m, AfterSend::LoopRangeRequested) && m@ == (MessageView {
            addr: "/mixpilot/get_loop_range"@,
            args: seq![ArgView::Int(REPLY_PORT)],
        }),
{
    Action::Send(
        message("/mixpilot/get_loop_range", one_arg(OscArg::Int(REPLY_PORT))),
        AfterSend::LoopRangeRequested,
    )
}

/// A reply about the loop range.
pub open spec fn range_reply(range: Option<LoopRange>) -> ToolReplyView {
    match range {
        Some(range) => ToolReplyView::Document(DocumentView::LoopRange(range)),
        None => ToolReplyView::Success("null"@),
    }
}

/// Replies the loop range.
fn reply_range(range: Option<LoopRange>) -> (r: Action)
    ensures
        finishes(r, range_reply(range)),
{
    match range {
        Some(range) => Action::Finish(ToolReply::Document(Document::LoopRange(range))),
        None => Action::Finish(ToolReply::Success("null".to_owned())),
    }
}

/// How it goes on once the loop range was asked for.
pub open spec fn loop_range_requested(outcome: Result<(), SendFailure>, r: Action) -> bool {
    match outcome {
        Ok(_) => r == Action::Await(Waiting::LoopRange, 1000, AfterAwait::LoopRange),
        Err(_) => finishes(r, range_reply(None)),
    }
}

/// Goes on once the loop range was asked for.
pub fn after_loop_range_request(outcome: Result<(), SendFailure>) -> (r: Action)
    ensures
        loop_range_requested(outcome, r),
{
    match outcome {
        Ok(_) => Action::Await(Waiting::LoopRange, 1000, AfterAwait::LoopRange),
        Err(_) => reply_range(None),
    }
}

/// The loop range that was replied.
pub open spec fn replied_range(outcome: Result<Reply, WaitError>) -> Option<LoopRange> {
    match outcome {
        Ok(Reply::LoopRange(range)) => range,
        _ => None,
    }
}

/// Replies the loop range once it came, or that there is none.
pub fn after_loop_range(outcome: Result<Reply, WaitError>) -> (r: Action)
    ensures
        finishes(r, range_reply(replied_range(outcome))),
{
    match outcome {
        Ok(Reply::LoopRange(range)) => reply_range(range),
        _ => reply_range(None),
    }
}

/// Asks for the list of all strips.
pub fn request_strip_list_tool() -> (r: Action)
    ensures
        r matches Action::Send(m, AfterSend::StripListRequested) && m@ == plain("/strip/list"@),
{
    Action::Send(plain_message("/strip/list"), AfterSend::StripListRequested)
}

/// How it goes on once the list of all strips was asked for.
pub open spec fn strip_list_requested(outcome: Result<(), SendFailure>, r: Action) -> bool {
    match outcome {
        Ok(_) => r == Action::Sleep(500, AfterSleep::StripListRequested),
        Err(e) => finishes(
            r,
            ToolReplyView::Error("Failed to send /strip/list request: "@ + e.text@),
        ),
    }
}

/// Goes on once the list of all strips was asked for.
pub fn after_strip_list_request(outcome: Result<(), SendFailure>) -> (r: Action)
    ensures
        strip_list_requested(outcome, r),
{
    match outcome {
        Ok(_) => Action::Sleep(500, AfterSleep::StripListRequested),
        Err(e) => {
            let mut t = "Failed to send /strip/list request: ".to_owned();
            t.append(e.text.as_str());
            Action::Finish(ToolReply::Error(t))
        },
    }
}

/// Tells how many strips are known.
pub open spec fn strip_count_reply(s: StateView) -> ToolReplyView {
    ToolReplyView::Success(
        "Strip list requested from Ardour. Currently have "@ + nat_text(
            known_strips(s.strips).len(),
        ) + " strips in cache."@,
    )
}

/// Tells how many strips are known once the list had time to come.
pub fn after_strip_list_time(state: &ArdourState) -> (r: Action)
    ensures
        finishes(r, strip_count_reply(state@)),
{
    let mut t = "Strip list requested from Ardour. Currently have ".to_owned();
    t.append(natural(state.strip_count() as u64).as_str());
    t.append(" strips in cache.");
    Action::Finish(ToolReply::Success(t))
}

} // verus!
