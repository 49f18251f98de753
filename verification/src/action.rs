//! What a tool does next. A tool runs by itself up to the point where something has to
//! happen outside: a message is sent, some time passes, or a reply is waited for. It then
//! says what it wants and how it goes on afterwards.

use crate::osc::{args_view, message, ArgView, MessageView, OscArg, OscMessage};
use crate::pending::Waiting;
use crate::plugins::PluginEntry;
use crate::reply::{Meter, ToolReply, ToolReplyView};
use crate::single::Single;
use crate::state::PluginParameter;
use crate::text::{contains, has_text};
use vstd::prelude::*;
use vstd::string::*;

verus! {

/// A number as it was handed over, together with its text.
#[derive(Debug)]
pub struct Number {
    pub value: Single,
    pub text: String,
}

/// Why a message could not be sent: in short, and in full.
#[derive(Debug)]
pub struct SendFailure {
    pub text: String,
    pub debug: String,
}

/// What is replied where a message could not be sent: the reason, with text around it.
/// The call itself may fail by it.
#[derive(Debug)]
pub struct Failure {
    pub before: String,
    pub behind: String,
    pub internal: bool,
}

/// What a failure says.
pub struct FailureView {
    pub before: Seq<char>,
    pub behind: Seq<char>,
    pub internal: bool,
}

impl View for Failure {
    type V = FailureView;

    open spec fn view(&self) -> FailureView {
        FailureView { before: self.before@, behind: self.behind@, internal: self.internal }
    }
}

/// An error of the tool that ends with the reason.
pub open spec fn failure(before: Seq<char>) -> FailureView {
    FailureView { before, behind: Seq::empty(), internal: false }
}

/// What is replied where a message could not be sent.
pub open spec fn failure_reply(f: FailureView, e: SendFailure) -> ToolReplyView {
    if f.internal {
        ToolReplyView::InternalError(f.before + e.debug@ + f.behind)
    } else {
        ToolReplyView::Error(f.before + e.text@ + f.behind)
    }
}

/// A change of a parameter of a plugin, under way.
#[derive(Debug)]
pub struct ParameterChange {
    pub rid: i32,
    pub plugin_slot: i32,
    pub param_id: i32,
    pub value: Number,
}

/// What follows once a plugin is selected.
#[derive(Clone, Copy, Debug, PartialEq, Eq, Structural)]
pub enum AfterSelection {
    Reply,
    ReadParameters,
}

/// A selection of a plugin, under way. The slot is counted from one.
#[derive(Clone, Copy, Debug, PartialEq, Eq, Structural)]
pub struct Selection {
    pub rid: i32,
    pub plugin_slot: i32,
    pub next: AfterSelection,
}

/// What follows once the plugins on a strip were listed.
#[derive(Clone, Copy, Debug, PartialEq, Eq, Structural)]
pub enum AfterListing {
    Reply,
    ReadMeters,
}

/// A listing of the plugins on a strip, under way.
#[derive(Clone, Copy, Debug, PartialEq, Eq, Structural)]
pub struct Listing {
    pub rid: i32,
    pub next: AfterListing,
}

/// The meters on a strip, one of which is being read.
#[derive(Debug)]
pub struct MeterRun {
    pub rid: i32,
    /// The meters that were read.
    pub found: Vec<Meter>,
    pub current: PluginEntry,
    /// The meters that are left.
    pub left: Vec<PluginEntry>,
}

/// The outputs of a meter, one of which is being read.
#[derive(Debug)]
pub struct OutputRun {
    pub run: MeterRun,
    pub param: i32,
    /// The outputs that are left.
    pub left: Vec<i32>,
    /// The outputs that were read.
    pub parameters: Vec<PluginParameter>,
}

/// A change of a parameter in a region, under way.
#[derive(Debug)]
pub struct RegionChange {
    pub route: String,
    pub route_id: i32,
    pub plugin_name: String,
    pub param_name: String,
    pub value: Number,
    pub start_samples: i64,
    pub end_samples: i64,
}

/// A request for the value of an automated control, under way.
#[derive(Debug)]
pub struct AutomationQuery {
    pub route_id: i32,
    pub control_type: String,
    pub time_samples: i64,
}

/// How a tool goes on once a message was sent, or could not be.
#[derive(Debug)]
pub enum AfterSend {
    /// It is done.
    Report { done: ToolReply, failed: Failure },
    StripSelected { rid: i32 },
    /// The position of the playhead was asked for; what it was before stands here.
    Refreshed { position: String },
    /// The parameter was to be set without selecting anything.
    ChangeTried(ParameterChange),
    ChangeStripSelected(ParameterChange),
    ChangePluginSelected(ParameterChange),
    SelectionListed(Selection),
    SelectionStripSelected(Selection),
    SelectionMade(Selection),
    BatchRequested { rid: i32, plugin_slot: i32 },
    PluginsRequested(Listing),
    MeterDescribed(MeterRun),
    MeterBatchRequested(MeterRun, Vec<i32>),
    MeterOutputRequested(OutputRun),
    MeterFrameRequested { rid: i32, found: Vec<Meter> },
    SampleRateRequested,
    LoopRangeRequested,
    RegionPluginAdded(RegionChange),
    /// The value of a control was asked for.
    AutomationRequested { query: AutomationQuery, failed: Failure },
    /// The value of a control was asked for, to be written as a point.
    CurrentValueRequested(AutomationQuery),
    StripListRequested,
}

/// How a tool goes on once some time has passed.
#[derive(Debug)]
pub enum AfterSleep {
    Refreshed { position: String },
    ChangePluginSelected(ParameterChange),
    /// How many times the list was waited for stands with it.
    SelectionListed { selection: Selection, attempt: u32 },
    SelectionMade(Selection),
    ParametersReported { rid: i32, plugin_slot: i32 },
    PluginsRequested { listing: Listing, attempt: u32 },
    MeterFrameRequested { rid: i32, found: Vec<Meter> },
    RegionPluginAdded(RegionChange),
    StripListRequested,
}

/// How a tool goes on once a reply came, or did not.
#[derive(Debug)]
pub enum AfterAwait {
    Batch { rid: i32, plugin_slot: i32 },
    MeterDescribed(MeterRun),
    MeterBatch(MeterRun, Vec<i32>),
    MeterOutput(OutputRun),
    SampleRate,
    LoopRange,
    Automation(AutomationQuery),
    /// What comes is written as a point.
    CurrentValue(AutomationQuery),
}

/// What a tool does next.
#[derive(Debug)]
pub enum Action {
    /// Sends a message.
    Send(OscMessage, AfterSend),
    /// Lets so many milliseconds pass.
    Sleep(u64, AfterSleep),
    /// Waits for a reply, at most so many milliseconds.
    Await(Waiting, u64, AfterAwait),
    /// Replies.
    Finish(ToolReply),
}

/// Whether the tool replies this.
pub open spec fn finishes(a: Action, reply: ToolReplyView) -> bool {
    a matches Action::Finish(r) && r@ == reply
}

/// Whether the tool sends this message, and then is done or reports the failure.
pub open spec fn reports(
    a: Action,
    m: MessageView,
    done: ToolReplyView,
    failed: FailureView,
) -> bool {
    a matches Action::Send(msg, AfterSend::Report { done: d, failed: f }) && msg@ == m && d@ == done
        && f@ == failed
}

/// A message without arguments.
pub open spec fn plain(addr: Seq<char>) -> MessageView {
    MessageView { addr, args: Seq::empty() }
}

/// What is replied once a message was sent, or could not be.
pub open spec fn reported(
    done: ToolReplyView,
    failed: FailureView,
    outcome: Result<(), SendFailure>,
) -> ToolReplyView {
    match outcome {
        Ok(_) => done,
        Err(e) => failure_reply(failed, e),
    }
}

/// Replies that a message could not be sent.
pub fn fail(failed: Failure, e: &SendFailure) -> (r: ToolReply)
    ensures
        r@ == failure_reply(failed@, *e),
{
    let mut t = failed.before;
    if failed.internal {
        t.append(e.debug.as_str());
        t.append(failed.behind.as_str());
        ToolReply::InternalError(t)
    } else {
        t.append(e.text.as_str());
        t.append(failed.behind.as_str());
        ToolReply::Error(t)
    }
}

/// Replies what a message that was sent, or could not be, comes to.
pub fn report_outcome(
    done: ToolReply,
    failed: Failure,
    outcome: &Result<(), SendFailure>,
) -> (r: Action)
    ensures
        finishes(r, reported(done@, failed@, *outcome)),
{
    match outcome {
        Ok(_) => Action::Finish(done),
        Err(e) => Action::Finish(fail(failed, e)),
    }
}

/// An error of the tool that ends with the reason.
pub fn failing(before: &str) -> (r: Failure)
    ensures
        r@ == failure(before@),
{
    Failure { before: before.to_owned(), behind: String::new(), internal: false }
}

/// Replies that the tool ran into an error.
pub fn refuse(text: &str) -> (r: Action)
    ensures
        finishes(r, ToolReplyView::Error(text@)),
{
    Action::Finish(ToolReply::Error(text.to_owned()))
}

/// A list of one argument.
pub fn one_arg(a: OscArg) -> (r: Vec<OscArg>)
    ensures
        args_view(r@) == seq![a@],
{
    let mut r: Vec<OscArg> = Vec::new();
    r.push(a);
    assert(args_view(r@) =~= seq![a@]);
    r
}

/// A list of two arguments.
pub fn two_args(a: OscArg, b: OscArg) -> (r: Vec<OscArg>)
    ensures
        args_view(r@) == seq![a@, b@],
{
    let mut r: Vec<OscArg> = Vec::new();
    r.push(a);
    r.push(b);
    assert(args_view(r@) =~= seq![a@, b@]);
    r
}

/// A list of three arguments.
pub fn three_args(a: OscArg, b: OscArg, c: OscArg) -> (r: Vec<OscArg>)
    ensures
        args_view(r@) == seq![a@, b@, c@],
{
    let mut r: Vec<OscArg> = Vec::new();
    r.push(a);
    r.push(b);
    r.push(c);
    assert(args_view(r@) =~= seq![a@, b@, c@]);
    r
}

/// A list of four arguments.
pub fn four_args(a: OscArg, b: OscArg, c: OscArg, d: OscArg) -> (r: Vec<OscArg>)
    ensures
        args_view(r@) == seq![a@, b@, c@, d@],
{
    let mut r = three_args(a, b, c);
    let ghost head = r@;
    r.push(d);
    assert(args_view(r@) =~= args_view(head).push(d@));
    assert(args_view(r@) =~= seq![a@, b@, c@, d@]);
    r
}

/// A list of five arguments.
pub fn five_args(a: OscArg, b: OscArg, c: OscArg, d: OscArg, e: OscArg) -> (r: Vec<OscArg>)
    ensures
        args_view(r@) == seq![a@, b@, c@, d@, e@],
{
    let mut r = four_args(a, b, c, d);
    let ghost head = r@;
    r.push(e);
    assert(args_view(r@) =~= args_view(head).push(e@));
    assert(args_view(r@) =~= seq![a@, b@, c@, d@, e@]);
    r
}

/// A message without arguments.
pub fn plain_message(addr: &str) -> (r: OscMessage)
    ensures
        r@ == plain(addr@),
{
    let args: Vec<OscArg> = Vec::new();
    assert(args_view(args@) =~= Seq::<ArgView>::empty());
    message(addr, args)
}

/// Whether the reason why a message could not be sent is that nobody listens.
pub open spec fn connection_lost(text: Seq<char>) -> bool {
    has_text(text, "Connection refused"@) || has_text(text, "os error 61"@)
}

/// Whether the reason why a message could not be sent is that nobody listens.
pub fn is_connection_lost(text: &str) -> (r: bool)
    ensures
        r == connection_lost(text@),
{
    contains(text, "Connection refused") || contains(text, "os error 61")
}

/// Says why a message could not be sent.
pub open spec fn send_error_text(text: Seq<char>) -> Seq<char> {
    if connection_lost(text) {
        "OSC connection to Ardour lost: "@ + text
            + ". Ardour may have crashed or OSC server stopped."@
    } else {
        "Failed to send OSC message: "@ + text
    }
}

/// Says why a message could not be sent, given the text of the error that came of it.
pub fn explain_send_error(text: &str) -> (r: String)
    ensures
        r@ == send_error_text(text@),
{
    if is_connection_lost(text) {
        let mut t = "OSC connection to Ardour lost: ".to_owned();
        t.append(text);
        t.append(". Ardour may have crashed or OSC server stopped.");
        t
    } else {
        let mut t = "Failed to send OSC message: ".to_owned();
        t.append(text);
        t
    }
}

} // verus!
