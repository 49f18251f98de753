//! The plugins on a strip, and the readings of the meters among them.

use crate::action::{
    finishes, plain, plain_message, three_args, two_args, Action, AfterAwait, AfterListing,
    AfterSend, AfterSleep, Listing, MeterRun, OutputRun, SendFailure,
};
use crate::order::lemma_filter_push;
use crate::osc::{message, ArgView, MessageView, OscArg};
use crate::pending::{Reply, WaitError, Waiting};
use crate::plugins::{entries_view, EntryView, PluginEntry};
use crate::readings::{
    find_outputs, list_plugins, listed_plugins_on, match_outputs, matched_outputs, outputs_of,
    read_parameter, reading,
};
use crate::reply::{
    meters_view, readings_view, Document, DocumentView, Meter, MeterView, NamedReading, ToolReply,
    ToolReplyView,
};
use crate::selection::{
    bad_rid, batch_message, batch_request, knows_plugins, list_message, list_request, plugins_known,
    plugins_on, refuse_rid,
};
use crate::single::Single;
use crate::slots::{after, one_more};
use crate::state::{parameters_view, ArdourState, ParameterView, PluginParameter, StateView};
use crate::table::ParamKey;
use crate::text::{contains, has_text};
use vstd::prelude::*;
use vstd::string::*;

verus! {

/// Whether one of two texts occurs in the other.
pub open spec fn overlap(a: Seq<char>, b: Seq<char>) -> bool {
    has_text(a, b) || has_text(b, a)
}

/// Whether a plugin of this name is a meter.
pub open spec fn is_meter(name: Seq<char>) -> bool {
    ||| overlap(name, "True-Peak and RMS Meter (Stereo)"@)
    ||| overlap(name, "True-Peak and RMS Meter"@)
    ||| overlap(name, "EBU R128 Meter"@)
    ||| overlap(name, "Stereo/Frequency Scope"@)
    ||| overlap(name, "1/3 Octave Spectrum Display Stereo"@)
}

/// Whether one of two texts occurs in the other.
fn overlaps(a: &str, b: &str) -> (r: bool)
    ensures
        r == overlap(a@, b@),
{
    contains(a, b) || contains(b, a)
}

/// Whether a plugin of this name is a meter.
pub fn names_meter(name: &str) -> (r: bool)
    ensures
        r == is_meter(name@),
{
    overlaps(name, "True-Peak and RMS Meter (Stereo)") || overlaps(name, "True-Peak and RMS Meter")
        || overlaps(name, "EBU R128 Meter") || overlaps(name, "Stereo/Frequency Scope") || overlaps(
        name,
        "1/3 Octave Spectrum Display Stereo",
    )
}

/// Whether a plugin is a meter that can be read.
pub open spec fn is_readable() -> spec_fn(EntryView) -> bool {
    |e: EntryView| e.enabled && is_meter(e.name)
}

/// The meters on a strip that can be read, in the order in which the plugins are listed.
pub open spec fn meters_on(s: StateView, rid: i32) -> Seq<EntryView> {
    match plugins_on(s, rid) {
        Some(list) => list.filter(is_readable()),
        None => Seq::empty(),
    }
}

/// The meters on a strip that can be read.
fn find_meters(state: &ArdourState, rid: i32) -> (r: Vec<PluginEntry>)
    ensures
        entries_view(r@) == meters_on(state@, rid),
{
    let mut r: Vec<PluginEntry> = Vec::new();
    assert(entries_view(r@) =~= Seq::empty());
    match state.plugins_on(rid) {
        Some(list) => {
            let ghost all = entries_view(list@);
            let ghost wanted = is_readable();
            let mut i: usize = 0;
            proof {
                reveal(Seq::filter);
                assert(all.take(0).filter(wanted) =~= Seq::empty());
            }
            while i < list.len()
                invariant
                    i <= list.len(),
                    all == entries_view(list@),
                    wanted == is_readable(),
                    entries_view(r@) == all.take(i as int).filter(wanted),
                decreases list.len() - i,
            {
                let ghost so_far = r@;
                let e = list[i].clone();
                proof {
                    lemma_filter_push(all.take(i as int), all[i as int], wanted);
                    assert(all.take(i + 1) =~= all.take(i as int).push(all[i as int]));
                    assert(entries_view(so_far.push(e)) =~= entries_view(so_far).push(e@));
                }
                if e.enabled && names_meter(e.name.as_str()) {
                    r.push(e);
                }
                i = i + 1;
            }
            assert(all.take(i as int) =~= all);
        },
        None => {},
    }
    r
}

/// The readings in `list` after one more: it takes the place of one with the same name.
pub open spec fn with_reading(
    list: Seq<(Seq<char>, Single)>,
    name: Seq<char>,
    value: Single,
) -> Seq<(Seq<char>, Single)>
    decreases list.len(),
{
    if list.len() == 0 {
        seq![(name, value)]
    } else if list[0].0 == name {
        list.update(0, (name, value))
    } else {
        seq![list[0]] + with_reading(list.drop_first(), name, value)
    }
}

/// The readings in `list` together with those in `parameters`; what is not a finite number
/// does not count.
pub open spec fn with_readings(
    list: Seq<(Seq<char>, Single)>,
    parameters: Seq<ParameterView>,
) -> Seq<(Seq<char>, Single)>
    decreases parameters.len(),
{
    if parameters.len() == 0 {
        list
    } else {
        let head = with_readings(list, parameters.drop_last());
        let p = parameters.last();
        if p.value.finite() {
            with_reading(head, p.name, p.value)
        } else {
            head
        }
    }
}

/// The readings of all meters, each name once; the last reading counts.
pub open spec fn combined(meters: Seq<MeterView>) -> Seq<(Seq<char>, Single)>
    decreases meters.len(),
{
    if meters.len() == 0 {
        Seq::empty()
    } else {
        with_readings(combined(meters.drop_last()), meters.last().parameters)
    }
}

/// Adds a reading, in place of one with the same name.
fn add_reading(list: &mut Vec<NamedReading>, name: &String, value: Single)
    ensures
        readings_view(final(list)@) == with_reading(readings_view(old(list)@), name@, value),
{
    let ghost all = readings_view(list@);
    let ghost goal = with_reading(all, name@, value);
    let entry = NamedReading { name: name.clone(), value };
    let mut at: usize = 0;
    assert(all.skip(0) =~= all);
    assert(all.take(0) + goal =~= goal);
    while at < list.len()
        invariant
            at <= list.len(),
            list@ == old(list)@,
            all == readings_view(list@),
            entry.name@ == name@,
            entry.value == value,
            goal == with_reading(all, name@, value),
            goal == all.take(at as int) + with_reading(all.skip(at as int), name@, value),
        decreases list.len() - at,
    {
        let ghost rest = all.skip(at as int);
        assert(rest[0] == (list@[at as int].name@, list@[at as int].value));
        if list[at].name == *name {
            list.set(at, entry);
            assert(readings_view(list@) =~= goal);
            return;
        }
        proof {
            assert(rest.drop_first() =~= all.skip(at + 1));
            assert(goal =~= all.take(at + 1) + with_reading(all.skip(at + 1), name@, value));
        }
        at = at + 1;
    }
    list.push(entry);
    assert(readings_view(list@) =~= goal);
}

/// The readings of all meters.
fn combine(meters: &Vec<Meter>) -> (r: Vec<NamedReading>)
    ensures
        readings_view(r@) == combined(meters_view(meters@)),
{
    let ghost all = meters_view(meters@);
    let mut r: Vec<NamedReading> = Vec::new();
    let mut i: usize = 0;
    assert(all.take(0) =~= Seq::<MeterView>::empty());
    assert(readings_view(r@) =~= Seq::empty());
    while i < meters.len()
        invariant
            i <= meters.len(),
            all == meters_view(meters@),
            readings_view(r@) == combined(all.take(i as int)),
        decreases meters.len() - i,
    {
        let params = &meters[i].parameters;
        let ghost view = parameters_view(params@);
        let ghost start = readings_view(r@);
        let mut j: usize = 0;
        assert(view.take(0) =~= Seq::<ParameterView>::empty());
        while j < params.len()
            invariant
                j <= params.len(),
                view == parameters_view(params@),
                readings_view(r@) == with_readings(start, view.take(j as int)),
            decreases params.len() - j,
        {
            proof {
                assert(view.take(j + 1).drop_last() =~= view.take(j as int));
                assert(view.take(j + 1).last() == params@[j as int]@);
            }
            if params[j].value.is_finite() {
                add_reading(&mut r, &params[j].name, params[j].value);
            }
            j = j + 1;
        }
        proof {
            assert(view.take(j as int) =~= view);
            assert(all.take(i + 1).drop_last() =~= all.take(i as int));
            assert(all.take(i + 1).last() == meters@[i as int]@);
        }
        i = i + 1;
    }
    assert(all.take(i as int) =~= all);
    r
}

/// Asks for the plugins on a strip.
pub open spec fn listing_begun(listing: Listing, r: Action) -> bool {
    if listing.rid <= 0 {
        finishes(r, bad_rid(listing.rid))
    } else {
        r matches Action::Send(m, AfterSend::PluginsRequested(l)) && l == listing && m@
            == list_message(listing.rid)
    }
}

/// Asks for the plugins on a strip.
fn begin_listing(listing: Listing) -> (r: Action)
    ensures
        listing_begun(listing, r),
{
    if listing.rid <= 0 {
        return refuse_rid(listing.rid);
    }
    Action::Send(list_request(listing.rid), AfterSend::PluginsRequested(listing))
}

/// Lists the plugins on a strip.
pub fn list_strip_plugins_tool(rid: i32) -> (r: Action)
    ensures
        listing_begun(Listing { rid, next: AfterListing::Reply }, r),
{
    begin_listing(Listing { rid, next: AfterListing::Reply })
}

/// Reads the meters on a strip, after its plugins were listed.
pub fn get_meter_readings_tool(rid: i32) -> (r: Action)
    ensures
        listing_begun(Listing { rid, next: AfterListing::ReadMeters }, r),
{
    begin_listing(Listing { rid, next: AfterListing::ReadMeters })
}

/// How it goes on once the plugins were asked for, whether or not the message could be
/// sent.
pub fn after_plugins_request(listing: Listing) -> (r: Action)
    ensures
        r == Action::Sleep(200, AfterSleep::PluginsRequested { listing, attempt: 1 }),
{
    Action::Sleep(200, AfterSleep::PluginsRequested { listing, attempt: 1 })
}

/// A reply with the plugins on a strip.
pub open spec fn plugins_reply(s: StateView, rid: i32) -> ToolReplyView {
    ToolReplyView::Document(
        DocumentView::StripPlugins { strip_id: rid, plugins: listed_plugins_on(s, rid) },
    )
}

/// How it goes on once the list of plugins had time to come: it is waited for five times
/// at most.
pub open spec fn listing_waited(listing: Listing, attempt: u32, s: StateView, r: Action) -> bool {
    if plugins_known(s, listing.rid) || attempt >= 5 {
        match listing.next {
            AfterListing::Reply => finishes(r, plugins_reply(s, listing.rid)),
            AfterListing::ReadMeters => next_meter(
                listing.rid,
                Seq::empty(),
                meters_on(s, listing.rid),
                r,
            ),
        }
    } else {
        r == Action::Sleep(
            200,
            AfterSleep::PluginsRequested { listing, attempt: (attempt + 1) as u32 },
        )
    }
}

/// Goes on once the list of plugins had time to come.
pub fn after_listing_time(listing: Listing, attempt: u32, state: &ArdourState) -> (r: Action)
    requires
        state.wf(),
    ensures
        listing_waited(listing, attempt, state@, r),
{
    if knows_plugins(state, listing.rid) || attempt >= 5 {
        match listing.next {
            AfterListing::Reply => Action::Finish(
                ToolReply::Document(
                    Document::StripPlugins {
                        strip_id: listing.rid,
                        plugins: list_plugins(state, listing.rid),
                    },
                ),
            ),
            AfterListing::ReadMeters => {
                let found: Vec<Meter> = Vec::new();
                assert(meters_view(found@) =~= Seq::empty());
                read_next_meter(listing.rid, found, find_meters(state, listing.rid))
            },
        }
    } else {
        Action::Sleep(200, AfterSleep::PluginsRequested { listing, attempt: attempt + 1 })
    }
}

/// The message that asks what the parameters of a plugin are. The slot is counted from
/// one.
pub open spec fn descriptor_message(rid: i32, plugin_slot: i32) -> MessageView {
    MessageView {
        addr: "/strip/plugin/descriptor"@,
        args: seq![ArgView::Int(rid), ArgView::Int(plugin_slot)],
    }
}

/// The message that asks for the value of one parameter.
pub open spec fn value_message(rid: i32, plugin_slot: i32, param: i32) -> MessageView {
    MessageView {
        addr: "/strip/plugin/parameter/get"@,
        args: seq![ArgView::Int(rid), ArgView::Int(plugin_slot), ArgView::Int(param)],
    }
}

/// What a run over the meters of a strip says.
pub open spec fn run_is(
    run: MeterRun,
    rid: i32,
    found: Seq<MeterView>,
    current: EntryView,
    left: Seq<EntryView>,
) -> bool {
    &&& run.rid == rid
    &&& meters_view(run.found@) == found
    &&& run.current@ == current
    &&& entries_view(run.left@) == left
}

/// The next meter is read, from its description on. Where none is left, the position of
/// the playhead is asked for.
pub open spec fn next_meter(
    rid: i32,
    found: Seq<MeterView>,
    left: Seq<EntryView>,
    r: Action,
) -> bool {
    if left.len() == 0 {
        r matches Action::Send(m, AfterSend::MeterFrameRequested { rid: id, found: f }) && m@
            == plain("/transport_frame"@) && id == rid && meters_view(f@) == found
    } else {
        r matches Action::Send(m, AfterSend::MeterDescribed(run)) && m@ == descriptor_message(
            rid,
            after(left[0].slot),
        ) && run_is(run, rid, found, left[0], left.drop_first())
    }
}

/// Reads the next meter, or ends the reading.
fn read_next_meter(rid: i32, found: Vec<Meter>, left: Vec<PluginEntry>) -> (r: Action)
    ensures
        next_meter(rid, meters_view(found@), entries_view(left@), r),
{
    assert(entries_view(left@).len() == left@.len());
    if left.len() == 0 {
        return Action::Send(
            plain_message("/transport_frame"),
            AfterSend::MeterFrameRequested { rid, found },
        );
    }
    let ghost all = entries_view(left@);
    let mut left = left;
    let current = left.remove(0);
    assert(all[0] == current@);
    assert(entries_view(left@) =~= all.drop_first());
    Action::Send(
        message(
            "/strip/plugin/descriptor",
            two_args(OscArg::Int(rid), OscArg::Int(one_more(current.slot))),
        ),
        AfterSend::MeterDescribed(MeterRun { rid, found, current, left }),
    )
}

/// How it goes on once the description of a meter was asked for: its end is waited for,
/// whether or not the message could be sent.
pub fn after_meter_described(run: MeterRun) -> (r: Action)
    ensures
        r == Action::Await(
            Waiting::Descriptor { ssid: run.rid, slot: run.current.slot },
            1500,
            AfterAwait::MeterDescribed(run),
        ),
{
    Action::Await(
        Waiting::Descriptor { ssid: run.rid, slot: run.current.slot },
        1500,
        AfterAwait::MeterDescribed(run),
    )
}

/// How it goes on once the description of a meter came, or did not: all its values are
/// asked for.
pub open spec fn meter_description_received(run: MeterRun, s: StateView, r: Action) -> bool {
    r matches Action::Send(m, AfterSend::MeterBatchRequested(c, outputs)) && m@ == batch_message(
        run.rid,
        after(run.current.slot),
    ) && c == run && outputs@ == outputs_of(s, run.rid, run.current.slot)
}

/// Asks for all values of a meter, once its description came or did not.
pub fn after_meter_description(run: MeterRun, state: &ArdourState) -> (r: Action)
    requires
        state.wf(),
    ensures
        meter_description_received(run, state@, r),
{
    let outputs = find_outputs(state, run.rid, run.current.slot);
    Action::Send(
        batch_request(run.rid, one_more(run.current.slot)),
        AfterSend::MeterBatchRequested(run, outputs),
    )
}

/// The next output of a meter is read. Where none is left, the meter is done.
pub open spec fn next_output(
    run: MeterRun,
    left: Seq<i32>,
    parameters: Seq<ParameterView>,
    r: Action,
) -> bool {
    if left.len() == 0 {
        meter_done(run, parameters, r)
    } else {
        r matches Action::Send(m, AfterSend::MeterOutputRequested(o)) && m@ == value_message(
            run.rid,
            after(run.current.slot),
            left[0],
        ) && o.run == run && o.param == left[0] && o.left@ == left.drop_first()
            && parameters_view(o.parameters@) == parameters
    }
}

/// What is found of a meter.
pub open spec fn meter_of(e: EntryView, parameters: Seq<ParameterView>) -> MeterView {
    MeterView { plugin_name: e.name, slot: after(e.slot), enabled: e.enabled, parameters }
}

/// A meter is done and the next one is read.
pub open spec fn meter_done(run: MeterRun, parameters: Seq<ParameterView>, r: Action) -> bool {
    next_meter(
        run.rid,
        meters_view(run.found@).push(meter_of(run.current@, parameters)),
        entries_view(run.left@),
        r,
    )
}

/// Takes note of a meter and goes on with the next one.
fn finish_meter(run: MeterRun, parameters: Vec<PluginParameter>) -> (r: Action)
    ensures
        meter_done(run, parameters_view(parameters@), r),
{
    let ghost so_far = run.found@;
    let mut found = run.found;
    let meter = Meter {
        plugin_name: run.current.name,
        slot: one_more(run.current.slot),
        enabled: run.current.enabled,
        parameters,
    };
    found.push(meter);
    assert(meters_view(found@) =~= meters_view(so_far).push(meter@));
    read_next_meter(run.rid, found, run.left)
}

/// Reads the next output of a meter, or ends its reading.
fn read_next_output(run: MeterRun, left: Vec<i32>, parameters: Vec<PluginParameter>) -> (r: Action)
    ensures
        next_output(run, left@, parameters_view(parameters@), r),
{
    if left.len() == 0 {
        return finish_meter(run, parameters);
    }
    let ghost all = left@;
    let mut left = left;
    let param: i32 = left.remove(0);
    assert(left@ =~= all.drop_first());
    Action::Send(
        message(
            "/strip/plugin/parameter/get",
            three_args(
                OscArg::Int(run.rid),
                OscArg::Int(one_more(run.current.slot)),
                OscArg::Int(param),
            ),
        ),
        AfterSend::MeterOutputRequested(OutputRun { run, param, left, parameters }),
    )
}

/// How it goes on once all values of a meter were asked for.
pub open spec fn meter_batch_requested(
    run: MeterRun,
    outputs: Vec<i32>,
    outcome: Result<(), SendFailure>,
    r: Action,
) -> bool {
    match outcome {
        Ok(_) => r == Action::Await(
            Waiting::Batch { ssid: run.rid, slot: run.current.slot },
            1200,
            AfterAwait::MeterBatch(run, outputs),
        ),
        Err(_) => next_output(run, outputs@, Seq::empty(), r),
    }
}

/// Goes on once all values of a meter were asked for.
pub fn after_meter_batch_request(
    run: MeterRun,
    outputs: Vec<i32>,
    outcome: Result<(), SendFailure>,
) -> (r: Action)
    ensures
        meter_batch_requested(run, outputs, outcome, r),
{
    match outcome {
        Ok(_) => Action::Await(
            Waiting::Batch { ssid: run.rid, slot: run.current.slot },
            1200,
            AfterAwait::MeterBatch(run, outputs),
        ),
        Err(_) => {
            let none: Vec<PluginParameter> = Vec::new();
            assert(parameters_view(none@) =~= Seq::empty());
            read_next_output(run, outputs, none)
        },
    }
}

/// What a reply says of the outputs of a meter, where it says all.
pub open spec fn replied_outputs(
    run: MeterRun,
    outputs: Seq<i32>,
    outcome: Result<Reply, WaitError>,
    s: StateView,
) -> Option<Seq<ParameterView>> {
    match outcome {
        Ok(Reply::Batch(values)) => matched_outputs(
            s,
            run.rid,
            run.current.slot,
            outputs,
            values@,
        ),
        _ => None,
    }
}

/// How it goes on once all values of a meter were replied, or were not: in that case its
/// outputs are read one by one.
pub open spec fn meter_batch_received(
    run: MeterRun,
    outputs: Seq<i32>,
    outcome: Result<Reply, WaitError>,
    s: StateView,
    r: Action,
) -> bool {
    match replied_outputs(run, outputs, outcome, s) {
        Some(parameters) => meter_done(run, parameters, r),
        None => next_output(run, outputs, Seq::empty(), r),
    }
}

/// Goes on once all values of a meter were replied, or were not.
pub fn after_meter_batch(
    run: MeterRun,
    outputs: Vec<i32>,
    outcome: Result<Reply, WaitError>,
    state: &ArdourState,
) -> (r: Action)
    requires
        state.wf(),
    ensures
        meter_batch_received(run, outputs@, outcome, state@, r),
{
    let none: Vec<PluginParameter> = Vec::new();
    assert(parameters_view(none@) =~= Seq::empty());
    match outcome {
        Ok(Reply::Batch(values)) => match match_outputs(
            state,
            run.rid,
            run.current.slot,
            &outputs,
            &values,
        ) {
            Some(parameters) => finish_meter(run, parameters),
            None => read_next_output(run, outputs, none),
        },
        _ => read_next_output(run, outputs, none),
    }
}

/// How it goes on once the value of an output was asked for: it is waited for, whether or
/// not the message could be sent.
pub fn after_meter_output_request(output: OutputRun) -> (r: Action)
    ensures
        r == Action::Await(
            Waiting::Value {
                ssid: output.run.rid,
                slot: output.run.current.slot,
                param: output.param,
            },
            800,
            AfterAwait::MeterOutput(output),
        ),
{
    Action::Await(
        Waiting::Value {
            ssid: output.run.rid,
            slot: output.run.current.slot,
            param: output.param,
        },
        800,
        AfterAwait::MeterOutput(output),
    )
}

/// The outputs that were read, together with the one that was replied.
pub open spec fn outputs_read(
    output: OutputRun,
    outcome: Result<Reply, WaitError>,
    s: StateView,
) -> Seq<ParameterView> {
    let k = ParamKey {
        ssid: output.run.rid,
        slot: output.run.current.slot,
        param: output.param,
    };
    match outcome {
        Ok(Reply::Value(v)) => parameters_view(output.parameters@).push(reading(s, k, v)),
        _ => parameters_view(output.parameters@),
    }
}

/// Goes on with the next output.
pub fn after_meter_output(
    output: OutputRun,
    outcome: Result<Reply, WaitError>,
    state: &ArdourState,
) -> (r: Action)
    requires
        state.wf(),
    ensures
        next_output(output.run, output.left@, outputs_read(output, outcome, state@), r),
{
    let k = ParamKey {
        ssid: output.run.rid,
        slot: output.run.current.slot,
        param: output.param,
    };
    let ghost so_far = output.parameters@;
    let mut parameters = output.parameters;
    match outcome {
        Ok(Reply::Value(v)) => {
            let p = read_parameter(state, k, v);
            parameters.push(p);
            assert(parameters_view(parameters@) =~= parameters_view(so_far).push(p@));
        },
        _ => {},
    }
    read_next_output(output.run, output.left, parameters)
}

/// A reply with the readings of the meters on a strip.
pub open spec fn meters_reply(
    rid: i32,
    found: Seq<MeterView>,
    frame: Option<i64>,
) -> ToolReplyView {
    ToolReplyView::Document(
        DocumentView::MeterReadings {
            strip_id: rid,
            meters_found: found,
            combined_data: combined(found),
            transport_frame: frame,
        },
    )
}

/// Replies with the readings of the meters.
pub fn reply_meters(rid: i32, found: Vec<Meter>, state: &ArdourState) -> (r: Action)
    ensures
        finishes(r, meters_reply(rid, meters_view(found@), state@.frame)),
{
    let combined_data = combine(&found);
    Action::Finish(
        ToolReply::Document(
            Document::MeterReadings {
                strip_id: rid,
                meters_found: found,
                combined_data,
                transport_frame: state.transport_frame(),
            },
        ),
    )
}

/// How it goes on once the position of the playhead was asked for.
pub open spec fn meter_frame_requested(
    rid: i32,
    found: Vec<Meter>,
    outcome: Result<(), SendFailure>,
    s: StateView,
    r: Action,
) -> bool {
    match outcome {
        Ok(_) => r == Action::Sleep(50, AfterSleep::MeterFrameRequested { rid, found }),
        Err(_) => finishes(r, meters_reply(rid, meters_view(found@), s.frame)),
    }
}

/// Goes on once the position of the playhead was asked for.
pub fn after_meter_frame_request(
    rid: i32,
    found: Vec<Meter>,
    outcome: Result<(), SendFailure>,
    state: &ArdourState,
) -> (r: Action)
    ensures
        meter_frame_requested(rid, found, outcome, state@, r),
{
    match outcome {
        Ok(_) => Action::Sleep(50, AfterSleep::MeterFrameRequested { rid, found }),
        Err(_) => reply_meters(rid, found, state),
    }
}

/// The value under a name, where there is one.
pub open spec fn value_under(list: Seq<(Seq<char>, Single)>, name: Seq<char>) -> Option<Single>
    decreases list.len(),
{
    if list.len() == 0 {
        None
    } else if list[0].0 == name {
        Some(list[0].1)
    } else {
        value_under(list.drop_first(), name)
    }
}

/// The parameters of all meters, in a row.
pub open spec fn all_parameters(meters: Seq<MeterView>) -> Seq<ParameterView>
    decreases meters.len(),
{
    if meters.len() == 0 {
        Seq::empty()
    } else {
        all_parameters(meters.drop_last()) + meters.last().parameters
    }
}

/// The last finite reading under a name.
pub open spec fn last_reading(parameters: Seq<ParameterView>, name: Seq<char>) -> Option<Single>
    decreases parameters.len(),
{
    if parameters.len() == 0 {
        None
    } else if parameters.last().name == name && parameters.last().value.finite() {
        Some(parameters.last().value)
    } else {
        last_reading(parameters.drop_last(), name)
    }
}

/// What stands under a name after one more reading.
proof fn lemma_with_reading(
    list: Seq<(Seq<char>, Single)>,
    added: Seq<char>,
    value: Single,
    name: Seq<char>,
)
    ensures
        value_under(with_reading(list, added, value), name) == if name == added {
            Some(value)
        } else {
            value_under(list, name)
        },
    decreases list.len(),
{
    reveal_with_fuel(value_under, 2);
    let all = with_reading(list, added, value);
    if list.len() == 0 {
        assert(all.drop_first() =~= Seq::empty());
    } else if list[0].0 == added {
        assert(all.drop_first() =~= list.drop_first());
    } else {
        lemma_with_reading(list.drop_first(), added, value, name);
        assert(all.drop_first() =~= with_reading(list.drop_first(), added, value));
    }
}

/// What stands under a name after several readings.
proof fn lemma_with_readings(
    list: Seq<(Seq<char>, Single)>,
    parameters: Seq<ParameterView>,
    name: Seq<char>,
)
    ensures
        value_under(with_readings(list, parameters), name) == match last_reading(
            parameters,
            name,
        ) {
            Some(v) => Some(v),
            None => value_under(list, name),
        },
    decreases parameters.len(),
{
    if parameters.len() > 0 {
        lemma_with_readings(list, parameters.drop_last(), name);
        let p = parameters.last();
        lemma_with_reading(with_readings(list, parameters.drop_last()), p.name, p.value, name);
    }
}

/// The last reading of two lists in a row.
proof fn lemma_last_reading_of_two(
    a: Seq<ParameterView>,
    b: Seq<ParameterView>,
    name: Seq<char>,
)
    ensures
        last_reading(a + b, name) == match last_reading(b, name) {
            Some(v) => Some(v),
            None => last_reading(a, name),
        },
    decreases b.len(),
{
    if b.len() == 0 {
        assert(a + b =~= a);
    } else {
        assert((a + b).drop_last() =~= a + b.drop_last());
        lemma_last_reading_of_two(a, b.drop_last(), name);
    }
}

/// Under each name, the combined readings hold the last finite reading of all meters.
pub proof fn lemma_combined(meters: Seq<MeterView>, name: Seq<char>)
    ensures
        value_under(combined(meters), name) == last_reading(all_parameters(meters), name),
    decreases meters.len(),
{
    if meters.len() > 0 {
        lemma_combined(meters.drop_last(), name);
        lemma_with_readings(combined(meters.drop_last()), meters.last().parameters, name);
        lemma_last_reading_of_two(
            all_parameters(meters.drop_last()),
            meters.last().parameters,
            name,
        );
    }
}

/// No name occurs twice among the combined readings.
pub proof fn lemma_combined_names_differ(meters: Seq<MeterView>)
    ensures
        names_differ(combined(meters)),
    decreases meters.len(),
{
    if meters.len() > 0 {
        lemma_combined_names_differ(meters.drop_last());
        lemma_with_readings_differ(combined(meters.drop_last()), meters.last().parameters);
    }
}

/// Whether no name occurs twice.
pub open spec fn names_differ(list: Seq<(Seq<char>, Single)>) -> bool {
    forall|i: int, j: int|
        0 <= i < j < list.len() ==> (#[trigger] list[i]).0 != (#[trigger] list[j]).0
}

/// Readings that are added do not make a name occur twice.
proof fn lemma_with_readings_differ(
    list: Seq<(Seq<char>, Single)>,
    parameters: Seq<ParameterView>,
)
    requires
        names_differ(list),
    ensures
        names_differ(with_readings(list, parameters)),
    decreases parameters.len(),
{
    if parameters.len() > 0 {
        lemma_with_readings_differ(list, parameters.drop_last());
        let p = parameters.last();
        lemma_with_reading_differs(with_readings(list, parameters.drop_last()), p.name, p.value);
    }
}

/// A reading that is added does not make a name occur twice.
proof fn lemma_with_reading_differs(
    list: Seq<(Seq<char>, Single)>,
    name: Seq<char>,
    value: Single,
)
    requires
        names_differ(list),
    ensures
        names_differ(with_reading(list, name, value)),
        forall|x: (Seq<char>, Single)| #[trigger]
            with_reading(list, name, value).contains(x) ==> x.0 == name || list.contains(x),
    decreases list.len(),
{
    let all = with_reading(list, name, value);
    if list.len() > 0 && list[0].0 != name {
        let rest = list.drop_first();
        let inner = with_reading(rest, name, value);
        assert forall|i: int, j: int| 0 <= i < j < rest.len() implies (#[trigger] rest[i]).0 != (
        #[trigger] rest[j]).0 by {
            assert(list[i + 1].0 != list[j + 1].0);
        }
        lemma_with_reading_differs(rest, name, value);
        assert forall|i: int, j: int| 0 <= i < j < all.len() implies (#[trigger] all[i]).0 != (
        #[trigger] all[j]).0 by {
            assert(all[j] == inner[j - 1]);
            if i > 0 {
                assert(all[i] == inner[i - 1]);
            } else {
                assert(inner.contains(inner[j - 1]));
                if inner[j - 1].0 != name {
                    assert(rest.contains(inner[j - 1]));
                    let n = choose|n: int| 0 <= n < rest.len() && rest[n] == inner[j - 1];
                    assert(list[0].0 != list[n + 1].0);
                }
            }
        }
        assert forall|x: (Seq<char>, Single)| #[trigger] all.contains(x) implies x.0 == name
            || list.contains(x) by {
            let i = choose|i: int| 0 <= i < all.len() && all[i] == x;
            if i == 0 {
                assert(list[0] == x);
            } else {
                assert(inner[i - 1] == x);
                assert(inner.contains(x));
                if x.0 != name {
                    assert(rest.contains(x));
                    let n = choose|n: int| 0 <= n < rest.len() && rest[n] == x;
                    assert(list[n + 1] == x);
                }
            }
        }
    } else if list.len() > 0 {
        assert forall|i: int, j: int| 0 <= i < j < all.len() implies (#[trigger] all[i]).0 != (
        #[trigger] all[j]).0 by {
            assert(list[i].0 != list[j].0);
        }
        assert forall|x: (Seq<char>, Single)| #[trigger] all.contains(x) implies x.0 == name
            || list.contains(x) by {
            let i = choose|i: int| 0 <= i < all.len() && all[i] == x;
            if i > 0 {
                assert(list[i] == x);
            }
        }
    }
}

/// The names of meters that were read.
pub open spec fn read_names(found: Seq<MeterView>) -> Seq<Seq<char>> {
    found.map_values(|m: MeterView| m.plugin_name)
}

/// The names of meters that are to be read.
pub open spec fn entry_names(left: Seq<EntryView>) -> Seq<Seq<char>> {
    left.map_values(|e: EntryView| e.name)
}

/// The names of all meters of a run: those that were read, the one that is being read, and
/// those that are left.
pub open spec fn run_names(run: MeterRun) -> Seq<Seq<char>> {
    read_names(meters_view(run.found@)).push(run.current@.name) + entry_names(
        entries_view(run.left@),
    )
}

/// Whether, whatever comes next, all meters with these names are read, in this order.
pub open spec fn reads_all(names: Seq<Seq<char>>, r: Action) -> bool {
    match r {
        Action::Send(_, AfterSend::MeterDescribed(run)) => run_names(run) == names,
        Action::Send(_, AfterSend::MeterFrameRequested { rid, found }) => read_names(
            meters_view(found@),
        ) == names,
        _ => false,
    }
}

/// A run over the meters of a strip begins with all of them left, and goes from each meter
/// to the next until all of them were read.
pub proof fn lemma_all_meters_are_read(
    rid: i32,
    found: Seq<MeterView>,
    left: Seq<EntryView>,
    r: Action,
)
    requires
        next_meter(rid, found, left, r),
    ensures
        reads_all(read_names(found) + entry_names(left), r),
{
    let names = read_names(found) + entry_names(left);
    if left.len() == 0 {
        assert(names =~= read_names(found));
    } else {
        assert(read_names(found).push(left[0].name) + entry_names(left.drop_first()) =~= names);
    }
}

/// When a meter is done, no other one is forgotten.
pub proof fn lemma_meter_done(run: MeterRun, parameters: Seq<ParameterView>, r: Action)
    requires
        meter_done(run, parameters, r),
    ensures
        reads_all(run_names(run), r),
{
    let found = meters_view(run.found@).push(meter_of(run.current@, parameters));
    let left = entries_view(run.left@);
    lemma_all_meters_are_read(run.rid, found, left, r);
    assert(read_names(found) =~= read_names(meters_view(run.found@)).push(run.current@.name));
}

/// One more meter adds its readings: under each name its last finite one counts, and where
/// it has none, what was read before.
pub proof fn lemma_one_more_meter(meters: Seq<MeterView>, m: MeterView, name: Seq<char>, i: int)
    ensures
        combined(Seq::empty()).len() == 0,
        0 <= i < m.parameters.len() && m.parameters[i].name == name
            && m.parameters[i].value.finite() && (forall|j: int|
            i < j < m.parameters.len() ==> (#[trigger] m.parameters[j]).name != name
                || !m.parameters[j].value.finite()) ==> value_under(combined(meters.push(m)), name)
            == Some(m.parameters[i].value),
        (forall|j: int|
            0 <= j < m.parameters.len() ==> (#[trigger] m.parameters[j]).name != name
                || !m.parameters[j].value.finite()) ==> value_under(combined(meters.push(m)), name)
            == value_under(combined(meters), name),
{
    assert(meters.push(m).drop_last() =~= meters);
    assert(meters.push(m).last() == m);
    lemma_with_readings(combined(meters), m.parameters, name);
    lemma_last_reading_at(m.parameters, name, i);
}

/// Which reading is the last under a name.
proof fn lemma_last_reading_at(parameters: Seq<ParameterView>, name: Seq<char>, i: int)
    ensures
        0 <= i < parameters.len() && parameters[i].name == name && parameters[i].value.finite() && (
        forall|j: int|
            i < j < parameters.len() ==> (#[trigger] parameters[j]).name != name
                || !parameters[j].value.finite()) ==> last_reading(parameters, name) == Some(
            parameters[i].value,
        ),
        (forall|j: int|
            0 <= j < parameters.len() ==> (#[trigger] parameters[j]).name != name
                || !parameters[j].value.finite()) ==> last_reading(parameters, name) is None,
    decreases parameters.len(),
{
    if parameters.len() > 0 {
        let rest = parameters.drop_last();
        lemma_last_reading_at(rest, name, i);
        assert(forall|j: int| 0 <= j < rest.len() ==> #[trigger] rest[j] == parameters[j]);
        assert(parameters.last() == parameters[parameters.len() - 1]);
    }
}

/// What stands under a name among readings is the value of the first of that name.
pub proof fn lemma_value_under(list: Seq<(Seq<char>, Single)>, name: Seq<char>, i: int)
    ensures
        0 <= i < list.len() && list[i].0 == name && (forall|j: int|
            0 <= j < i ==> (#[trigger] list[j]).0 != name) ==> value_under(list, name) == Some(
            list[i].1,
        ),
        value_under(list, name) is None <==> forall|j: int|
            0 <= j < list.len() ==> (#[trigger] list[j]).0 != name,
    decreases list.len(),
{
    if list.len() > 0 {
        let rest = list.drop_first();
        lemma_value_under(rest, name, i - 1);
        assert(forall|j: int| 0 <= j < rest.len() ==> #[trigger] rest[j] == list[j + 1]);
        if value_under(list, name) is None {
            assert forall|j: int| 0 <= j < list.len() implies (#[trigger] list[j]).0 != name by {
                if j > 0 {
                    assert(rest[j - 1].0 != name);
                }
            }
        } else if list[0].0 != name {
            let j = choose|j: int| 0 <= j < rest.len() && (#[trigger] rest[j]).0 == name;
            assert(list[j + 1].0 == name);
        } else {
            assert(list[0].0 == name);
        }
    }
}

} // verus!
