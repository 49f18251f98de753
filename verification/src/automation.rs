//! Automation, and plugins in regions.

use crate::action::{
    fail, failing, failure, failure_reply, finishes, five_args, four_args, reports, Action,
    AfterAwait, AfterSend, AfterSleep, AutomationQuery, Failure, FailureView, Number, RegionChange,
    SendFailure,
};
use crate::osc::{args_view, message, ArgView, MessageView, OscArg, OscMessage};
use crate::pending::{wait_error, wait_error_text, Reply, WaitError, Waiting};
use crate::reply::{Document, DocumentView, ToolReply, ToolReplyView};
use crate::single::Single;
use crate::slots::{after, one_more};
use crate::state::{known_strips, tracks_view, ArdourState, StateView, TrackView};
use crate::text::{
    contains, decimal, decimal_text, has_text, has_text_at, lemma_text_within, parse_i32, parsed_i32,
    text_is,
};
use crate::transport::REPLY_PORT;
use vstd::prelude::*;
use vstd::string::*;

verus! {

/// What `str::to_lowercase` makes of a text.
pub uninterp spec fn lowercase(s: Seq<char>) -> Seq<char>;

/// Whether a text holds ASCII characters only.
pub open spec fn is_ascii_text(s: Seq<char>) -> bool {
    forall|i: int| 0 <= i < s.len() ==> (#[trigger] s[i] as u32) < 128
}

/// The small letter for a capital one among the letters of ASCII; any other character
/// stays.
pub open spec fn ascii_small(c: char) -> char {
    if 'A' <= c && c <= 'Z' {
        (c as u32 + 32) as char
    } else {
        c
    }
}

/// A text with the capital letters of ASCII made small.
pub open spec fn ascii_lowered(s: Seq<char>) -> Seq<char> {
    s.map_values(|c: char| ascii_small(c))
}

/// The capital letter for a small one among the letters of ASCII; any other character
/// stays.
pub open spec fn ascii_capital(c: char) -> char {
    if 'a' <= c && c <= 'z' {
        (c as u32 - 32) as char
    } else {
        c
    }
}

/// A text with the small letters of ASCII made capital.
pub open spec fn ascii_raised(s: Seq<char>) -> Seq<char> {
    s.map_values(|c: char| ascii_capital(c))
}

/// Whether two texts differ at most in the case of letters of ASCII.
pub open spec fn same_but_for_case(s: Seq<char>, t: Seq<char>) -> bool {
    &&& s.len() == t.len()
    &&& forall|i: int| 0 <= i < s.len() ==> ascii_small(#[trigger] s[i]) == ascii_small(t[i])
}

/// `str::to_lowercase` gives the lower case of a text, as Unicode defines it. The result
/// depends on the text alone and is given a name. Of a text in ASCII it is claimed that
/// `A` to `Z` become `a` to `z` and all else stays. What becomes of other characters is
/// left unsaid.
pub assume_specification[ str::to_lowercase ](s: &str) -> (r: String)
    ensures
        r@ == lowercase(s@),
        is_ascii_text(s@) ==> r@ == ascii_lowered(s@),
;

/// The URI of the plugin that a name in lower case stands for.
pub open spec fn uri_for(name: Seq<char>) -> Option<Seq<char>> {
    if has_text(name, "compressor"@) {
        Some("http://calf.sourceforge.net/plugins/Compressor"@)
    } else if has_text(name, "equalizer"@) || has_text(name, "eq"@) {
        Some("http://calf.sourceforge.net/plugins/Equalizer8Band"@)
    } else if has_text(name, "limiter"@) {
        Some("http://calf.sourceforge.net/plugins/Limiter"@)
    } else if has_text(name, "reverb"@) {
        Some("http://calf.sourceforge.net/plugins/Reverb"@)
    } else if has_text(name, "deesser"@) {
        Some("http://calf.sourceforge.net/plugins/Deesser"@)
    } else {
        None
    }
}

/// What an optional text holds.
pub open spec fn text_view(t: Option<String>) -> Option<Seq<char>> {
    match t {
        Some(t) => Some(t@),
        None => None,
    }
}

/// The URI of the plugin that a name in lower case stands for.
pub fn find_uri(name_lower: &str) -> (r: Option<String>)
    ensures
        text_view(r) == uri_for(name_lower@),
{
    if contains(name_lower, "compressor") {
        Some("http://calf.sourceforge.net/plugins/Compressor".to_owned())
    } else if contains(name_lower, "equalizer") || contains(name_lower, "eq") {
        Some("http://calf.sourceforge.net/plugins/Equalizer8Band".to_owned())
    } else if contains(name_lower, "limiter") {
        Some("http://calf.sourceforge.net/plugins/Limiter".to_owned())
    } else if contains(name_lower, "reverb") {
        Some("http://calf.sourceforge.net/plugins/Reverb".to_owned())
    } else if contains(name_lower, "deesser") {
        Some("http://calf.sourceforge.net/plugins/Deesser".to_owned())
    } else {
        None
    }
}

/// The URI of the plugin that a name stands for, in whatever case it is written.
pub fn get_plugin_uri_from_name(plugin_name: &str) -> (r: Option<String>)
    ensures
        text_view(r) == uri_for(lowercase(plugin_name@)),
        is_ascii_text(plugin_name@) ==> text_view(r) == uri_for(ascii_lowered(plugin_name@)),
{
    let name_lower = plugin_name.to_lowercase();
    find_uri(name_lower.as_str())
}

/// The place of a URI among those that names stand for. A name in which several are
/// recognised stands for the first of them.
pub open spec fn uri_rank(uri: Seq<char>) -> nat {
    if uri == "http://calf.sourceforge.net/plugins/Compressor"@ {
        0
    } else if uri == "http://calf.sourceforge.net/plugins/Equalizer8Band"@ {
        1
    } else if uri == "http://calf.sourceforge.net/plugins/Limiter"@ {
        2
    } else if uri == "http://calf.sourceforge.net/plugins/Reverb"@ {
        3
    } else {
        4
    }
}

/// Text around a name that is recognised leaves it recognised, and never makes it stand
/// for a plugin of a later place.
pub proof fn lemma_text_around_a_name(s: Seq<char>, t: Seq<char>)
    requires
        has_text(t, s),
        uri_for(s) is Some,
    ensures
        uri_for(t) is Some,
        uri_rank(uri_for(t)->0) <= uri_rank(uri_for(s)->0),
{
    lemma_text_within(t, s, "compressor"@);
    lemma_text_within(t, s, "equalizer"@);
    lemma_text_within(t, s, "eq"@);
    lemma_text_within(t, s, "limiter"@);
    lemma_text_within(t, s, "reverb"@);
    lemma_text_within(t, s, "deesser"@);
    lemma_uris_differ();
}

/// In whatever case it is written, a name that is recognised stays recognised with text
/// around it, and never stands for a plugin of a later place. The capital letters are
/// those of ASCII.
pub proof fn lemma_text_around_a_name_in_any_case(s: Seq<char>, t: Seq<char>)
    requires
        has_text(t, s),
        uri_for(ascii_lowered(s)) is Some,
    ensures
        uri_for(ascii_lowered(t)) is Some,
        uri_rank(uri_for(ascii_lowered(t))->0) <= uri_rank(uri_for(ascii_lowered(s))->0),
{
    let i = choose|i: int| has_text_at(t, s, i);
    let (small_t, small_s) = (ascii_lowered(t), ascii_lowered(s));
    assert(small_t.subrange(i, i + small_s.len()) =~= small_s) by {
        assert forall|j: int| 0 <= j < s.len() implies t[i + j] == s[j] by {
            assert(t.subrange(i, i + s.len())[j] == s[j]);
        }
    }
    assert(has_text_at(small_t, small_s, i));
    lemma_text_around_a_name(small_s, small_t);
}

/// A change of case of any letters, those of ASCII, changes nothing about what a name in
/// ASCII stands for.
pub proof fn lemma_case_does_not_matter(s: Seq<char>, t: Seq<char>)
    requires
        is_ascii_text(s),
        same_but_for_case(s, t),
    ensures
        is_ascii_text(t),
        uri_for(ascii_lowered(t)) == uri_for(ascii_lowered(s)),
{
    assert forall|i: int| 0 <= i < t.len() implies (#[trigger] t[i] as u32) < 128 by {
        assert((s[i] as u32) < 128);
        assert(ascii_small(s[i]) == ascii_small(t[i]));
    }
    assert(ascii_lowered(t) =~= ascii_lowered(s)) by {
        assert forall|i: int| 0 <= i < s.len() implies ascii_lowered(t)[i] == ascii_lowered(
            s,
        )[i] by {
            assert(ascii_small(s[i]) == ascii_small(t[i]));
        }
    }
}

/// A name in ASCII stands for the same in capital letters, and in small ones.
pub proof fn lemma_name_in_capitals(s: Seq<char>)
    requires
        is_ascii_text(s),
    ensures
        is_ascii_text(ascii_raised(s)),
        is_ascii_text(ascii_lowered(s)),
        uri_for(ascii_lowered(ascii_raised(s))) == uri_for(ascii_lowered(s)),
        uri_for(ascii_lowered(ascii_lowered(s))) == uri_for(ascii_lowered(s)),
{
    assert(same_but_for_case(s, ascii_raised(s)));
    assert(same_but_for_case(s, ascii_lowered(s)));
    lemma_case_does_not_matter(s, ascii_raised(s));
    lemma_case_does_not_matter(s, ascii_lowered(s));
}

/// The URIs that names stand for have their places.
proof fn lemma_uris_differ()
    ensures
        uri_rank("http://calf.sourceforge.net/plugins/Compressor"@) == 0,
        uri_rank("http://calf.sourceforge.net/plugins/Equalizer8Band"@) == 1,
        uri_rank("http://calf.sourceforge.net/plugins/Limiter"@) == 2,
        uri_rank("http://calf.sourceforge.net/plugins/Reverb"@) == 3,
        uri_rank("http://calf.sourceforge.net/plugins/Deesser"@) == 4,
{
    reveal_strlit("http://calf.sourceforge.net/plugins/Compressor");
    reveal_strlit("http://calf.sourceforge.net/plugins/Equalizer8Band");
    reveal_strlit("http://calf.sourceforge.net/plugins/Limiter");
    reveal_strlit("http://calf.sourceforge.net/plugins/Reverb");
    reveal_strlit("http://calf.sourceforge.net/plugins/Deesser");
    assert("http://calf.sourceforge.net/plugins/Compressor"@[36] == 'C');
    assert("http://calf.sourceforge.net/plugins/Equalizer8Band"@[36] == 'E');
    assert("http://calf.sourceforge.net/plugins/Limiter"@[36] == 'L');
    assert("http://calf.sourceforge.net/plugins/Reverb"@[36] == 'R');
    assert("http://calf.sourceforge.net/plugins/Deesser"@[36] == 'D');
}

/// The number nearest to `n` that fits into 32 bits.
pub open spec fn clamped(n: i64) -> i32 {
    if n > i32::MAX {
        i32::MAX
    } else if n < i32::MIN {
        i32::MIN
    } else {
        n as i32
    }
}

/// The number nearest to `n` that fits into 32 bits.
fn clamp_samples(n: i64) -> (r: i32)
    ensures
        r == clamped(n),
{
    if n > 0x7fff_ffff {
        i32::MAX
    } else if n < -0x8000_0000 {
        i32::MIN
    } else {
        n as i32
    }
}

/// The URI of a plugin: the one that is given, or the one that its name stands for.
pub open spec fn resolved_uri(
    plugin_uri: Option<Seq<char>>,
    plugin_name: Seq<char>,
) -> Option<Seq<char>> {
    match plugin_uri {
        Some(uri) => Some(uri),
        None => uri_for(lowercase(plugin_name)),
    }
}

/// How a change of a parameter in a region begins, once it is known what the URI of the
/// plugin is.
pub open spec fn region_begun(change: RegionChange, uri: Option<Seq<char>>, r: Action) -> bool {
    match uri {
        Some(uri) => r matches Action::Send(m, AfterSend::RegionPluginAdded(c)) && c == change && m@
            == (MessageView {
            addr: "/strip/region/add_plugin"@,
            args: seq![
                ArgView::Int(change.route_id),
                ArgView::Int(clamped(change.start_samples)),
                ArgView::Int(clamped(change.end_samples)),
                ArgView::Text(uri),
            ],
        }),
        None => finishes(
            r,
            ToolReplyView::Error(
                "Plugin URI not provided and could not resolve from plugin name '"@
                    + change.plugin_name@ + "'. Please provide plugin_uri."@,
            ),
        ),
    }
}

/// Begins a change of a parameter in a region, given the URI of the plugin: the plugin is
/// added to the region first.
pub fn begin_region_change(change: RegionChange, uri: Option<String>) -> (r: Action)
    ensures
        region_begun(change, text_view(uri), r),
{
    match uri {
        Some(uri) => Action::Send(
            message(
                "/strip/region/add_plugin",
                four_args(
                    OscArg::Int(change.route_id),
                    OscArg::Int(clamp_samples(change.start_samples)),
                    OscArg::Int(clamp_samples(change.end_samples)),
                    OscArg::Text(uri),
                ),
            ),
            AfterSend::RegionPluginAdded(change),
        ),
        None => {
            let mut t =
                "Plugin URI not provided and could not resolve from plugin name '".to_owned();
            t.append(change.plugin_name.as_str());
            t.append("'. Please provide plugin_uri.");
            Action::Finish(ToolReply::Error(t))
        },
    }
}

/// The number of the first of these strips that has this name.
pub open spec fn number_of(strips: Seq<TrackView>, name: Seq<char>) -> Option<i32>
    decreases strips.len(),
{
    if strips.len() == 0 {
        None
    } else if strips[0].name == name {
        Some(strips[0].id)
    } else {
        number_of(strips.drop_first(), name)
    }
}

/// The number of a route, which is given by its number or else by the name of a strip
/// that is known.
pub open spec fn route_number(s: StateView, route: Seq<char>) -> Option<i32> {
    match parsed_i32(route) {
        Some(id) => Some(id),
        None => number_of(known_strips(s.strips), route),
    }
}

/// Says that there is no such route.
pub open spec fn unknown_route(route: Seq<char>) -> Seq<char> {
    "Route '"@ + route
        + "' not found. Please use a numeric route ID or the name of a known strip."@
}

/// The number of a route.
pub fn find_route(state: &ArdourState, route: &str) -> (r: Option<i32>)
    ensures
        r == route_number(state@, route@),
{
    match parse_i32(route) {
        Some(id) => {
            return Some(id);
        },
        None => {},
    }
    let strips = state.strips();
    let ghost all = tracks_view(strips@);
    let mut i: usize = 0;
    assert(all.skip(0) =~= all);
    while i < strips.len()
        invariant
            i <= strips.len(),
            all == tracks_view(strips@),
            all == known_strips(state@.strips),
            parsed_i32(route@) is None,
            number_of(all, route@) == number_of(all.skip(i as int), route@),
        decreases strips.len() - i,
    {
        proof {
            assert(all.skip(i as int)[0] == strips@[i as int]@);
            assert(all.skip(i as int).drop_first() =~= all.skip(i + 1));
        }
        if text_is(strips[i].name.as_str(), route) {
            return Some(strips[i].id);
        }
        i = i + 1;
    }
    None
}

/// A route that is no number and has the name of a strip that is known, but of none before
/// it, has the number of that strip.
pub proof fn lemma_route_by_name(s: StateView, route: Seq<char>, i: int)
    requires
        parsed_i32(route) is None,
        0 <= i < known_strips(s.strips).len(),
        known_strips(s.strips)[i].name == route,
        forall|j: int| 0 <= j < i ==> (#[trigger] known_strips(s.strips)[j]).name != route,
    ensures
        route_number(s, route) == Some(known_strips(s.strips)[i].id),
{
    lemma_first_of_name(known_strips(s.strips), route, i);
}

/// There is no number for a route exactly where it is neither a number nor the name of a
/// strip that is known.
pub proof fn lemma_route_unknown(s: StateView, route: Seq<char>)
    ensures
        route_number(s, route) is None <==> parsed_i32(route) is None && forall|j: int|
            0 <= j < known_strips(s.strips).len() ==> (#[trigger] known_strips(s.strips)[j]).name
                != route,
{
    lemma_none_of_name(known_strips(s.strips), route);
}

/// The first strip of a name.
proof fn lemma_first_of_name(strips: Seq<TrackView>, name: Seq<char>, i: int)
    requires
        0 <= i < strips.len(),
        strips[i].name == name,
        forall|j: int| 0 <= j < i ==> (#[trigger] strips[j]).name != name,
    ensures
        number_of(strips, name) == Some(strips[i].id),
    decreases i,
{
    if i > 0 {
        let rest = strips.drop_first();
        assert forall|j: int| 0 <= j < i - 1 implies (#[trigger] rest[j]).name != name by {
            assert(rest[j] == strips[j + 1]);
        }
        assert(strips[0].name != name);
        lemma_first_of_name(rest, name, i - 1);
    }
}

/// No strip of a name.
proof fn lemma_none_of_name(strips: Seq<TrackView>, name: Seq<char>)
    ensures
        number_of(strips, name) is None <==> forall|j: int|
            0 <= j < strips.len() ==> (#[trigger] strips[j]).name != name,
    decreases strips.len(),
{
    if strips.len() > 0 {
        let rest = strips.drop_first();
        lemma_none_of_name(rest, name);
        if number_of(strips, name) is None {
            assert forall|j: int| 0 <= j < strips.len() implies (#[trigger] strips[j]).name
                != name by {
                if j > 0 {
                    assert(rest[j - 1] == strips[j]);
                }
            }
        } else if strips[0].name != name {
            let j = choose|j: int| 0 <= j < rest.len() && (#[trigger] rest[j]).name == name;
            assert(strips[j + 1].name == name);
        } else {
            assert(strips[0].name == name);
        }
    }
}

/// Sets a parameter of a plugin in a region. The route is given by its number, or by the
/// name of a strip that is known.
pub fn set_region_parameter_tool(
    state: &ArdourState,
    route: String,
    plugin_name: String,
    plugin_uri: Option<String>,
    param_name: String,
    value: Number,
    start_samples: i64,
    end_samples: i64,
) -> (r: Action)
    ensures
        match route_number(state@, route@) {
            Some(route_id) => region_begun(
                RegionChange {
                    route,
                    route_id,
                    plugin_name,
                    param_name,
                    value,
                    start_samples,
                    end_samples,
                },
                resolved_uri(text_view(plugin_uri), plugin_name@),
                r,
            ),
            None => finishes(r, ToolReplyView::Error(unknown_route(route@))),
        },
{
    let route_id: i32 = match find_route(state, route.as_str()) {
        Some(id) => id,
        None => {
            let mut t = "Route '".to_owned();
            t.append(route.as_str());
            t.append("' not found. Please use a numeric route ID or the name of a known strip.");
            return Action::Finish(ToolReply::Error(t));
        },
    };
    let uri = match plugin_uri {
        Some(uri) => Some(uri),
        None => get_plugin_uri_from_name(plugin_name.as_str()),
    };
    let change = RegionChange {
        route,
        route_id,
        plugin_name,
        param_name,
        value,
        start_samples,
        end_samples,
    };
    begin_region_change(change, uri)
}

/// How it goes on once the plugin was added, whether or not the message could be sent: the
/// plugin may be there already.
pub fn after_region_plugin_added(change: RegionChange) -> (r: Action)
    ensures
        r == Action::Sleep(100, AfterSleep::RegionPluginAdded(change)),
{
    Action::Sleep(100, AfterSleep::RegionPluginAdded(change))
}

/// Says that a parameter in a region was set.
pub open spec fn region_text(change: RegionChange) -> Seq<char> {
    "Regional parameter set: "@ + change.plugin_name@ + " on "@ + change.route@ + " ("@
        + change.param_name@ + "="@ + change.value.text@ + ") for range "@ + decimal_text(
        change.start_samples as int,
    ) + "-"@ + decimal_text(change.end_samples as int) + " samples"@
}

/// Sends the value of the parameter.
pub open spec fn region_change_sent(change: RegionChange, r: Action) -> bool {
    reports(
        r,
        MessageView {
            addr: "/strip/region/plugin/parameter"@,
            args: seq![
                ArgView::Int(change.route_id),
                ArgView::Int(clamped(change.start_samples)),
                ArgView::Int(clamped(change.end_samples)),
                ArgView::Text(change.plugin_name@),
                ArgView::Text(change.param_name@),
                ArgView::Float(change.value.value),
            ],
        },
        ToolReplyView::Success(region_text(change)),
        FailureView {
            before: "Failed to set Region FX parameter: "@,
            behind: ". Plugin may need to be added first or parameter name may be incorrect."@,
            internal: false,
        },
    )
}

/// Sends the value of the parameter once the plugin had time to be added.
pub fn after_region_time(change: RegionChange) -> (r: Action)
    ensures
        region_change_sent(change, r),
{
    let mut done = "Regional parameter set: ".to_owned();
    done.append(change.plugin_name.as_str());
    done.append(" on ");
    done.append(change.route.as_str());
    done.append(" (");
    done.append(change.param_name.as_str());
    done.append("=");
    done.append(change.value.text.as_str());
    done.append(") for range ");
    done.append(decimal(change.start_samples).as_str());
    done.append("-");
    done.append(decimal(change.end_samples).as_str());
    done.append(" samples");
    let ghost (name, param) = (change.plugin_name@, change.param_name@);
    let mut args = five_args(
        OscArg::Int(change.route_id),
        OscArg::Int(clamp_samples(change.start_samples)),
        OscArg::Int(clamp_samples(change.end_samples)),
        OscArg::Text(change.plugin_name),
        OscArg::Text(change.param_name),
    );
    let ghost head = args@;
    args.push(OscArg::Float(change.value.value));
    assert(args_view(args@) =~= args_view(head).push(ArgView::Float(change.value.value)));
    assert(args_view(args@) =~= seq![
        ArgView::Int(change.route_id),
        ArgView::Int(clamped(change.start_samples)),
        ArgView::Int(clamped(change.end_samples)),
        ArgView::Text(name),
        ArgView::Text(param),
        ArgView::Float(change.value.value),
    ]);
    Action::Send(
        message("/strip/region/plugin/parameter", args),
        AfterSend::Report {
            done: ToolReply::Success(done),
            failed: Failure {
                before: "Failed to set Region FX parameter: ".to_owned(),
                behind:
                    ". Plugin may need to be added first or parameter name may be incorrect.".to_owned(),
                internal: false,
            },
        },
    )
}

/// Whether this names a control of a track.
pub open spec fn is_track_control(control_type: Seq<char>) -> bool {
    control_type == "gain"@ || control_type == "pan_azimuth"@ || control_type == "pan_width"@
}

/// Whether this names a control of a track.
pub fn names_track_control(control_type: &str) -> (r: bool)
    ensures
        r == is_track_control(control_type@),
{
    text_is(control_type, "gain") || text_is(control_type, "pan_azimuth") || text_is(
        control_type,
        "pan_width",
    )
}

/// The message that asks for the value of an automated parameter of a plugin. Slot and
/// parameter are counted from zero.
pub open spec fn plugin_automation_message(
    query: AutomationQuery,
    plugin_slot: i32,
    param_id: i32,
) -> MessageView {
    MessageView {
        addr: "/mixpilot/read_plugin_auto"@,
        args: seq![
            ArgView::Int(query.route_id),
            ArgView::Int(after(plugin_slot)),
            ArgView::Int(after(param_id)),
            ArgView::Int(query.time_samples as i32),
            ArgView::Int(REPLY_PORT),
        ],
    }
}

/// The message that asks for the value of an automated control of a track.
pub open spec fn track_automation_message(query: AutomationQuery) -> MessageView {
    MessageView {
        addr: "/mixpilot/read_track_auto"@,
        args: seq![
            ArgView::Int(query.route_id),
            ArgView::Text(query.control_type@),
            ArgView::Int(query.time_samples as i32),
            ArgView::Int(REPLY_PORT),
        ],
    }
}

/// Asks for the value of an automated control of a track.
fn track_automation_request(query: &AutomationQuery) -> (r: OscMessage)
    ensures
        r@ == track_automation_message(*query),
{
    message(
        "/mixpilot/read_track_auto",
        four_args(
            OscArg::Int(query.route_id),
            OscArg::Text(query.control_type.clone()),
            OscArg::Int(query.time_samples as i32),
            OscArg::Int(REPLY_PORT),
        ),
    )
}

/// Whether the value of an automated control is asked for.
pub open spec fn asks_automation(
    r: Action,
    m: MessageView,
    query: AutomationQuery,
    failed: FailureView,
) -> bool {
    r matches Action::Send(msg, AfterSend::AutomationRequested { query: q, failed: f }) && msg@ == m
        && q == query && f@ == failed
}

/// Asks for the value of an automated control, be it of a plugin or of a track.
pub fn read_automation_value_tool(
    route_id: i32,
    control_type: String,
    plugin_slot: Option<i32>,
    param_id: Option<i32>,
    time_samples: i64,
) -> (r: Action)
    ensures
        ({
            let query = AutomationQuery { route_id, control_type, time_samples };
            if control_type@ == "plugin"@ {
                match (plugin_slot, param_id) {
                    (Some(slot), Some(param)) => asks_automation(
                        r,
                        plugin_automation_message(query, slot, param),
                        query,
                        failure("Failed to send read_plugin_auto: "@),
                    ),
                    _ => finishes(
                        r,
                        ToolReplyView::Error(
                            "plugin_slot and param_id are required for 'plugin' control_type"@,
                        ),
                    ),
                }
            } else if is_track_control(control_type@) {
                asks_automation(
                    r,
                    track_automation_message(query),
                    query,
                    failure("Failed to send read_track_auto: "@),
                )
            } else {
                finishes(
                    r,
                    ToolReplyView::Error(
                        "Invalid control_type: "@ + control_type@
                            + ". Must be 'plugin', 'gain', 'pan_azimuth', or 'pan_width'"@,
                    ),
                )
            }
        }),
{
    if text_is(control_type.as_str(), "plugin") {
        match (plugin_slot, param_id) {
            (Some(slot), Some(param)) => Action::Send(
                message(
                    "/mixpilot/read_plugin_auto",
                    five_args(
                        OscArg::Int(route_id),
                        OscArg::Int(one_more(slot)),
                        OscArg::Int(one_more(param)),
                        OscArg::Int(time_samples as i32),
                        OscArg::Int(REPLY_PORT),
                    ),
                ),
                AfterSend::AutomationRequested {
                    query: AutomationQuery { route_id, control_type, time_samples },
                    failed: failing("Failed to send read_plugin_auto: "),
                },
            ),
            _ => Action::Finish(
                ToolReply::Error(
                    "plugin_slot and param_id are required for 'plugin' control_type".to_owned(),
                ),
            ),
        }
    } else if names_track_control(control_type.as_str()) {
        let query = AutomationQuery { route_id, control_type, time_samples };
        Action::Send(
            track_automation_request(&query),
            AfterSend::AutomationRequested {
                query,
                failed: failing("Failed to send read_track_auto: "),
            },
        )
    } else {
        let mut t = "Invalid control_type: ".to_owned();
        t.append(control_type.as_str());
        t.append(". Must be 'plugin', 'gain', 'pan_azimuth', or 'pan_width'");
        Action::Finish(ToolReply::Error(t))
    }
}

/// How it goes on once the value was asked for.
pub open spec fn automation_requested(
    query: AutomationQuery,
    failed: Failure,
    outcome: Result<(), SendFailure>,
    r: Action,
) -> bool {
    match outcome {
        Ok(_) => r == Action::Await(Waiting::AutoValue, 1500, AfterAwait::Automation(query)),
        Err(e) => finishes(r, failure_reply(failed@, e)),
    }
}

/// Goes on once the value was asked for.
pub fn after_automation_request(
    query: AutomationQuery,
    failed: Failure,
    outcome: Result<(), SendFailure>,
) -> (r: Action)
    ensures
        automation_requested(query, failed, outcome, r),
{
    match outcome {
        Ok(_) => Action::Await(Waiting::AutoValue, 1500, AfterAwait::Automation(query)),
        Err(e) => Action::Finish(fail(failed, &e)),
    }
}

/// What is replied once the value came, or did not.
pub open spec fn automation_reply(
    query: AutomationQuery,
    outcome: Result<Reply, WaitError>,
) -> ToolReplyView {
    match outcome {
        Ok(Reply::AutoValue(value)) => ToolReplyView::Document(
            DocumentView::AutomationValue {
                value,
                route_id: query.route_id,
                control_type: query.control_type@,
                time_samples: query.time_samples,
            },
        ),
        Ok(_) => automation_failed(WaitError::Cancelled),
        Err(e) => automation_failed(e),
    }
}

/// Says that the value of a control did not come.
pub open spec fn automation_failed(e: WaitError) -> ToolReplyView {
    ToolReplyView::Error(
        "Failed to read automation value: "@ + wait_error_text(Waiting::AutoValue, e),
    )
}

/// Replies that the value of a control did not come.
fn refuse_automation(e: WaitError) -> (r: Action)
    ensures
        finishes(r, automation_failed(e)),
{
    let mut t = "Failed to read automation value: ".to_owned();
    t.append(wait_error(Waiting::AutoValue, e).as_str());
    Action::Finish(ToolReply::Error(t))
}

/// Replies once the value came, or did not.
pub fn after_automation(query: AutomationQuery, outcome: Result<Reply, WaitError>) -> (r: Action)
    ensures
        finishes(r, automation_reply(query, outcome)),
{
    match outcome {
        Ok(Reply::AutoValue(value)) => Action::Finish(
            ToolReply::Document(
                Document::AutomationValue {
                    value,
                    route_id: query.route_id,
                    control_type: query.control_type,
                    time_samples: query.time_samples,
                },
            ),
        ),
        Ok(_) => refuse_automation(WaitError::Cancelled),
        Err(e) => refuse_automation(e),
    }
}

/// A value is written as an automation point.
pub open spec fn point_written(query: AutomationQuery, value: Single, r: Action) -> bool {
    reports(
        r,
        MessageView {
            addr: "/mixpilot/write_track_auto"@,
            args: seq![
                ArgView::Int(query.route_id),
                ArgView::Text(query.control_type@),
                ArgView::Int(query.time_samples as i32),
                ArgView::Float(value),
            ],
        },
        ToolReplyView::Document(
            DocumentView::TrackAutomation {
                route_id: query.route_id,
                control_type: query.control_type@,
                time_samples: query.time_samples,
                value,
            },
        ),
        failure("Failed to write track automation: "@),
    )
}

/// Writes a value as an automation point.
fn write_point(query: AutomationQuery, value: Single) -> (r: Action)
    ensures
        point_written(query, value, r),
{
    Action::Send(
        message(
            "/mixpilot/write_track_auto",
            four_args(
                OscArg::Int(query.route_id),
                OscArg::Text(query.control_type.clone()),
                OscArg::Int(query.time_samples as i32),
                OscArg::Float(value),
            ),
        ),
        AfterSend::Report {
            done: ToolReply::Document(
                Document::TrackAutomation {
                    route_id: query.route_id,
                    control_type: query.control_type,
                    time_samples: query.time_samples,
                    value,
                },
            ),
            failed: failing("Failed to write track automation: "),
        },
    )
}

/// Writes an automation point for a control of a track: the given value, or the one that
/// the control has where `use_current_as_start` says so.
pub fn write_track_automation_tool(
    route_id: i32,
    control_type: String,
    time_samples: i64,
    value: Single,
    use_current_as_start: Option<bool>,
) -> (r: Action)
    ensures
        ({
            let query = AutomationQuery { route_id, control_type, time_samples };
            if !is_track_control(control_type@) {
                finishes(
                    r,
                    ToolReplyView::Error(
                        "Invalid control_type: "@ + control_type@
                            + ". Must be 'gain', 'pan_azimuth', or 'pan_width'"@,
                    ),
                )
            } else if use_current_as_start == Some(true) {
                r matches Action::Send(m, AfterSend::CurrentValueRequested(q)) && m@
                    == track_automation_message(query) && q == query
            } else {
                point_written(query, value, r)
            }
        }),
{
    if !names_track_control(control_type.as_str()) {
        let mut t = "Invalid control_type: ".to_owned();
        t.append(control_type.as_str());
        t.append(". Must be 'gain', 'pan_azimuth', or 'pan_width'");
        return Action::Finish(ToolReply::Error(t));
    }
    let query = AutomationQuery { route_id, control_type, time_samples };
    match use_current_as_start {
        Some(true) => Action::Send(
            track_automation_request(&query),
            AfterSend::CurrentValueRequested(query),
        ),
        _ => write_point(query, value),
    }
}

/// How it goes on once the value that is to be written was asked for.
pub open spec fn current_value_requested(
    query: AutomationQuery,
    outcome: Result<(), SendFailure>,
    r: Action,
) -> bool {
    match outcome {
        Ok(_) => r == Action::Await(Waiting::AutoValue, 1500, AfterAwait::CurrentValue(query)),
        Err(e) => finishes(r, failure_reply(failure("Failed to send read_track_auto: "@), e)),
    }
}

/// Goes on once the value that is to be written was asked for.
pub fn after_current_value_request(
    query: AutomationQuery,
    outcome: Result<(), SendFailure>,
) -> (r: Action)
    ensures
        current_value_requested(query, outcome, r),
{
    match outcome {
        Ok(_) => Action::Await(Waiting::AutoValue, 1500, AfterAwait::CurrentValue(query)),
        Err(e) => Action::Finish(fail(failing("Failed to send read_track_auto: "), &e)),
    }
}

/// How it goes on once the value that is to be written came. Where it did not, nothing is
/// written.
pub open spec fn current_value_received(
    query: AutomationQuery,
    outcome: Result<Reply, WaitError>,
    r: Action,
) -> bool {
    match outcome {
        Ok(Reply::AutoValue(value)) => point_written(query, value, r),
        Ok(_) => finishes(r, automation_failed(WaitError::Cancelled)),
        Err(e) => finishes(r, automation_failed(e)),
    }
}

/// Writes the value that came, or says that none did.
pub fn after_current_value(query: AutomationQuery, outcome: Result<Reply, WaitError>) -> (r: Action)
    ensures
        current_value_received(query, outcome, r),
{
    match outcome {
        Ok(Reply::AutoValue(value)) => write_point(query, value),
        Ok(_) => refuse_automation(WaitError::Cancelled),
        Err(e) => refuse_automation(e),
    }
}

} // verus!
