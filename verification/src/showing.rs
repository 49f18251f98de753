//! How replies and resources look as JSON, and what stands under each resource.

use crate::json::{document_json, resource_json, Json, JsonView};
use crate::order::lemma_filter_keeps_pairs;
use crate::osc::{ArgView, OscMessage};
use crate::pending::{wait_error, LoopRange, WaitError, Waiting};
use crate::readings::{belongs, lemma_slots_among, slots_among};
use crate::reply::{Document, ListedPlugin, Meter, NamedReading};
use crate::resources::{
    actions_view, all_readings, list_resources, read_resource, resources_view, strips_among,
    ActionInfo, ResourceBody, ResourceInfo, SlotParameters, StripParameters, StripView,
};
use crate::server::{
    behind_colon, colons, get_info, read_port, set_surface, PortError, ServerDescription,
};
use crate::single::Single;
use crate::state::{
    known_strips, tracks_view, ArdourState, PlaybackStatus, PluginParameter, StateView, TrackInfo,
};
use crate::table::{in_order, lemma_in_order, ParamKey};
use crate::text::{
    decimal_text, is_digit, lemma_decimal_reads_back, lemma_nat_text_digits, nat_text, parsed_i32,
};
use vstd::prelude::*;
use vstd::string::*;

verus! {

/// Whether the field at `i` of an object has this name and this value.
pub open spec fn shows(j: JsonView, i: int, name: Seq<char>, value: JsonView) -> bool {
    j matches JsonView::Object(fields) && 0 <= i < fields.len() && fields[i] == (name, value)
}

/// Whether a tree is an object with so many fields.
pub open spec fn has_fields(j: JsonView, n: nat) -> bool {
    j matches JsonView::Object(fields) && fields.len() == n
}

/// Whether a tree is a list of so many trees.
pub open spec fn has_items(j: JsonView, n: nat) -> bool {
    j matches JsonView::List(items) && items.len() == n
}

/// Whether a tree shows a number in floating point: a finite one as it is, and any other
/// as nothing.
pub open spec fn shows_number(j: JsonView, v: Single) -> bool {
    &&& v.finite() ==> j == JsonView::Number(v)
    &&& !v.finite() ==> j == JsonView::Null
}

/// The value of the field at `i`.
pub open spec fn field_at(j: JsonView, i: int) -> JsonView {
    j->Object_0[i].1
}

/// The name of the field at `i`.
pub open spec fn name_at(j: JsonView, i: int) -> Seq<char> {
    j->Object_0[i].0
}

/// The item at `i`.
pub open spec fn item_at(j: JsonView, i: int) -> JsonView {
    j->List_0[i]
}

/// Whether a tree shows a parameter.
pub open spec fn shows_parameter(j: JsonView, p: PluginParameter) -> bool {
    &&& has_fields(j, 3)
    &&& shows(j, 0, "id"@, JsonView::Int(p.param_id as int))
    &&& shows(j, 1, "name"@, JsonView::Text(p.name@))
    &&& name_at(j, 2) == "value"@ && shows_number(field_at(j, 2), p.value)
}

/// Whether a tree is a list that shows these parameters.
pub open spec fn shows_parameters(j: JsonView, list: Seq<PluginParameter>) -> bool {
    has_items(j, list.len()) && forall|i: int|
        0 <= i < list.len() ==> shows_parameter(#[trigger] item_at(j, i), list[i])
}

/// What a tree says is what it is made of.
pub proof fn lemma_tree_says(j: Json)
    ensures
        j is Null <==> j@ is Null,
        j matches Json::Bool(b) ==> j@ == JsonView::Bool(b),
        j matches Json::Int(n) ==> j@ == JsonView::Int(n as int),
        j matches Json::Count(n) ==> j@ == JsonView::Int(n as int),
        j matches Json::Number(v) ==> j@ == JsonView::Number(v),
        j matches Json::Text(t) ==> j@ == JsonView::Text(t@),
        j matches Json::List(list) ==> has_items(j@, list@.len()) && forall|i: int|
            0 <= i < list@.len() ==> #[trigger] item_at(j@, i) == list@[i]@,
        j matches Json::Object(fields) ==> has_fields(j@, fields@.len()) && forall|i: int|
            0 <= i < fields@.len() ==> #[trigger] shows(j@, i, fields@[i].0@, fields@[i].1@),
{
    reveal_with_fuel(<Json as View>::view, 2);
}

/// How the state of the transport, the sample rate and the loop range look.
pub proof fn lemma_session_documents(
    d: &Document,
    status: String,
    position: String,
    rate: i32,
    range: LoopRange,
    r: Json,
)
    requires
        call_ensures(document_json, (d,), r),
    ensures
        *d == (Document::TransportState { status, position }) ==> has_fields(r@, 2) && shows(
            r@,
            0,
            "status"@,
            JsonView::Text(status@),
        ) && shows(r@, 1, "transport_frame"@, JsonView::Text(position@)),
        *d == Document::SampleRate(rate) ==> has_fields(r@, 1) && shows(
            r@,
            0,
            "sample_rate"@,
            JsonView::Int(rate as int),
        ),
        *d == Document::LoopRange(range) ==> has_fields(r@, 4) && shows(
            r@,
            0,
            "loop_start_samples"@,
            JsonView::Int(range.start as int),
        ) && shows(r@, 1, "loop_end_samples"@, JsonView::Int(range.end as int)) && name_at(r@, 2)
            == "loop_start_seconds"@ && shows_number(field_at(r@, 2), range.start_seconds)
            && name_at(r@, 3) == "loop_end_seconds"@ && shows_number(
            field_at(r@, 3),
            range.end_seconds,
        ),
{
}

/// How the parameters of a plugin look.
pub proof fn lemma_parameters_document(
    d: &Document,
    strip_id: i32,
    plugin_slot: i32,
    parameters: Vec<PluginParameter>,
    r: Json,
)
    requires
        *d == (Document::PluginParameters { strip_id, plugin_slot, parameters }),
        call_ensures(document_json, (d,), r),
    ensures
        has_fields(r@, 4),
        shows(r@, 0, "strip_id"@, JsonView::Int(strip_id as int)),
        shows(r@, 1, "plugin_slot"@, JsonView::Int(plugin_slot as int)),
        shows(r@, 2, "parameter_count"@, JsonView::Int(parameters@.len() as int)),
        name_at(r@, 3) == "parameters"@,
        shows_parameters(field_at(r@, 3), parameters@),
{
}

/// How points of automation look that were written or read.
pub proof fn lemma_automation_documents(
    d: &Document,
    route_id: i32,
    plugin_slot: i32,
    param_id: i32,
    control_type: String,
    time_samples: i64,
    value: Single,
    r: Json,
)
    requires
        call_ensures(document_json, (d,), r),
    ensures
        *d == (Document::PluginAutomation { route_id, plugin_slot, param_id, time_samples, value })
            ==> has_fields(r@, 6) && shows(r@, 0, "success"@, JsonView::Bool(true)) && shows(
            r@,
            1,
            "route_id"@,
            JsonView::Int(route_id as int),
        ) && shows(r@, 2, "plugin_slot"@, JsonView::Int(plugin_slot as int)) && shows(
            r@,
            3,
            "param_id"@,
            JsonView::Int(param_id as int),
        ) && shows(r@, 4, "time_samples"@, JsonView::Int(time_samples as int)) && name_at(r@, 5)
            == "value"@ && shows_number(field_at(r@, 5), value),
        *d == (Document::AutomationValue { value, route_id, control_type, time_samples })
            ==> has_fields(r@, 5) && shows(r@, 0, "success"@, JsonView::Bool(true)) && name_at(
            r@,
            1,
        ) == "value"@ && shows_number(field_at(r@, 1), value) && shows(
            r@,
            2,
            "route_id"@,
            JsonView::Int(route_id as int),
        ) && shows(r@, 3, "control_type"@, JsonView::Text(control_type@)) && shows(
            r@,
            4,
            "time_samples"@,
            JsonView::Int(time_samples as int),
        ),
        *d == (Document::TrackAutomation { route_id, control_type, time_samples, value })
            ==> has_fields(r@, 5) && shows(r@, 0, "success"@, JsonView::Bool(true)) && shows(
            r@,
            1,
            "route_id"@,
            JsonView::Int(route_id as int),
        ) && shows(r@, 2, "control_type"@, JsonView::Text(control_type@)) && shows(
            r@,
            3,
            "time_samples"@,
            JsonView::Int(time_samples as int),
        ) && name_at(r@, 4) == "value"@ && shows_number(field_at(r@, 4), value),
{
}

/// Whether a tree shows a plugin that is listed.
pub open spec fn shows_plugin(j: JsonView, p: ListedPlugin) -> bool {
    let behind_name: int = if p.name is Some {
        2
    } else {
        1
    };
    let behind_state: int = if p.enabled is Some {
        behind_name + 1
    } else {
        behind_name
    };
    &&& has_fields(j, (behind_state + 2) as nat)
    &&& shows(j, 0, "slot"@, JsonView::Int(p.slot as int))
    &&& p.name is Some ==> shows(j, 1, "name"@, JsonView::Text(p.name->0@))
    &&& p.enabled is Some ==> shows(j, behind_name, "enabled"@, JsonView::Bool(p.enabled->0))
    &&& shows(j, behind_state, "known_parameters"@, JsonView::Int(p.known_parameters as int))
    &&& shows(j, behind_state + 1, "has_parameter_names"@, JsonView::Bool(p.has_parameter_names))
}

/// How the plugins on a strip look.
pub proof fn lemma_plugins_document(
    d: &Document,
    strip_id: i32,
    plugins: Vec<ListedPlugin>,
    r: Json,
)
    requires
        *d == (Document::StripPlugins { strip_id, plugins }),
        call_ensures(document_json, (d,), r),
    ensures
        has_fields(r@, 3),
        shows(r@, 0, "strip_id"@, JsonView::Int(strip_id as int)),
        shows(r@, 1, "plugin_count"@, JsonView::Int(plugins@.len() as int)),
        name_at(r@, 2) == "plugins"@,
        has_items(field_at(r@, 2), plugins@.len()),
        forall|i: int|
            0 <= i < plugins@.len() ==> shows_plugin(
                #[trigger] item_at(field_at(r@, 2), i),
                plugins@[i],
            ),
{
}

/// Whether a tree shows a meter.
pub open spec fn shows_meter(j: JsonView, m: Meter) -> bool {
    &&& has_fields(j, 4)
    &&& shows(j, 0, "plugin_name"@, JsonView::Text(m.plugin_name@))
    &&& shows(j, 1, "slot"@, JsonView::Int(m.slot as int))
    &&& shows(j, 2, "enabled"@, JsonView::Bool(m.enabled))
    &&& name_at(j, 3) == "parameters"@ && shows_parameters(field_at(j, 3), m.parameters@)
}

/// How the readings of the meters on a strip look.
pub proof fn lemma_meters_document(
    d: &Document,
    strip_id: i32,
    meters_found: Vec<Meter>,
    combined_data: Vec<NamedReading>,
    transport_frame: Option<i64>,
    r: Json,
)
    requires
        *d == (Document::MeterReadings { strip_id, meters_found, combined_data, transport_frame }),
        call_ensures(document_json, (d,), r),
    ensures
        has_fields(r@, 4),
        shows(r@, 0, "strip_id"@, JsonView::Int(strip_id as int)),
        name_at(r@, 1) == "meters_found"@,
        has_items(field_at(r@, 1), meters_found@.len()),
        forall|i: int|
            0 <= i < meters_found@.len() ==> shows_meter(
                #[trigger] item_at(field_at(r@, 1), i),
                meters_found@[i],
            ),
        name_at(r@, 2) == "combined_data"@,
        has_fields(field_at(r@, 2), combined_data@.len()),
        forall|i: int|
            0 <= i < combined_data@.len() ==> name_at(field_at(r@, 2), i) == combined_data@[i].name@
                && shows_number(#[trigger] field_at(field_at(r@, 2), i), combined_data@[i].value),
        transport_frame matches Some(n) ==> shows(
            r@,
            3,
            "transport_frame"@,
            JsonView::Int(n as int),
        ),
        transport_frame is None ==> shows(r@, 3, "transport_frame"@, JsonView::Null),
{
}

/// How the strips look that are known.
pub proof fn lemma_strips_resource(b: &ResourceBody, list: Vec<TrackInfo>, r: Json)
    requires
        *b == ResourceBody::Strips(list),
        call_ensures(resource_json, (b,), r),
    ensures
        has_items(r@, list@.len()),
        forall|i: int|
            0 <= i < list@.len() ==> has_fields(#[trigger] item_at(r@, i), 3) && shows(
                item_at(r@, i),
                0,
                "id"@,
                JsonView::Int(list@[i].id as int),
            ) && shows(item_at(r@, i), 1, "name"@, JsonView::Text(list@[i].name@)) && shows(
                item_at(r@, i),
                2,
                "track_type"@,
                JsonView::Text(list@[i].track_type@),
            ),
{
}

/// How the menu actions look, and a text.
pub proof fn lemma_actions_resource(b: &ResourceBody, list: Vec<ActionInfo>, text: String, r: Json)
    requires
        call_ensures(resource_json, (b,), r),
    ensures
        *b == ResourceBody::Actions(list) ==> has_items(r@, list@.len()) && forall|i: int|
            0 <= i < list@.len() ==> has_fields(#[trigger] item_at(r@, i), 2) && shows(
                item_at(r@, i),
                0,
                "name"@,
                JsonView::Text(list@[i].name@),
            ) && shows(item_at(r@, i), 1, "description"@, JsonView::Text(list@[i].description@)),
        *b == ResourceBody::Text(text) ==> r@ == JsonView::Text(text@),
{
}

/// Whether a tree shows the parameters of a plugin, each under a name with its number.
pub open spec fn shows_slot(j: JsonView, p: SlotParameters) -> bool {
    &&& has_fields(j, 2)
    &&& shows(j, 0, "slot"@, JsonView::Int(p.slot as int))
    &&& name_at(j, 1) == "parameters"@
    &&& has_fields(field_at(j, 1), p.parameters@.len())
    &&& forall|i: int|
        0 <= i < p.parameters@.len() ==> name_at(field_at(j, 1), i) == "param_"@ + decimal_text(
            p.parameters@[i].param_id as int,
        ) && shows_parameter(#[trigger] field_at(field_at(j, 1), i), p.parameters@[i])
}

/// Whether a tree shows a strip with its plugins, each under its slot.
pub open spec fn shows_strip(j: JsonView, s: StripParameters) -> bool {
    &&& has_fields(j, 2)
    &&& shows(j, 0, "id"@, JsonView::Int(s.id as int))
    &&& name_at(j, 1) == "plugins"@
    &&& has_fields(field_at(j, 1), s.plugins@.len())
    &&& forall|i: int|
        0 <= i < s.plugins@.len() ==> name_at(field_at(j, 1), i) == decimal_text(
            s.plugins@[i].slot as int,
        ) && shows_slot(#[trigger] field_at(field_at(j, 1), i), s.plugins@[i])
}

/// How the parameters of all plugins look, each strip under its number.
pub proof fn lemma_parameters_resource(b: &ResourceBody, list: Vec<StripParameters>, r: Json)
    requires
        *b == ResourceBody::Parameters(list),
        call_ensures(resource_json, (b,), r),
    ensures
        has_fields(r@, 1),
        name_at(r@, 0) == "strips"@,
        has_fields(field_at(r@, 0), list@.len()),
        forall|i: int|
            0 <= i < list@.len() ==> name_at(field_at(r@, 0), i) == decimal_text(list@[i].id as int)
                && shows_strip(#[trigger] field_at(field_at(r@, 0), i), list@[i]),
{
    let all = field_at(r@, 0);
    assert forall|i: int| 0 <= i < list@.len() implies name_at(all, i) == decimal_text(
        list@[i].id as int,
    ) && shows_strip(#[trigger] field_at(all, i), list@[i]) by {
        assert(b@->Parameters_0[i] == list@[i]@);
        let s = list@[i];
        let plugins = field_at(field_at(all, i), 1);
        assert forall|k: int| 0 <= k < s.plugins@.len() implies name_at(plugins, k)
            == decimal_text(s.plugins@[k].slot as int) && shows_slot(
            #[trigger] field_at(plugins, k),
            s.plugins@[k],
        ) by {
            assert(s@.plugins[k] == s.plugins@[k]@);
            let p = s.plugins@[k];
            let parameters = field_at(field_at(plugins, k), 1);
            assert forall|n: int| 0 <= n < p.parameters@.len() implies name_at(parameters, n)
                == "param_"@ + decimal_text(p.parameters@[n].param_id as int) && shows_parameter(
                #[trigger] field_at(parameters, n),
                p.parameters@[n],
            ) by {
                assert(p@.parameters[n] == p.parameters@[n]@);
            }
        }
    }
}

/// The strips of which parameters are known are those of the keys, none of them twice.
proof fn lemma_strips_among(keys: Seq<ParamKey>)
    ensures
        strips_among(keys).no_duplicates(),
        forall|ssid: i32| #[trigger]
            strips_among(keys).contains(ssid) <==> exists|i: int|
                0 <= i < keys.len() && (#[trigger] keys[i]).ssid == ssid,
    decreases keys.len(),
{
    let all = strips_among(keys);
    if keys.len() > 0 {
        let rest = keys.drop_last();
        let head = strips_among(rest);
        lemma_strips_among(rest);
        assert forall|ssid: i32| #[trigger] all.contains(ssid) <==> exists|i: int|
            0 <= i < keys.len() && (#[trigger] keys[i]).ssid == ssid by {
            if all.contains(ssid) {
                if head.contains(ssid) {
                    let i = choose|i: int|
                        0 <= i < rest.len() && (#[trigger] rest[i]).ssid == ssid;
                    assert(keys[i].ssid == ssid);
                } else {
                    assert(keys[keys.len() - 1].ssid == ssid);
                }
            }
            if exists|i: int| 0 <= i < keys.len() && (#[trigger] keys[i]).ssid == ssid {
                let i = choose|i: int| 0 <= i < keys.len() && (#[trigger] keys[i]).ssid == ssid;
                if i < rest.len() {
                    assert(rest[i].ssid == ssid);
                    assert(head.contains(ssid));
                    let j = choose|j: int| 0 <= j < head.len() && head[j] == ssid;
                    assert(all[j] == ssid);
                } else if !head.contains(ssid) {
                    assert(all[all.len() - 1] == ssid);
                }
            }
        }
    }
}

/// Whether a parameter is shown at these places: that of its strip, that of its slot among
/// those of the strip, and that among the parameters of the slot.
pub open spec fn is_shown(list: Seq<StripView>, a: int, b: int, c: int, k: ParamKey) -> bool {
    &&& 0 <= a < list.len() && list[a].id == k.ssid
    &&& 0 <= b < list[a].plugins.len() && list[a].plugins[b].slot == k.slot
    &&& 0 <= c < list[a].plugins[b].parameters.len()
    &&& list[a].plugins[b].parameters[c].param_id == k.param
}

/// Every parameter of which the value is known is shown under its strip and its slot.
pub proof fn lemma_known_value_is_shown(s: StateView, k: ParamKey)
    requires
        s.coherent(),
        s.values.contains_key(k),
    ensures
        exists|a: int, b: int, c: int| #[trigger] is_shown(all_readings(s), a, b, c, k),
{
    let keys = in_order(s.values.dom());
    lemma_in_order(s.values.dom());
    assert(keys.contains(k));
    let i = choose|i: int| 0 <= i < keys.len() && keys[i] == k;
    lemma_strips_among(keys);
    assert(keys[i].ssid == k.ssid);
    assert(strips_among(keys).contains(k.ssid));
    let a = choose|a: int|
        0 <= a < strips_among(keys).len() && strips_among(keys)[a] == k.ssid;
    lemma_slots_among(keys, k.ssid);
    assert(keys[i].slot == k.slot);
    let slots = slots_among(keys, k.ssid);
    assert(slots.contains(k.slot));
    let b = choose|b: int| 0 <= b < slots.len() && slots[b] == k.slot;
    let wanted = belongs(k.ssid, k.slot);
    keys.lemma_filter_contains(wanted, i);
    let mine = keys.filter(wanted);
    let c = choose|c: int| 0 <= c < mine.len() && mine[c] == k;
    assert(is_shown(all_readings(s), a, b, c, k));
}

/// Every parameter that is shown has the value and the name that are known of it.
pub proof fn lemma_shown_value_is_known(s: StateView, a: int, b: int, c: int, k: ParamKey)
    requires
        s.coherent(),
        is_shown(all_readings(s), a, b, c, k),
    ensures
        s.values.contains_key(k),
        ({
            let shown = all_readings(s)[a].plugins[b].parameters[c];
            &&& shown.value == s.values[k]
            &&& s.names.contains_key(k) ==> shown.name == s.names[k]
            &&& !s.names.contains_key(k) ==> shown.name == "param_"@ + decimal_text(k.param as int)
        }),
{
    let keys = in_order(s.values.dom());
    lemma_in_order(s.values.dom());
    let wanted = belongs(k.ssid, k.slot);
    let mine = keys.filter(wanted);
    assert(mine[c].param == k.param);
    keys.lemma_filter_pred(wanted, c);
    assert(mine[c] == k);
    assert(mine.contains(k));
    keys.lemma_filter_contains_rev(wanted, k);
    assert(keys.contains(k));
}

/// No strip is shown twice, no slot twice under its strip, and no parameter twice under its
/// slot; the parameters ascend.
pub proof fn lemma_each_is_shown_once(s: StateView)
    requires
        s.coherent(),
    ensures
        forall|a: int, d: int|
            0 <= a < d < all_readings(s).len() ==> (#[trigger] all_readings(s)[a]).id != (
            #[trigger] all_readings(s)[d]).id,
        forall|a: int, b: int, d: int|
            0 <= a < all_readings(s).len() && 0 <= b < d < all_readings(s)[a].plugins.len() ==> (
            #[trigger] all_readings(s)[a].plugins[b]).slot != (
            #[trigger] all_readings(s)[a].plugins[d]).slot,
        forall|a: int, b: int, c: int, d: int|
            0 <= a < all_readings(s).len() && 0 <= b < all_readings(s)[a].plugins.len() && 0 <= c
                < d < all_readings(s)[a].plugins[b].parameters.len() ==> (
            #[trigger] all_readings(s)[a].plugins[b].parameters[c]).param_id < (
            #[trigger] all_readings(s)[a].plugins[b].parameters[d]).param_id,
{
    let keys = in_order(s.values.dom());
    lemma_in_order(s.values.dom());
    lemma_strips_among(keys);
    let list = all_readings(s);
    assert forall|a: int, b: int, d: int|
        0 <= a < list.len() && 0 <= b < d < list[a].plugins.len() implies (
    #[trigger] list[a].plugins[b]).slot != (#[trigger] list[a].plugins[d]).slot by {
        lemma_slots_among(keys, list[a].id);
    }
    assert forall|a: int, b: int, c: int, d: int|
        0 <= a < list.len() && 0 <= b < list[a].plugins.len() && 0 <= c < d
            < list[a].plugins[b].parameters.len() implies (
    #[trigger] list[a].plugins[b].parameters[c]).param_id < (
    #[trigger] list[a].plugins[b].parameters[d]).param_id by {
        let wanted = belongs(list[a].id, list[a].plugins[b].slot);
        let mine = keys.filter(wanted);
        let precedes = |x: ParamKey, y: ParamKey| x.precedes(y);
        lemma_filter_keeps_pairs(keys, wanted, precedes);
        assert(precedes(mine[c], mine[d]));
        keys.lemma_filter_pred(wanted, c);
        keys.lemma_filter_pred(wanted, d);
    }
}

/// What is read under the URI of each resource, and what is said of any other URI.
pub proof fn lemma_resources_are_read(
    state: &ArdourState,
    uri: &str,
    r: Result<ResourceBody, String>,
)
    requires
        call_ensures(read_resource, (state, uri), r),
    ensures
        uri@ == "ardour:/state/playback"@ ==> (r matches Ok(ResourceBody::Text(t)) && t@ == match
            state@.playback {
            PlaybackStatus::Playing => "Playing"@,
            PlaybackStatus::Stopped => "Stopped"@,
            PlaybackStatus::Unknown => "Unknown"@,
        }),
        uri@ == "ardour:/state/transport_frame"@ ==> (r matches Ok(ResourceBody::Text(t)) && t@
            == match state@.frame {
            Some(n) => decimal_text(n as int),
            None => "Unknown"@,
        }),
        uri@ == "ardour:/strip/list"@ ==> (r matches Ok(ResourceBody::Strips(list)) && tracks_view(
            list@,
        ) == known_strips(state@.strips)),
        uri@ == "ardour:/action/list"@ ==> (r matches Ok(ResourceBody::Actions(list)) && list@.len()
            == 3 && list@[0].name@ == "Session/Save"@ && list@[0].description@
            == "Saves the current session."@ && list@[1].name@ == "Editor/zoom-to-session"@
            && list@[1].description@ == "Zooms to fit the entire session."@ && list@[2].name@
            == "Transport/Loop"@ && list@[2].description@ == "Toggles loop playback."@),
        uri@ == "ardour:/plugin/parameters"@ ==> (r matches Ok(ResourceBody::Parameters(list))
            && list@.map_values(|s: StripParameters| s@) == all_readings(state@)),
        uri@ != "ardour:/state/playback"@ && uri@ != "ardour:/state/transport_frame"@ && uri@
            != "ardour:/strip/list"@ && uri@ != "ardour:/action/list"@ && uri@
            != "ardour:/plugin/parameters"@ ==> (r matches Err(t) && t@ == "Resource URI '"@ + uri@
            + "' not found."@),
{
    lemma_uris_differ();
    match r {
        Ok(ResourceBody::Actions(list)) => {
            let view = actions_view(list@);
            assert(view.len() == list@.len());
            if uri@ == "ardour:/action/list"@ {
                assert(view[0] == (list@[0].name@, list@[0].description@));
                assert(view[1] == (list@[1].name@, list@[1].description@));
                assert(view[2] == (list@[2].name@, list@[2].description@));
            }
        },
        _ => {},
    }
}

/// The URIs of the resources differ.
proof fn lemma_uris_differ()
    ensures
        "ardour:/state/playback"@ != "ardour:/state/transport_frame"@,
        "ardour:/state/playback"@ != "ardour:/strip/list"@,
        "ardour:/state/playback"@ != "ardour:/action/list"@,
        "ardour:/state/playback"@ != "ardour:/plugin/parameters"@,
        "ardour:/state/transport_frame"@ != "ardour:/strip/list"@,
        "ardour:/state/transport_frame"@ != "ardour:/action/list"@,
        "ardour:/state/transport_frame"@ != "ardour:/plugin/parameters"@,
        "ardour:/strip/list"@ != "ardour:/action/list"@,
        "ardour:/strip/list"@ != "ardour:/plugin/parameters"@,
        "ardour:/action/list"@ != "ardour:/plugin/parameters"@,
{
    reveal_strlit("ardour:/state/playback");
    reveal_strlit("ardour:/state/transport_frame");
    reveal_strlit("ardour:/strip/list");
    reveal_strlit("ardour:/action/list");
    reveal_strlit("ardour:/plugin/parameters");
    assert("ardour:/state/playback"@.len() == 22);
    assert("ardour:/state/transport_frame"@.len() == 29);
    assert("ardour:/strip/list"@.len() == 18);
    assert("ardour:/action/list"@.len() == 19);
    assert("ardour:/plugin/parameters"@.len() == 25);
}

/// Each resource that is announced can be read, and is announced under its own name.
pub proof fn lemma_announced_resources_can_be_read(
    list: Vec<ResourceInfo>,
    i: int,
    state: &ArdourState,
    uri: &str,
    r: Result<ResourceBody, String>,
)
    requires
        call_ensures(list_resources, (), list),
        call_ensures(read_resource, (state, uri), r),
    ensures
        list@.len() == 3,
        0 <= i < list@.len() && uri@ == list@[i].uri@ ==> r is Ok,
        list@[0].uri@ == "ardour:/state/playback"@,
        list@[0].name@ == "Ardour Playback State"@,
        list@[0].description@
            == "Current playback state of Ardour (e.g., Playing, Stopped, Unknown)."@,
        list@[1].uri@ == "ardour:/state/transport_frame"@,
        list@[1].name@ == "Ardour Transport Frame Position"@,
        list@[1].description@
            == "Current playhead position in samples. Returns 'Unknown' if not yet reported by Ardour."@,
        list@[2].uri@ == "ardour:/plugin/parameters"@,
        list@[2].name@ == "Plugin Parameter Values"@,
        list@[2].description@ == "Current parameter values for all plugins in the session."@,
{
    lemma_resources_are_read(state, uri, r);
    let view = resources_view(list@);
    assert(view.len() == list@.len());
    assert(view[0] == list@[0]@);
    assert(view[1] == list@[1]@);
    assert(view[2] == list@[2]@);
}

/// A resource of text is plain text, and any other is JSON.
pub proof fn lemma_media_types(b: &ResourceBody, r: String)
    requires
        call_ensures(ResourceBody::mime_type, (b,), r),
    ensures
        *b is Text ==> r@ == "text/plain"@,
        !(*b is Text) ==> r@ == "application/json"@,
{
}

/// What the server says of itself.
pub proof fn lemma_server_describes_itself(version: String, r: ServerDescription)
    requires
        call_ensures(get_info, (version,), r),
    ensures
        r.protocol_version@ == "2024-11-05"@,
        r.name@ == "Ardour MCP Server (Rust)"@,
        r.version@ == version@,
        r.instructions@ == "This server controls Ardour DAW transport functions."@,
        r.tools_list_changed == Some(false),
        r.resources_subscribe == Some(false),
        r.resources_list_changed == Some(false),
{
}

/// The workstation is told to report to the port that is given: all kinds of strips, and
/// all that it can report.
pub proof fn lemma_surface(port: i32, r: OscMessage)
    requires
        call_ensures(set_surface, (port,), r),
    ensures
        r@.addr == "/set_surface"@,
        r@.args.len() == 9,
        r@.args[1] == ArgView::Int(2047),
        r@.args[2] == ArgView::Int(131071),
        r@.args[6] == ArgView::Int(port),
        forall|i: int|
            0 <= i < 9 && i != 1 && i != 2 && i != 6 ==> #[trigger] r@.args[i] == ArgView::Int(0),
{
}

/// The port of an address stands behind its only colon; an address with none, or with more,
/// gives no port.
pub proof fn lemma_port_is_read(
    addr: &str,
    host: Seq<char>,
    port: i32,
    rest: Seq<char>,
    r: Result<i32, PortError>,
)
    requires
        call_ensures(read_port, (addr,), r),
        forall|i: int| 0 <= i < host.len() ==> #[trigger] host[i] != ':',
    ensures
        addr@ == host + seq![':'] + decimal_text(port as int) ==> r == Ok::<i32, PortError>(port),
        addr@ == host ==> r == Err::<i32, PortError>(PortError::NotTwoParts),
        addr@ == host + seq![':'] + rest && rest.contains(':') ==> r == Err::<i32, PortError>(
            PortError::NotTwoParts,
        ),
        addr@ == host + seq![':'] + rest && !rest.contains(':') && parsed_i32(rest) is None ==> r
            == Err::<i32, PortError>(PortError::NotANumber),
{
    lemma_decimal_reads_back(port);
    lemma_no_colon(host);
    lemma_no_colon_in_number(port as int);
    lemma_behind_colon(host, decimal_text(port as int));
    lemma_behind_colon(host, rest);
}

/// A text without a colon has none.
proof fn lemma_no_colon(s: Seq<char>)
    requires
        forall|i: int| 0 <= i < s.len() ==> #[trigger] s[i] != ':',
    ensures
        colons(s) == 0,
    decreases s.len(),
{
    if s.len() > 0 {
        assert forall|i: int| 0 <= i < s.len() - 1 implies #[trigger] s.drop_last()[i] != ':' by {
            assert(s.drop_last()[i] == s[i]);
        }
        lemma_no_colon(s.drop_last());
    }
}

/// No colon stands in a number.
proof fn lemma_no_colon_in_number(n: int)
    ensures
        !decimal_text(n).contains(':'),
{
    let m: nat = if n < 0 {
        (-n) as nat
    } else {
        n as nat
    };
    lemma_nat_text_digits(m);
    let t = nat_text(m);
    if decimal_text(n).contains(':') {
        let i = choose|i: int| 0 <= i < decimal_text(n).len() && decimal_text(n)[i] == ':';
        if n < 0 {
            assert(i > 0);
            assert(is_digit(t[i - 1]));
        } else {
            assert(is_digit(t[i]));
        }
    }
}

/// What stands behind the colon that follows a text without one.
proof fn lemma_behind_colon(host: Seq<char>, rest: Seq<char>)
    requires
        colons(host) == 0,
    ensures
        !rest.contains(':') ==> colons(host + seq![':'] + rest) == 1 && behind_colon(
            host + seq![':'] + rest,
        ) == rest,
        rest.contains(':') ==> colons(host + seq![':'] + rest) > 1,
        colons(host + seq![':'] + rest) >= 1,
    decreases rest.len(),
{
    let all = host + seq![':'] + rest;
    if rest.len() == 0 {
        assert(all.drop_last() =~= host);
        assert(all.last() == ':');
        assert(behind_colon(all) =~= rest);
    } else {
        let less = rest.drop_last();
        lemma_behind_colon(host, less);
        assert(all.drop_last() =~= host + seq![':'] + less);
        assert(all.last() == rest.last());
        if !rest.contains(':') {
            assert(!less.contains(':')) by {
                if less.contains(':') {
                    let i = choose|i: int| 0 <= i < less.len() && less[i] == ':';
                    assert(rest[i] == ':');
                }
            }
            assert(rest[rest.len() - 1] != ':');
            assert(behind_colon(all) =~= rest);
        } else if rest.last() != ':' {
            let i = choose|i: int| 0 <= i < rest.len() && rest[i] == ':';
            assert(less[i] == ':');
        }
    }
}

/// What is said where a reply did not come, or where the request for it was given up.
pub proof fn lemma_missing_replies(
    ssid: i32,
    slot: i32,
    param: i32,
    w: Waiting,
    late: String,
    lost: String,
)
    requires
        call_ensures(wait_error, (w, WaitError::TimedOut), late),
        call_ensures(wait_error, (w, WaitError::Cancelled), lost),
    ensures
        ({
            let at = decimal_text(ssid as int) + " slot "@ + decimal_text(slot as int);
            let parameter = " param "@ + decimal_text(param as int);
            &&& w == (Waiting::Descriptor { ssid, slot }) ==> late@
                == "Timed out waiting for /strip/plugin/descriptor_end for strip "@ + at && lost@
                == "Descriptor wait cancelled for strip "@ + at
            &&& w == (Waiting::Value { ssid, slot, param }) ==> late@
                =~= "Timed out waiting for /strip/plugin/parameter/value strip "@ + at + parameter
                && lost@ =~= "Param wait cancelled strip "@ + at + parameter
            &&& w == (Waiting::Batch { ssid, slot }) ==> late@
                == "Timed out waiting for /strip/plugin/parameter/values strip "@ + at && lost@
                == "Batch param wait cancelled strip "@ + at
            &&& w == Waiting::SampleRate ==> late@
                == "Timed out waiting for /mixpilot/reply/sample_rate"@ && lost@
                == "Sample rate request cancelled"@
            &&& w == Waiting::LoopRange ==> late@
                == "Timed out waiting for /mixpilot/reply/loop_range"@ && lost@
                == "Loop range request cancelled"@
            &&& w == Waiting::AutoValue ==> late@
                == "Timed out waiting for /mixpilot/reply/auto_value"@ && lost@
                == "Auto value request cancelled"@
        }),
{
}

} // verus!
