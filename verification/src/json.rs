//! Replies and resources as trees of JSON.

use crate::reply::{
    listed_plugins_view, meters_view, readings_view, Document, DocumentView, ListedPlugin,
    ListedPluginView, Meter, MeterView, NamedReading,
};
use crate::resources::{
    actions_view, ActionInfo, ResourceBody, ResourceView, SlotParameters, SlotView,
    StripParameters, StripView,
};
use crate::single::Single;
use crate::state::{
    parameters_view, tracks_view, ParameterView, PluginParameter, TrackInfo, TrackView,
};
use crate::text::{decimal, decimal_text, lemma_decimal_reads_back};
use vstd::prelude::*;
use vstd::string::*;

verus! {

/// A tree of JSON. The fields of an object stand in the order in which they were added.
#[derive(Debug)]
pub enum Json {
    Null,
    Bool(bool),
    Int(i64),
    /// How many there are of something.
    Count(usize),
    /// A finite number in floating point.
    Number(Single),
    Text(String),
    List(Vec<Json>),
    Object(Vec<(String, Json)>),
}

/// What a tree says.
pub enum JsonView {
    Null,
    Bool(bool),
    Int(int),
    Number(Single),
    Text(Seq<char>),
    List(Seq<JsonView>),
    Object(Seq<(Seq<char>, JsonView)>),
}

impl View for Json {
    type V = JsonView;

    open spec fn view(&self) -> JsonView
        decreases self,
    {
        match self {
            Json::Null => JsonView::Null,
            Json::Bool(b) => JsonView::Bool(*b),
            Json::Int(n) => JsonView::Int(*n as int),
            Json::Count(n) => JsonView::Int(*n as int),
            Json::Number(v) => JsonView::Number(*v),
            Json::Text(t) => JsonView::Text(t@),
            Json::List(list) => JsonView::List(
                Seq::new(
                    list@.len(),
                    |i: int|
                        if 0 <= i < list@.len() {
                            list@[i].view()
                        } else {
                            JsonView::Null
                        },
                ),
            ),
            Json::Object(fields) => JsonView::Object(
                Seq::new(
                    fields@.len(),
                    |i: int|
                        if 0 <= i < fields@.len() {
                            (fields@[i].0@, fields@[i].1.view())
                        } else {
                            (Seq::empty(), JsonView::Null)
                        },
                ),
            ),
        }
    }
}

/// What the trees of a list say.
pub open spec fn items_view(list: Seq<Json>) -> Seq<JsonView> {
    list.map_values(|j: Json| j@)
}

/// What the fields of a list say.
pub open spec fn fields_view(fields: Seq<(String, Json)>) -> Seq<(Seq<char>, JsonView)> {
    fields.map_values(|f: (String, Json)| (f.0@, f.1@))
}

/// A list of trees.
fn list_of(list: Vec<Json>) -> (r: Json)
    ensures
        r@ == JsonView::List(items_view(list@)),
{
    let ghost items = list@;
    let r = Json::List(list);
    proof {
        reveal_with_fuel(<Json as View>::view, 2);
        assert(r@->List_0 =~= items_view(items));
    }
    r
}

/// An object with these fields.
fn object_of(fields: Vec<(String, Json)>) -> (r: Json)
    ensures
        r@ == JsonView::Object(fields_view(fields@)),
{
    let ghost all = fields@;
    let r = Json::Object(fields);
    proof {
        reveal_with_fuel(<Json as View>::view, 2);
        assert(r@->Object_0 =~= fields_view(all));
    }
    r
}

/// Adds a field.
fn put(fields: &mut Vec<(String, Json)>, name: &str, value: Json)
    ensures
        fields_view(final(fields)@) == fields_view(old(fields)@).push((name@, value@)),
{
    let ghost so_far = fields@;
    let field = (name.to_owned(), value);
    fields.push(field);
    assert(fields_view(fields@) =~= fields_view(so_far).push((name@, value@)));
}

/// No fields yet.
fn no_fields() -> (r: Vec<(String, Json)>)
    ensures
        fields_view(r@) == Seq::<(Seq<char>, JsonView)>::empty(),
{
    let r: Vec<(String, Json)> = Vec::new();
    assert(fields_view(r@) =~= Seq::empty());
    r
}

/// What can stand in a list.
pub trait Item {
    /// The tree that it gives.
    spec fn tree(&self) -> JsonView;

    /// The tree that it gives.
    fn json(&self) -> (r: Json)
        ensures
            r@ == self.tree(),
    ;
}

/// What can stand in an object, under a name of its own.
pub trait Field {
    /// The field that it gives.
    spec fn field(&self) -> (Seq<char>, JsonView);

    /// The field that it gives.
    fn named_json(&self) -> (r: (String, Json))
        ensures
            (r.0@, r.1@) == self.field(),
    ;
}

/// A list of such items.
fn json_list<T: Item>(list: &Vec<T>) -> (r: Json)
    ensures
        r@ == JsonView::List(list@.map_values(|x: T| x.tree())),
{
    let mut r: Vec<Json> = Vec::new();
    let mut i: usize = 0;
    while i < list.len()
        invariant
            i <= list.len(),
            r@.len() == i,
            forall|j: int| 0 <= j < i ==> (#[trigger] r@[j])@ == list@[j].tree(),
        decreases list.len() - i,
    {
        r.push(list[i].json());
        i = i + 1;
    }
    assert(items_view(r@) =~= list@.map_values(|x: T| x.tree()));
    list_of(r)
}

/// An object with such fields.
fn json_object<T: Field>(list: &Vec<T>) -> (r: Json)
    ensures
        r@ == JsonView::Object(list@.map_values(|x: T| x.field())),
{
    let mut r: Vec<(String, Json)> = Vec::new();
    let mut i: usize = 0;
    while i < list.len()
        invariant
            i <= list.len(),
            r@.len() == i,
            forall|j: int|
                0 <= j < i ==> ((#[trigger] r@[j]).0@, r@[j].1@) == list@[j].field(),
        decreases list.len() - i,
    {
        r.push(list[i].named_json());
        i = i + 1;
    }
    assert(fields_view(r@) =~= list@.map_values(|x: T| x.field()));
    object_of(r)
}

/// A number in floating point; JSON has none but the finite ones.
pub open spec fn number_tree(v: Single) -> JsonView {
    if v.finite() {
        JsonView::Number(v)
    } else {
        JsonView::Null
    }
}

/// A number in floating point.
fn number_json(v: Single) -> (r: Json)
    ensures
        r@ == number_tree(v),
{
    if v.is_finite() {
        Json::Number(v)
    } else {
        Json::Null
    }
}

/// A parameter of a plugin.
pub open spec fn parameter_tree(p: ParameterView) -> JsonView {
    JsonView::Object(
        seq![
            ("id"@, JsonView::Int(p.param_id as int)),
            ("name"@, JsonView::Text(p.name)),
            ("value"@, number_tree(p.value)),
        ],
    )
}

impl Item for PluginParameter {
    open spec fn tree(&self) -> JsonView {
        parameter_tree(self@)
    }

    fn json(&self) -> (r: Json) {
        let mut fields = no_fields();
        put(&mut fields, "id", Json::Int(self.param_id as i64));
        put(&mut fields, "name", Json::Text(self.name.clone()));
        put(&mut fields, "value", number_json(self.value));
        assert(fields_view(fields@) =~= parameter_tree(self@)->Object_0);
        object_of(fields)
    }
}

/// A list of parameters.
pub open spec fn parameters_tree(list: Seq<ParameterView>) -> JsonView {
    JsonView::List(list.map_values(|p: ParameterView| parameter_tree(p)))
}

/// A list of parameters.
fn parameters_json(list: &Vec<PluginParameter>) -> (r: Json)
    ensures
        r@ == parameters_tree(parameters_view(list@)),
{
    let r = json_list(list);
    assert(r@->List_0 =~= parameters_tree(parameters_view(list@))->List_0);
    r
}

/// A meter with its readings.
pub open spec fn meter_tree(m: MeterView) -> JsonView {
    JsonView::Object(
        seq![
            ("plugin_name"@, JsonView::Text(m.plugin_name)),
            ("slot"@, JsonView::Int(m.slot as int)),
            ("enabled"@, JsonView::Bool(m.enabled)),
            ("parameters"@, parameters_tree(m.parameters)),
        ],
    )
}

impl Item for Meter {
    open spec fn tree(&self) -> JsonView {
        meter_tree(self@)
    }

    fn json(&self) -> (r: Json) {
        let mut fields = no_fields();
        put(&mut fields, "plugin_name", Json::Text(self.plugin_name.clone()));
        put(&mut fields, "slot", Json::Int(self.slot as i64));
        put(&mut fields, "enabled", Json::Bool(self.enabled));
        put(&mut fields, "parameters", parameters_json(&self.parameters));
        assert(fields_view(fields@) =~= meter_tree(self@)->Object_0);
        object_of(fields)
    }
}

/// A reading under its name.
pub open spec fn reading_field(name: Seq<char>, value: Single) -> (Seq<char>, JsonView) {
    (name, number_tree(value))
}

impl Field for NamedReading {
    open spec fn field(&self) -> (Seq<char>, JsonView) {
        reading_field(self.name@, self.value)
    }

    fn named_json(&self) -> (r: (String, Json)) {
        (self.name.clone(), number_json(self.value))
    }
}

/// A listed plugin; of its name and its state only what is known.
pub open spec fn listed_plugin_tree(p: ListedPluginView) -> JsonView {
    JsonView::Object(
        seq![("slot"@, JsonView::Int(p.slot as int))] + match p.name {
            Some(name) => seq![("name"@, JsonView::Text(name))],
            None => Seq::empty(),
        } + match p.enabled {
            Some(enabled) => seq![("enabled"@, JsonView::Bool(enabled))],
            None => Seq::empty(),
        } + seq![
            ("known_parameters"@, JsonView::Int(p.known_parameters as int)),
            ("has_parameter_names"@, JsonView::Bool(p.has_parameter_names)),
        ],
    )
}

impl Item for ListedPlugin {
    open spec fn tree(&self) -> JsonView {
        listed_plugin_tree(self@)
    }

    fn json(&self) -> (r: Json) {
        let mut fields = no_fields();
        put(&mut fields, "slot", Json::Int(self.slot as i64));
        match &self.name {
            Some(name) => {
                put(&mut fields, "name", Json::Text(name.clone()));
            },
            None => {},
        }
        match self.enabled {
            Some(enabled) => {
                put(&mut fields, "enabled", Json::Bool(enabled));
            },
            None => {},
        }
        put(&mut fields, "known_parameters", Json::Count(self.known_parameters));
        put(&mut fields, "has_parameter_names", Json::Bool(self.has_parameter_names));
        assert(fields_view(fields@) =~= listed_plugin_tree(self@)->Object_0);
        object_of(fields)
    }
}

/// A position of the playhead, where it is known.
pub open spec fn frame_tree(frame: Option<i64>) -> JsonView {
    match frame {
        Some(n) => JsonView::Int(n as int),
        None => JsonView::Null,
    }
}

/// A reply with several fields, as JSON.
pub open spec fn document_tree(d: DocumentView) -> JsonView {
    JsonView::Object(
        match d {
            DocumentView::TransportState { status, position } => seq![
                ("status"@, JsonView::Text(status)),
                ("transport_frame"@, JsonView::Text(position)),
            ],
            DocumentView::PluginParameters { strip_id, plugin_slot, parameters } => seq![
                ("strip_id"@, JsonView::Int(strip_id as int)),
                ("plugin_slot"@, JsonView::Int(plugin_slot as int)),
                ("parameter_count"@, JsonView::Int(parameters.len() as int)),
                ("parameters"@, parameters_tree(parameters)),
            ],
            DocumentView::MeterReadings {
                strip_id,
                meters_found,
                combined_data,
                transport_frame,
            } => seq![
                ("strip_id"@, JsonView::Int(strip_id as int)),
                (
                    "meters_found"@,
                    JsonView::List(meters_found.map_values(|m: MeterView| meter_tree(m))),
                ),
                (
                    "combined_data"@,
                    JsonView::Object(
                        combined_data.map_values(
                            |r: (Seq<char>, Single)| reading_field(r.0, r.1),
                        ),
                    ),
                ),
                ("transport_frame"@, frame_tree(transport_frame)),
            ],
            DocumentView::SampleRate(rate) => seq![("sample_rate"@, JsonView::Int(rate as int))],
            DocumentView::LoopRange(range) => seq![
                ("loop_start_samples"@, JsonView::Int(range.start as int)),
                ("loop_end_samples"@, JsonView::Int(range.end as int)),
                ("loop_start_seconds"@, number_tree(range.start_seconds)),
                ("loop_end_seconds"@, number_tree(range.end_seconds)),
            ],
            DocumentView::PluginAutomation {
                route_id,
                plugin_slot,
                param_id,
                time_samples,
                value,
            } => seq![
                ("success"@, JsonView::Bool(true)),
                ("route_id"@, JsonView::Int(route_id as int)),
                ("plugin_slot"@, JsonView::Int(plugin_slot as int)),
                ("param_id"@, JsonView::Int(param_id as int)),
                ("time_samples"@, JsonView::Int(time_samples as int)),
                ("value"@, number_tree(value)),
            ],
            DocumentView::AutomationValue { value, route_id, control_type, time_samples } => seq![
                ("success"@, JsonView::Bool(true)),
                ("value"@, number_tree(value)),
                ("route_id"@, JsonView::Int(route_id as int)),
                ("control_type"@, JsonView::Text(control_type)),
                ("time_samples"@, JsonView::Int(time_samples as int)),
            ],
            DocumentView::TrackAutomation { route_id, control_type, time_samples, value } => seq![
                ("success"@, JsonView::Bool(true)),
                ("route_id"@, JsonView::Int(route_id as int)),
                ("control_type"@, JsonView::Text(control_type)),
                ("time_samples"@, JsonView::Int(time_samples as int)),
                ("value"@, number_tree(value)),
            ],
            DocumentView::StripPlugins { strip_id, plugins } => seq![
                ("strip_id"@, JsonView::Int(strip_id as int)),
                ("plugin_count"@, JsonView::Int(plugins.len() as int)),
                (
                    "plugins"@,
                    JsonView::List(
                        plugins.map_values(|p: ListedPluginView| listed_plugin_tree(p)),
                    ),
                ),
            ],
        },
    )
}

/// A reply with several fields, as JSON.
pub fn document_json(d: &Document) -> (r: Json)
    ensures
        r@ == document_tree(d@),
{
    let mut fields = no_fields();
    match d {
        Document::TransportState { status, position } => {
            put(&mut fields, "status", Json::Text(status.clone()));
            put(&mut fields, "transport_frame", Json::Text(position.clone()));
        },
        Document::PluginParameters { strip_id, plugin_slot, parameters } => {
            put(&mut fields, "strip_id", Json::Int(*strip_id as i64));
            put(&mut fields, "plugin_slot", Json::Int(*plugin_slot as i64));
            put(&mut fields, "parameter_count", Json::Count(parameters.len()));
            put(&mut fields, "parameters", parameters_json(parameters));
        },
        Document::MeterReadings { strip_id, meters_found, combined_data, transport_frame } => {
            let meters = json_list(meters_found);
            let combined = json_object(combined_data);
            proof {
                assert(meters@->List_0 =~= meters_view(meters_found@).map_values(
                    |m: MeterView| meter_tree(m),
                ));
                assert(combined@->Object_0 =~= readings_view(combined_data@).map_values(
                    |r: (Seq<char>, Single)| reading_field(r.0, r.1),
                ));
            }
            put(&mut fields, "strip_id", Json::Int(*strip_id as i64));
            put(&mut fields, "meters_found", meters);
            put(&mut fields, "combined_data", combined);
            put(
                &mut fields,
                "transport_frame",
                match transport_frame {
                    Some(n) => Json::Int(*n),
                    None => Json::Null,
                },
            );
        },
        Document::SampleRate(rate) => {
            put(&mut fields, "sample_rate", Json::Int(*rate as i64));
        },
        Document::LoopRange(range) => {
            put(&mut fields, "loop_start_samples", Json::Int(range.start as i64));
            put(&mut fields, "loop_end_samples", Json::Int(range.end as i64));
            put(&mut fields, "loop_start_seconds", number_json(range.start_seconds));
            put(&mut fields, "loop_end_seconds", number_json(range.end_seconds));
        },
        Document::PluginAutomation { route_id, plugin_slot, param_id, time_samples, value } => {
            put(&mut fields, "success", Json::Bool(true));
            put(&mut fields, "route_id", Json::Int(*route_id as i64));
            put(&mut fields, "plugin_slot", Json::Int(*plugin_slot as i64));
            put(&mut fields, "param_id", Json::Int(*param_id as i64));
            put(&mut fields, "time_samples", Json::Int(*time_samples));
            put(&mut fields, "value", number_json(*value));
        },
        Document::AutomationValue { value, route_id, control_type, time_samples } => {
            put(&mut fields, "success", Json::Bool(true));
            put(&mut fields, "value", number_json(*value));
            put(&mut fields, "route_id", Json::Int(*route_id as i64));
            put(&mut fields, "control_type", Json::Text(control_type.clone()));
            put(&mut fields, "time_samples", Json::Int(*time_samples));
        },
        Document::TrackAutomation { route_id, control_type, time_samples, value } => {
            put(&mut fields, "success", Json::Bool(true));
            put(&mut fields, "route_id", Json::Int(*route_id as i64));
            put(&mut fields, "control_type", Json::Text(control_type.clone()));
            put(&mut fields, "time_samples", Json::Int(*time_samples));
            put(&mut fields, "value", number_json(*value));
        },
        Document::StripPlugins { strip_id, plugins } => {
            let list = json_list(plugins);
            assert(list@->List_0 =~= listed_plugins_view(plugins@).map_values(
                |p: ListedPluginView| listed_plugin_tree(p),
            ));
            put(&mut fields, "strip_id", Json::Int(*strip_id as i64));
            put(&mut fields, "plugin_count", Json::Count(plugins.len()));
            put(&mut fields, "plugins", list);
        },
    }
    assert(fields_view(fields@) =~= document_tree(d@)->Object_0);
    object_of(fields)
}

/// A track or bus.
pub open spec fn track_tree(t: TrackView) -> JsonView {
    JsonView::Object(
        seq![
            ("id"@, JsonView::Int(t.id as int)),
            ("name"@, JsonView::Text(t.name)),
            ("track_type"@, JsonView::Text(t.track_type)),
        ],
    )
}

impl Item for TrackInfo {
    open spec fn tree(&self) -> JsonView {
        track_tree(self@)
    }

    fn json(&self) -> (r: Json) {
        let mut fields = no_fields();
        put(&mut fields, "id", Json::Int(self.id as i64));
        put(&mut fields, "name", Json::Text(self.name.clone()));
        put(&mut fields, "track_type", Json::Text(self.track_type.clone()));
        assert(fields_view(fields@) =~= track_tree(self@)->Object_0);
        object_of(fields)
    }
}

/// A menu action.
pub open spec fn action_tree(name: Seq<char>, description: Seq<char>) -> JsonView {
    JsonView::Object(
        seq![("name"@, JsonView::Text(name)), ("description"@, JsonView::Text(description))],
    )
}

impl Item for ActionInfo {
    open spec fn tree(&self) -> JsonView {
        action_tree(self.name@, self.description@)
    }

    fn json(&self) -> (r: Json) {
        let mut fields = no_fields();
        put(&mut fields, "name", Json::Text(self.name.clone()));
        put(&mut fields, "description", Json::Text(self.description.clone()));
        assert(fields_view(fields@) =~= action_tree(
            self.name@,
            self.description@,
        )->Object_0);
        object_of(fields)
    }
}

/// A parameter under a name made of its number.
pub open spec fn parameter_field(p: ParameterView) -> (Seq<char>, JsonView) {
    ("param_"@ + decimal_text(p.param_id as int), parameter_tree(p))
}

impl Field for PluginParameter {
    open spec fn field(&self) -> (Seq<char>, JsonView) {
        parameter_field(self@)
    }

    fn named_json(&self) -> (r: (String, Json)) {
        let mut name = "param_".to_owned();
        name.append(decimal(self.param_id as i64).as_str());
        (name, self.json())
    }
}

/// The parameters of a plugin, under its slot.
pub open spec fn slot_field(p: SlotView) -> (Seq<char>, JsonView) {
    (
        decimal_text(p.slot as int),
        JsonView::Object(
            seq![
                ("slot"@, JsonView::Int(p.slot as int)),
                (
                    "parameters"@,
                    JsonView::Object(
                        p.parameters.map_values(|x: ParameterView| parameter_field(x)),
                    ),
                ),
            ],
        ),
    )
}

impl Field for SlotParameters {
    open spec fn field(&self) -> (Seq<char>, JsonView) {
        slot_field(self@)
    }

    fn named_json(&self) -> (r: (String, Json)) {
        let parameters = json_object(&self.parameters);
        assert(parameters@->Object_0 =~= self@.parameters.map_values(
            |x: ParameterView| parameter_field(x),
        ));
        let mut fields = no_fields();
        put(&mut fields, "slot", Json::Int(self.slot as i64));
        put(&mut fields, "parameters", parameters);
        assert(fields_view(fields@) =~= slot_field(self@).1->Object_0);
        (decimal(self.slot as i64), object_of(fields))
    }
}

/// The parameters of the plugins on a strip, under its number.
pub open spec fn strip_field(s: StripView) -> (Seq<char>, JsonView) {
    (
        decimal_text(s.id as int),
        JsonView::Object(
            seq![
                ("id"@, JsonView::Int(s.id as int)),
                ("plugins"@, JsonView::Object(s.plugins.map_values(|p: SlotView| slot_field(p)))),
            ],
        ),
    )
}

impl Field for StripParameters {
    open spec fn field(&self) -> (Seq<char>, JsonView) {
        strip_field(self@)
    }

    fn named_json(&self) -> (r: (String, Json)) {
        let plugins = json_object(&self.plugins);
        assert(plugins@->Object_0 =~= self@.plugins.map_values(|p: SlotView| slot_field(p)));
        let mut fields = no_fields();
        put(&mut fields, "id", Json::Int(self.id as i64));
        put(&mut fields, "plugins", plugins);
        assert(fields_view(fields@) =~= strip_field(self@).1->Object_0);
        (decimal(self.id as i64), object_of(fields))
    }
}

/// What a resource holds, as JSON.
pub open spec fn resource_tree(r: ResourceView) -> JsonView {
    match r {
        ResourceView::Text(t) => JsonView::Text(t),
        ResourceView::Strips(list) => JsonView::List(
            list.map_values(|t: TrackView| track_tree(t)),
        ),
        ResourceView::Actions(list) => JsonView::List(
            list.map_values(|a: (Seq<char>, Seq<char>)| action_tree(a.0, a.1)),
        ),
        ResourceView::Parameters(list) => JsonView::Object(
            seq![
                ("strips"@, JsonView::Object(list.map_values(|s: StripView| strip_field(s)))),
            ],
        ),
    }
}

/// What a resource holds, as JSON.
pub fn resource_json(body: &ResourceBody) -> (r: Json)
    ensures
        r@ == resource_tree(body@),
{
    match body {
        ResourceBody::Text(t) => Json::Text(t.clone()),
        ResourceBody::Strips(list) => {
            let r = json_list(list);
            assert(r@->List_0 =~= tracks_view(list@).map_values(|t: TrackView| track_tree(t)));
            r
        },
        ResourceBody::Actions(list) => {
            let r = json_list(list);
            assert(r@->List_0 =~= actions_view(list@).map_values(
                |a: (Seq<char>, Seq<char>)| action_tree(a.0, a.1),
            ));
            r
        },
        ResourceBody::Parameters(list) => {
            let strips = json_object(list);
            assert(strips@->Object_0 =~= body@->Parameters_0.map_values(
                |s: StripView| strip_field(s),
            ));
            let mut fields = no_fields();
            put(&mut fields, "strips", strips);
            assert(fields_view(fields@) =~= resource_tree(body@)->Object_0);
            object_of(fields)
        },
    }
}

/// Parameters of different numbers stand under different names.
pub proof fn lemma_parameter_names_differ(a: ParameterView, b: ParameterView)
    requires
        a.param_id != b.param_id,
    ensures
        parameter_field(a).0 != parameter_field(b).0,
{
    lemma_decimal_reads_back(a.param_id);
    lemma_decimal_reads_back(b.param_id);
    let (x, y) = (parameter_field(a).0, parameter_field(b).0);
    let n = "param_"@.len() as int;
    assert(x.skip(n) =~= decimal_text(a.param_id as int));
    assert(y.skip(n) =~= decimal_text(b.param_id as int));
}

/// Plugins in different slots, and different strips, stand under different names.
pub proof fn lemma_slot_and_strip_names_differ(p: SlotView, q: SlotView, s: StripView, t: StripView)
    ensures
        p.slot != q.slot ==> slot_field(p).0 != slot_field(q).0,
        s.id != t.id ==> strip_field(s).0 != strip_field(t).0,
{
    lemma_decimal_reads_back(p.slot);
    lemma_decimal_reads_back(q.slot);
    lemma_decimal_reads_back(s.id);
    lemma_decimal_reads_back(t.id);
}

} // verus!
