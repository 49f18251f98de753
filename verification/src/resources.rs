//! What can be read of the workstation without asking it.

use crate::readings::{
    belongs, find_slots, is_among, read_parameter, reading, select_keys, slots_among,
};
use crate::single::Single;
use crate::state::{
    known_strips, parameters_view, tracks_view, ArdourState, ParameterView, PluginParameter,
    StateView, TrackInfo, TrackView,
};
use crate::table::{in_order, lists, ParamKey};
use crate::text::text_is;
use crate::transport::{describe_frame, describe_status, frame_text, status_text};
use vstd::prelude::*;
use vstd::string::*;

verus! {

/// A resource that can be read.
#[derive(Debug)]
pub struct ResourceInfo {
    pub uri: String,
    pub name: String,
    pub description: String,
}

/// What is said of a resource.
pub struct ResourceInfoView {
    pub uri: Seq<char>,
    pub name: Seq<char>,
    pub description: Seq<char>,
}

impl View for ResourceInfo {
    type V = ResourceInfoView;

    open spec fn view(&self) -> ResourceInfoView {
        ResourceInfoView {
            uri: self.uri@,
            name: self.name@,
            description: self.description@,
        }
    }
}

/// What is said of the resources of a list.
pub open spec fn resources_view(list: Seq<ResourceInfo>) -> Seq<ResourceInfoView> {
    list.map_values(|r: ResourceInfo| r@)
}

/// A menu action.
#[derive(Debug)]
pub struct ActionInfo {
    pub name: String,
    pub description: String,
}

/// The menu actions of a list, each with its description.
pub open spec fn actions_view(list: Seq<ActionInfo>) -> Seq<(Seq<char>, Seq<char>)> {
    list.map_values(|a: ActionInfo| (a.name@, a.description@))
}

/// The parameters of a plugin.
#[derive(Debug)]
pub struct SlotParameters {
    pub slot: i32,
    pub parameters: Vec<PluginParameter>,
}

/// The parameters of the plugins on a strip.
#[derive(Debug)]
pub struct StripParameters {
    pub id: i32,
    pub plugins: Vec<SlotParameters>,
}

/// What is said of a plugin.
#[verifier::ext_equal]
pub struct SlotView {
    pub slot: i32,
    pub parameters: Seq<ParameterView>,
}

/// What is said of a strip.
#[verifier::ext_equal]
pub struct StripView {
    pub id: i32,
    pub plugins: Seq<SlotView>,
}

impl View for SlotParameters {
    type V = SlotView;

    open spec fn view(&self) -> SlotView {
        SlotView { slot: self.slot, parameters: parameters_view(self.parameters@) }
    }
}

impl View for StripParameters {
    type V = StripView;

    open spec fn view(&self) -> StripView {
        StripView { id: self.id, plugins: self.plugins@.map_values(|p: SlotParameters| p@) }
    }
}

/// What a resource holds.
#[derive(Debug)]
pub enum ResourceBody {
    Text(String),
    Strips(Vec<TrackInfo>),
    Actions(Vec<ActionInfo>),
    Parameters(Vec<StripParameters>),
}

/// What is said in a resource.
pub enum ResourceView {
    Text(Seq<char>),
    Strips(Seq<TrackView>),
    Actions(Seq<(Seq<char>, Seq<char>)>),
    Parameters(Seq<StripView>),
}

impl View for ResourceBody {
    type V = ResourceView;

    open spec fn view(&self) -> ResourceView {
        match self {
            ResourceBody::Text(t) => ResourceView::Text(t@),
            ResourceBody::Strips(list) => ResourceView::Strips(tracks_view(list@)),
            ResourceBody::Actions(list) => ResourceView::Actions(actions_view(list@)),
            ResourceBody::Parameters(list) => ResourceView::Parameters(
                list@.map_values(|s: StripParameters| s@),
            ),
        }
    }
}

impl ResourceBody {
    /// The media type of a resource.
    pub fn mime_type(&self) -> (r: String)
        ensures
            r@ == if self@ is Text {
                "text/plain"@
            } else {
                "application/json"@
            },
    {
        match self {
            ResourceBody::Text(_) => "text/plain".to_owned(),
            _ => "application/json".to_owned(),
        }
    }
}

/// The resources that are announced.
pub open spec fn announced() -> Seq<ResourceInfoView> {
    seq![
        ResourceInfoView {
            uri: "ardour:/state/playback"@,
            name: "Ardour Playback State"@,
            description: "Current playback state of Ardour (e.g., Playing, Stopped, Unknown)."@,
        },
        ResourceInfoView {
            uri: "ardour:/state/transport_frame"@,
            name: "Ardour Transport Frame Position"@,
            description:
                "Current playhead position in samples. Returns 'Unknown' if not yet reported by Ardour."@,
        },
        ResourceInfoView {
            uri: "ardour:/plugin/parameters"@,
            name: "Plugin Parameter Values"@,
            description: "Current parameter values for all plugins in the session."@,
        },
    ]
}

/// The resources that are announced.
pub fn list_resources() -> (r: Vec<ResourceInfo>)
    ensures
        resources_view(r@) == announced(),
{
    let mut r: Vec<ResourceInfo> = Vec::new();
    r.push(
        ResourceInfo {
            uri: "ardour:/state/playback".to_owned(),
            name: "Ardour Playback State".to_owned(),
            description:
                "Current playback state of Ardour (e.g., Playing, Stopped, Unknown).".to_owned(),
        },
    );
    r.push(
        ResourceInfo {
            uri: "ardour:/state/transport_frame".to_owned(),
            name: "Ardour Transport Frame Position".to_owned(),
            description:
                "Current playhead position in samples. Returns 'Unknown' if not yet reported by Ardour.".to_owned(),
        },
    );
    r.push(
        ResourceInfo {
            uri: "ardour:/plugin/parameters".to_owned(),
            name: "Plugin Parameter Values".to_owned(),
            description: "Current parameter values for all plugins in the session.".to_owned(),
        },
    );
    assert(resources_view(r@) =~= announced());
    r
}

/// Some menu actions.
pub open spec fn some_actions() -> Seq<(Seq<char>, Seq<char>)> {
    seq![
        ("Session/Save"@, "Saves the current session."@),
        ("Editor/zoom-to-session"@, "Zooms to fit the entire session."@),
        ("Transport/Loop"@, "Toggles loop playback."@),
    ]
}

/// Some menu actions.
fn list_actions() -> (r: Vec<ActionInfo>)
    ensures
        actions_view(r@) == some_actions(),
{
    let mut r: Vec<ActionInfo> = Vec::new();
    r.push(
        ActionInfo {
            name: "Session/Save".to_owned(),
            description: "Saves the current session.".to_owned(),
        },
    );
    r.push(
        ActionInfo {
            name: "Editor/zoom-to-session".to_owned(),
            description: "Zooms to fit the entire session.".to_owned(),
        },
    );
    r.push(
        ActionInfo {
            name: "Transport/Loop".to_owned(),
            description: "Toggles loop playback.".to_owned(),
        },
    );
    assert(actions_view(r@) =~= some_actions());
    r
}

/// The strips that occur among `keys`, each once, as they come.
pub open spec fn strips_among(keys: Seq<ParamKey>) -> Seq<i32>
    decreases keys.len(),
{
    if keys.len() == 0 {
        Seq::empty()
    } else {
        let head = strips_among(keys.drop_last());
        if head.contains(keys.last().ssid) {
            head
        } else {
            head.push(keys.last().ssid)
        }
    }
}

/// A parameter with its name and its value.
pub open spec fn known_reading(s: StateView) -> spec_fn(ParamKey) -> ParameterView {
    |k: ParamKey| reading(s, k, s.values[k])
}

/// All that is known of the plugin in a slot.
pub open spec fn slot_readings(
    s: StateView,
    keys: Seq<ParamKey>,
    ssid: i32,
) -> spec_fn(i32) -> SlotView {
    |slot: i32|
        SlotView {
            slot,
            parameters: keys.filter(belongs(ssid, slot)).map_values(known_reading(s)),
        }
}

/// All that is known of the plugins on a strip.
pub open spec fn strip_readings(
    s: StateView,
    keys: Seq<ParamKey>,
) -> spec_fn(i32) -> StripView {
    |ssid: i32|
        StripView {
            id: ssid,
            plugins: slots_among(keys, ssid).map_values(slot_readings(s, keys, ssid)),
        }
}

/// All parameters that have a value, by strip and slot.
pub open spec fn all_readings(s: StateView) -> Seq<StripView> {
    let keys = in_order(s.values.dom());
    strips_among(keys).map_values(strip_readings(s, keys))
}

/// The strips that occur among `keys`.
fn find_strips(keys: &Vec<ParamKey>) -> (r: Vec<i32>)
    ensures
        r@ == strips_among(keys@),
{
    let ghost all = keys@;
    let mut r: Vec<i32> = Vec::new();
    let mut i: usize = 0;
    assert(all.take(0) =~= Seq::<ParamKey>::empty());
    while i < keys.len()
        invariant
            i <= keys.len(),
            all == keys@,
            r@ == strips_among(all.take(i as int)),
        decreases keys.len() - i,
    {
        let k = keys[i];
        proof {
            assert(all.take(i + 1).drop_last() =~= all.take(i as int));
            assert(all.take(i + 1).last() == k);
        }
        if !is_among(&r, k.ssid) {
            r.push(k.ssid);
        }
        i = i + 1;
    }
    assert(all.take(i as int) =~= all);
    r
}

/// All that is known of the plugin in a slot.
fn read_slot(state: &ArdourState, keys: &Vec<ParamKey>, ssid: i32, slot: i32) -> (r: SlotParameters)
    requires
        state.wf(),
        lists(keys@, state@.values.dom()),
    ensures
        r@ == slot_readings(state@, keys@, ssid)(slot),
{
    let ghost s = state@;
    let ghost f = known_reading(s);
    let mine = select_keys(keys, ssid, slot);
    let mut parameters: Vec<PluginParameter> = Vec::new();
    let mut i: usize = 0;
    assert(parameters_view(parameters@) =~= mine@.take(0).map_values(f));
    assert forall|j: int| 0 <= j < mine@.len() implies s.values.contains_key(
        #[trigger] mine@[j],
    ) by {
        keys@.lemma_filter_contains_rev(belongs(ssid, slot), mine@[j]);
        assert(keys@.contains(mine@[j]));
    }
    while i < mine.len()
        invariant
            i <= mine.len(),
            state.wf(),
            s == state@,
            f == known_reading(s),
            forall|j: int| 0 <= j < mine@.len() ==> s.values.contains_key(#[trigger] mine@[j]),
            parameters_view(parameters@) == mine@.take(i as int).map_values(f),
        decreases mine.len() - i,
    {
        let ghost so_far = parameters@;
        let k = mine[i];
        let value = match state.value(k) {
            Some(v) => v,
            None => {
                assert(false);
                Single { bits: 0 }
            },
        };
        let p = read_parameter(state, k, value);
        parameters.push(p);
        proof {
            assert(p@ == f(k));
            assert(parameters_view(parameters@) =~= parameters_view(so_far).push(p@));
            assert(mine@.take(i + 1).map_values(f) =~= mine@.take(i as int).map_values(f).push(
                f(k),
            ));
        }
        i = i + 1;
    }
    assert(mine@.take(i as int) =~= mine@);
    SlotParameters { slot, parameters }
}

/// All that is known of the plugins on a strip.
fn read_strip(state: &ArdourState, keys: &Vec<ParamKey>, ssid: i32) -> (r: StripParameters)
    requires
        state.wf(),
        lists(keys@, state@.values.dom()),
    ensures
        r@ == strip_readings(state@, keys@)(ssid),
{
    let ghost f = slot_readings(state@, keys@, ssid);
    let ghost g = |p: SlotParameters| p@;
    let slots = find_slots(keys, ssid);
    let mut plugins: Vec<SlotParameters> = Vec::new();
    let mut i: usize = 0;
    assert(plugins@.map_values(g) =~= slots@.take(0).map_values(f));
    while i < slots.len()
        invariant
            i <= slots.len(),
            state.wf(),
            lists(keys@, state@.values.dom()),
            f == slot_readings(state@, keys@, ssid),
            g == (|p: SlotParameters| p@),
            plugins@.map_values(g) == slots@.take(i as int).map_values(f),
        decreases slots.len() - i,
    {
        let ghost so_far = plugins@;
        let p = read_slot(state, keys, ssid, slots[i]);
        plugins.push(p);
        proof {
            assert(plugins@.map_values(g) =~= so_far.map_values(g).push(p@));
            assert(slots@.take(i + 1).map_values(f) =~= slots@.take(i as int).map_values(f).push(
                f(slots@[i as int]),
            ));
        }
        i = i + 1;
    }
    assert(slots@.take(i as int) =~= slots@);
    StripParameters { id: ssid, plugins }
}

/// All parameters that have a value, by strip and slot.
fn read_parameters(state: &ArdourState) -> (r: Vec<StripParameters>)
    requires
        state.wf(),
    ensures
        r@.map_values(|s: StripParameters| s@) == all_readings(state@),
{
    let keys = state.valued();
    let ghost f = strip_readings(state@, keys@);
    let ghost g = |s: StripParameters| s@;
    let strips = find_strips(&keys);
    let mut r: Vec<StripParameters> = Vec::new();
    let mut i: usize = 0;
    assert(r@.map_values(g) =~= strips@.take(0).map_values(f));
    while i < strips.len()
        invariant
            i <= strips.len(),
            state.wf(),
            lists(keys@, state@.values.dom()),
            f == strip_readings(state@, keys@),
            g == (|s: StripParameters| s@),
            r@.map_values(g) == strips@.take(i as int).map_values(f),
        decreases strips.len() - i,
    {
        let ghost so_far = r@;
        let p = read_strip(state, &keys, strips[i]);
        r.push(p);
        proof {
            assert(r@.map_values(g) =~= so_far.map_values(g).push(p@));
            assert(strips@.take(i + 1).map_values(f) =~= strips@.take(i as int).map_values(
                f,
            ).push(f(strips@[i as int])));
        }
        i = i + 1;
    }
    assert(strips@.take(i as int) =~= strips@);
    r
}

/// What stands under a URI.
pub open spec fn resource(s: StateView, uri: Seq<char>) -> Option<ResourceView> {
    if uri == "ardour:/state/playback"@ {
        Some(ResourceView::Text(status_text(s.playback)))
    } else if uri == "ardour:/strip/list"@ {
        Some(ResourceView::Strips(known_strips(s.strips)))
    } else if uri == "ardour:/state/transport_frame"@ {
        Some(ResourceView::Text(frame_text(s.frame)))
    } else if uri == "ardour:/action/list"@ {
        Some(ResourceView::Actions(some_actions()))
    } else if uri == "ardour:/plugin/parameters"@ {
        Some(ResourceView::Parameters(all_readings(s)))
    } else {
        None
    }
}

/// Says that nothing stands under a URI.
pub open spec fn not_found_text(uri: Seq<char>) -> Seq<char> {
    "Resource URI '"@ + uri + "' not found."@
}

/// Reads what stands under a URI, or says that nothing does.
pub fn read_resource(state: &ArdourState, uri: &str) -> (r: Result<ResourceBody, String>)
    requires
        state.wf(),
    ensures
        match resource(state@, uri@) {
            Some(view) => r matches Ok(body) && body@ == view,
            None => r matches Err(text) && text@ == not_found_text(uri@),
        },
{
    if text_is(uri, "ardour:/state/playback") {
        Ok(ResourceBody::Text(describe_status(state.playback_status())))
    } else if text_is(uri, "ardour:/strip/list") {
        Ok(ResourceBody::Strips(state.strips()))
    } else if text_is(uri, "ardour:/state/transport_frame") {
        Ok(ResourceBody::Text(describe_frame(state.transport_frame())))
    } else if text_is(uri, "ardour:/action/list") {
        Ok(ResourceBody::Actions(list_actions()))
    } else if text_is(uri, "ardour:/plugin/parameters") {
        Ok(ResourceBody::Parameters(read_parameters(state)))
    } else {
        let mut t = "Resource URI '".to_owned();
        t.append(uri);
        t.append("' not found.");
        Err(t)
    }
}

} // verus!
