//! What is known of the workstation.

use crate::plugins::{entries_view, EntryView, PluginEntry};
use crate::single::Single;
use crate::table::{in_order, lists, ParamKey, ParamTable};
use std::collections::HashMap;
use vstd::prelude::*;
use vstd::string::*;

verus! {

broadcast use vstd::std_specs::hash::group_hash_axioms;

/// A track or bus.
#[derive(Debug)]
pub struct TrackInfo {
    pub id: i32,
    pub name: String,
    /// Such as "audio", "midi" or "bus".
    pub track_type: String,
}

/// What is known of a track or bus.
pub struct TrackView {
    pub id: i32,
    pub name: Seq<char>,
    pub track_type: Seq<char>,
}

impl View for TrackInfo {
    type V = TrackView;

    open spec fn view(&self) -> TrackView {
        TrackView { id: self.id, name: self.name@, track_type: self.track_type@ }
    }
}

impl Clone for TrackInfo {
    fn clone(&self) -> (r: TrackInfo)
        ensures
            r@ == self@,
    {
        TrackInfo {
            id: self.id,
            name: self.name.clone(),
            track_type: self.track_type.clone(),
        }
    }
}

/// What is known of the tracks of a list.
pub open spec fn tracks_view(list: Seq<TrackInfo>) -> Seq<TrackView> {
    list.map_values(|t: TrackInfo| t@)
}

/// A parameter of a plugin with its value, which is normalized to between 0 and 1.
#[derive(Debug)]
pub struct PluginParameter {
    pub param_id: i32,
    pub name: String,
    pub value: Single,
}

/// What is known of a parameter.
pub struct ParameterView {
    pub param_id: i32,
    pub name: Seq<char>,
    pub value: Single,
}

impl View for PluginParameter {
    type V = ParameterView;

    open spec fn view(&self) -> ParameterView {
        ParameterView { param_id: self.param_id, name: self.name@, value: self.value }
    }
}

impl Clone for PluginParameter {
    fn clone(&self) -> (r: PluginParameter)
        ensures
            r@ == self@,
    {
        PluginParameter { param_id: self.param_id, name: self.name.clone(), value: self.value }
    }
}

/// What is known of the parameters of a list.
pub open spec fn parameters_view(list: Seq<PluginParameter>) -> Seq<ParameterView> {
    list.map_values(|p: PluginParameter| p@)
}

/// A plugin with its parameters, by their numbers.
#[derive(Debug)]
pub struct PluginInfo {
    pub slot: i32,
    pub name: String,
    pub parameters: HashMap<i32, PluginParameter>,
}

impl Clone for PluginInfo {
    fn clone(&self) -> (r: PluginInfo)
        ensures
            r.slot == self.slot,
            r.name@ == self.name@,
            r.parameters@ == self.parameters@,
    {
        PluginInfo {
            slot: self.slot,
            name: self.name.clone(),
            parameters: self.parameters.clone(),
        }
    }
}

/// Whether the transport rolls.
#[derive(Clone, Copy, Debug, PartialEq, Eq, Structural)]
pub enum PlaybackStatus {
    Playing,
    Stopped,
    Unknown,
}

/// What a parameter of a plugin is for, and its number among the input parameters of
/// the plugin, counted from one, once that is known.
#[derive(Clone, Copy, Debug, PartialEq, Eq, Structural)]
pub struct PortInfo {
    pub is_input: bool,
    pub is_output: bool,
    pub visible_index: Option<i32>,
}

/// All that is known of the workstation.
#[verifier::ext_equal]
pub struct StateView {
    pub playback: PlaybackStatus,
    /// The strips by their numbers, the first for strip 1. Where nothing was heard of a
    /// strip, a placeholder stands.
    pub strips: Seq<TrackView>,
    /// The position of the playhead, in samples.
    pub frame: Option<i64>,
    pub values: Map<ParamKey, Single>,
    pub names: Map<ParamKey, Seq<char>>,
    pub selected_strip: Option<i32>,
    pub selected_slot: Option<i32>,
    /// The plugins on each strip.
    pub plugins: Map<i32, Seq<EntryView>>,
    pub ports: Map<ParamKey, PortInfo>,
}

/// Stands for a strip of which nothing was heard.
pub open spec fn placeholder() -> TrackView {
    TrackView { id: 0, name: Seq::empty(), track_type: "unknown"@ }
}

/// `strips` with placeholders behind, so that there are at least `n`.
pub open spec fn padded(strips: Seq<TrackView>, n: nat) -> Seq<TrackView> {
    if strips.len() >= n {
        strips
    } else {
        strips + Seq::new((n - strips.len()) as nat, |i: int| placeholder())
    }
}

/// `strips` after the name of a strip was heard.
pub open spec fn with_name(
    strips: Seq<TrackView>,
    ssid: i32,
    name: Seq<char>,
) -> Seq<TrackView> {
    let all = padded(strips, ssid as nat);
    all.update(ssid - 1, TrackView { id: ssid, name, ..all[ssid - 1] })
}

/// `strips` after the type of a strip was heard, which counts only where its name was
/// heard before.
pub open spec fn with_type(
    strips: Seq<TrackView>,
    ssid: i32,
    track_type: Seq<char>,
) -> Seq<TrackView> {
    if 0 < ssid <= strips.len() && strips[ssid - 1].id == ssid {
        strips.update(ssid - 1, TrackView { track_type, ..strips[ssid - 1] })
    } else {
        strips
    }
}

/// `strips` after both the name and the type of a strip were heard.
pub open spec fn with_strip(
    strips: Seq<TrackView>,
    ssid: i32,
    name: Seq<char>,
    track_type: Seq<char>,
) -> Seq<TrackView> {
    padded(strips, ssid as nat).update(ssid - 1, TrackView { id: ssid, name, track_type })
}

/// Whether each strip stands in the place that its number gives, and only placeholders
/// beside them.
pub open spec fn strips_in_place(strips: Seq<TrackView>) -> bool {
    forall|i: int|
        0 <= i < strips.len() ==> (#[trigger] strips[i]) == placeholder() || strips[i].id == i + 1
}

/// Whether the last place, where there is one, is that of a strip.
pub open spec fn ends_with_a_strip(strips: Seq<TrackView>) -> bool {
    strips.len() > 0 ==> strips.last().id == strips.len()
}

/// The strips that are no placeholders.
pub open spec fn known_strips(strips: Seq<TrackView>) -> Seq<TrackView> {
    strips.filter(|t: TrackView| t.id != 0)
}

/// The input parameters of a plugin with a number lower than `param`.
pub open spec fn inputs_below(
    ports: Map<ParamKey, PortInfo>,
    ssid: i32,
    slot: i32,
    param: int,
) -> Set<ParamKey> {
    ports.dom().filter(
        |k: ParamKey| k.ssid == ssid && k.slot == slot && ports[k].is_input && k.param < param,
    )
}

/// `ports` with the input parameters of a plugin numbered from one, by ascending
/// parameter number.
pub open spec fn numbered(
    ports: Map<ParamKey, PortInfo>,
    ssid: i32,
    slot: i32,
) -> Map<ParamKey, PortInfo> {
    ports.map_entries(
        |k: ParamKey, p: PortInfo|
            if k.ssid == ssid && k.slot == slot && p.is_input {
                PortInfo {
                    visible_index: Some(
                        (inputs_below(ports, ssid, slot, k.param as int).len() + 1) as i32,
                    ),
                    ..p
                }
            } else {
                p
            },
    )
}

impl StateView {
    /// Nothing is known yet.
    pub open spec fn unknown() -> StateView {
        StateView {
            playback: PlaybackStatus::Unknown,
            strips: Seq::empty(),
            frame: None,
            values: Map::empty(),
            names: Map::empty(),
            selected_strip: None,
            selected_slot: None,
            plugins: Map::empty(),
            ports: Map::empty(),
        }
    }

    /// What holds of all that is known: a strip stands in the place that its number
    /// gives, in all other places placeholders stand but for the last one, a plugin is
    /// selected only where a strip is, only input parameters are numbered, and there are
    /// finitely many parameters.
    pub open spec fn coherent(self) -> bool {
        &&& strips_in_place(self.strips)
        &&& ends_with_a_strip(self.strips)
        &&& self.selected_slot is Some ==> self.selected_strip is Some
        &&& forall|k: ParamKey| #[trigger]
            self.ports.contains_key(k) && self.ports[k].visible_index is Some
                ==> self.ports[k].is_input
        &&& self.values.dom().finite()
        &&& self.names.dom().finite()
        &&& self.ports.dom().finite()
    }
}

/// What is known of the workstation.
#[derive(Debug)]
pub struct ArdourState {
    playback_status: PlaybackStatus,
    strip_list: Vec<TrackInfo>,
    transport_frame: Option<i64>,
    plugin_parameters: ParamTable<Single>,
    plugin_parameter_names: ParamTable<String>,
    selected_strip: Option<i32>,
    selected_plugin_slot: Option<i32>,
    plugin_lists: HashMap<i32, Vec<PluginEntry>>,
    parameter_mapping: ParamTable<PortInfo>,
}

impl View for ArdourState {
    type V = StateView;

    closed spec fn view(&self) -> StateView {
        StateView {
            playback: self.playback_status,
            strips: tracks_view(self.strip_list@),
            frame: self.transport_frame,
            values: self.plugin_parameters@,
            names: self.plugin_parameter_names@.map_values(|n: String| n@),
            selected_strip: self.selected_strip,
            selected_slot: self.selected_plugin_slot,
            plugins: self.plugin_lists@.map_values(|l: Vec<PluginEntry>| entries_view(l@)),
            ports: self.parameter_mapping@,
        }
    }
}

/// Adds placeholders, so that there are at least `n` strips.
fn pad(list: &mut Vec<TrackInfo>, n: usize)
    ensures
        tracks_view(final(list)@) == padded(tracks_view(old(list)@), n as nat),
{
    let ghost before = tracks_view(list@);
    assert(before =~= padded(before, list@.len()));
    while list.len() < n
        invariant
            list@.len() >= before.len(),
            list@.len() <= n || list@.len() == before.len(),
            tracks_view(list@) == padded(before, list@.len()),
        decreases n - list.len(),
    {
        let ghost so_far = list@;
        let track = TrackInfo { id: 0, name: String::new(), track_type: "unknown".to_owned() };
        assert(track@ == placeholder());
        list.push(track);
        assert(tracks_view(list@) =~= tracks_view(so_far).push(placeholder()));
        assert(tracks_view(list@) =~= padded(before, list@.len()));
    }
    assert(tracks_view(list@) =~= padded(before, n as nat));
}

impl ArdourState {
    /// Its tables are in order and what it says is coherent.
    pub closed spec fn wf(self) -> bool {
        &&& self.plugin_parameters.wf()
        &&& self.plugin_parameter_names.wf()
        &&& self.parameter_mapping.wf()
        &&& self@.coherent()
    }

    /// What a state says is coherent.
    pub proof fn lemma_coherent(self)
        requires
            self.wf(),
        ensures
            self@.coherent(),
    {
    }

    /// Nothing is known yet.
    pub fn new() -> (r: ArdourState)
        ensures
            r.wf(),
            r@ == StateView::unknown(),
    {
        let r = ArdourState {
            playback_status: PlaybackStatus::Unknown,
            strip_list: Vec::new(),
            transport_frame: None,
            plugin_parameters: ParamTable::new(),
            plugin_parameter_names: ParamTable::new(),
            selected_strip: None,
            selected_plugin_slot: None,
            plugin_lists: HashMap::new(),
            parameter_mapping: ParamTable::new(),
        };
        assert(r@ =~= StateView::unknown());
        r
    }

    /// Whether the transport rolls.
    pub fn playback_status(&self) -> (r: PlaybackStatus)
        ensures
            r == self@.playback,
    {
        self.playback_status
    }

    /// The position of the playhead.
    pub fn transport_frame(&self) -> (r: Option<i64>)
        ensures
            r == self@.frame,
    {
        self.transport_frame
    }

    /// The selected strip.
    pub fn selected_strip(&self) -> (r: Option<i32>)
        ensures
            r == self@.selected_strip,
    {
        self.selected_strip
    }

    /// The slot of the selected plugin.
    pub fn selected_plugin_slot(&self) -> (r: Option<i32>)
        ensures
            r == self@.selected_slot,
    {
        self.selected_plugin_slot
    }

    /// The strips that are no placeholders.
    pub fn strips(&self) -> (r: Vec<TrackInfo>)
        ensures
            tracks_view(r@) == known_strips(self@.strips),
    {
        let ghost all = self@.strips;
        let ghost known = |t: TrackView| t.id != 0;
        let mut r: Vec<TrackInfo> = Vec::new();
        let mut i: usize = 0;
        proof {
            reveal(Seq::filter);
            assert(all.take(0).filter(known) =~= Seq::empty());
            assert(tracks_view(r@) =~= Seq::empty());
        }
        while i < self.strip_list.len()
            invariant
                i <= self.strip_list.len(),
                all == tracks_view(self.strip_list@),
                known == (|t: TrackView| t.id != 0),
                tracks_view(r@) == all.take(i as int).filter(known),
            decreases self.strip_list.len() - i,
        {
            let ghost before = r@;
            let ghost head = all.take(i + 1);
            if self.strip_list[i].id != 0 {
                r.push(self.strip_list[i].clone());
            }
            proof {
                reveal(Seq::filter);
                assert(head.drop_last() =~= all.take(i as int));
                assert(head.last() == self.strip_list@[i as int]@);
                assert(tracks_view(before.push(r@.last())) =~= tracks_view(before).push(
                    r@.last()@,
                ));
            }
            i = i + 1;
        }
        assert(all.take(i as int) =~= all);
        r
    }

    /// How many strips are no placeholders.
    pub fn strip_count(&self) -> (r: usize)
        ensures
            r == known_strips(self@.strips).len(),
    {
        let list = self.strips();
        assert(tracks_view(list@).len() == list@.len());
        list.len()
    }

    /// The plugins on a strip, where they are known.
    pub fn plugins_on(&self, ssid: i32) -> (r: Option<&Vec<PluginEntry>>)
        ensures
            match r {
                Some(list) => self@.plugins.contains_key(ssid) && entries_view(list@)
                    == self@.plugins[ssid],
                None => !self@.plugins.contains_key(ssid),
            },
    {
        self.plugin_lists.get(&ssid)
    }

    /// The parameters that have a value, in their order.
    pub fn valued(&self) -> (r: Vec<ParamKey>)
        requires
            self.wf(),
        ensures
            r@ == in_order(self@.values.dom()),
            lists(r@, self@.values.dom()),
    {
        self.plugin_parameters.keys()
    }

    /// The parameters that have a name, in their order.
    pub fn named(&self) -> (r: Vec<ParamKey>)
        requires
            self.wf(),
        ensures
            r@ == in_order(self@.names.dom()),
            lists(r@, self@.names.dom()),
    {
        assert(self@.names.dom() =~= self.plugin_parameter_names@.dom());
        self.plugin_parameter_names.keys()
    }

    /// The parameters of which it is known what they are for, in their order.
    pub fn described(&self) -> (r: Vec<ParamKey>)
        requires
            self.wf(),
        ensures
            r@ == in_order(self@.ports.dom()),
            lists(r@, self@.ports.dom()),
    {
        self.parameter_mapping.keys()
    }

    /// The value of a parameter.
    pub fn value(&self, k: ParamKey) -> (r: Option<Single>)
        requires
            self.wf(),
        ensures
            r == if self@.values.contains_key(k) {
                Some(self@.values[k])
            } else {
                None
            },
    {
        match self.plugin_parameters.get(k) {
            Some(v) => Some(*v),
            None => None,
        }
    }

    /// The name of a parameter.
    pub fn name(&self, k: ParamKey) -> (r: Option<String>)
        requires
            self.wf(),
        ensures
            match r {
                Some(n) => self@.names.contains_key(k) && n@ == self@.names[k],
                None => !self@.names.contains_key(k),
            },
    {
        match self.plugin_parameter_names.get(k) {
            Some(n) => Some(n.clone()),
            None => None,
        }
    }

    /// What a parameter is for.
    pub fn port(&self, k: ParamKey) -> (r: Option<PortInfo>)
        requires
            self.wf(),
        ensures
            r == if self@.ports.contains_key(k) {
                Some(self@.ports[k])
            } else {
                None
            },
    {
        match self.parameter_mapping.get(k) {
            Some(p) => Some(*p),
            None => None,
        }
    }

    /// Takes note of whether the transport rolls.
    pub fn set_playback(&mut self, status: PlaybackStatus)
        requires
            old(self).wf(),
        ensures
            final(self).wf(),
            final(self)@ == (StateView { playback: status, ..old(self)@ }),
    {
        self.playback_status = status;
    }

    /// Takes note of the position of the playhead.
    pub fn set_frame(&mut self, frame: i64)
        requires
            old(self).wf(),
        ensures
            final(self).wf(),
            final(self)@ == (StateView { frame: Some(frame), ..old(self)@ }),
    {
        self.transport_frame = Some(frame);
    }

    /// Selects a strip, and no plugin on it.
    pub fn select_strip(&mut self, ssid: i32)
        requires
            old(self).wf(),
        ensures
            final(self).wf(),
            final(self)@ == (StateView {
                selected_strip: Some(ssid),
                selected_slot: None,
                ..old(self)@
            }),
    {
        self.selected_strip = Some(ssid);
        self.selected_plugin_slot = None;
    }

    /// Selects a plugin on a strip.
    pub fn select_plugin(&mut self, ssid: i32, slot: i32)
        requires
            old(self).wf(),
        ensures
            final(self).wf(),
            final(self)@ == (StateView {
                selected_strip: Some(ssid),
                selected_slot: Some(slot),
                ..old(self)@
            }),
    {
        self.selected_strip = Some(ssid);
        self.selected_plugin_slot = Some(slot);
    }

    /// Gives a parameter a value.
    pub fn set_value(&mut self, k: ParamKey, v: Single)
        requires
            old(self).wf(),
        ensures
            final(self).wf(),
            final(self)@ == (StateView { values: old(self)@.values.insert(k, v), ..old(self)@ }),
    {
        self.plugin_parameters.insert(k, v);
    }

    /// Gives a parameter a name.
    pub fn set_name(&mut self, k: ParamKey, name: String)
        requires
            old(self).wf(),
        ensures
            final(self).wf(),
            final(self)@ == (StateView {
                names: old(self)@.names.insert(k, name@),
                ..old(self)@
            }),
    {
        let ghost before = self.plugin_parameter_names@;
        self.plugin_parameter_names.insert(k, name);
        assert(before.insert(k, name).map_values(|n: String| n@) =~= before.map_values(
            |n: String| n@,
        ).insert(k, name@));
    }

    /// Takes note of what a parameter is for; its number among the inputs is not known
    /// yet.
    pub fn set_port(&mut self, k: ParamKey, is_input: bool, is_output: bool)
        requires
            old(self).wf(),
        ensures
            final(self).wf(),
            final(self)@ == (StateView {
                ports: old(self)@.ports.insert(
                    k,
                    PortInfo { is_input, is_output, visible_index: None },
                ),
                ..old(self)@
            }),
    {
        let port = PortInfo { is_input, is_output, visible_index: None };
        self.parameter_mapping.insert(k, port);
    }

    /// Takes note of the plugins on a strip.
    pub fn set_plugins(&mut self, ssid: i32, list: Vec<PluginEntry>)
        requires
            old(self).wf(),
        ensures
            final(self).wf(),
            final(self)@ == (StateView {
                plugins: old(self)@.plugins.insert(ssid, entries_view(list@)),
                ..old(self)@
            }),
    {
        let ghost before = self.plugin_lists@;
        self.plugin_lists.insert(ssid, list);
        assert(before.insert(ssid, list).map_values(|l: Vec<PluginEntry>| entries_view(l@))
            =~= before.map_values(|l: Vec<PluginEntry>| entries_view(l@)).insert(
            ssid,
            entries_view(list@),
        ));
    }

    /// Takes note of the name of a strip.
    pub fn name_strip(&mut self, ssid: i32, name: String)
        requires
            old(self).wf(),
            ssid > 0,
        ensures
            final(self).wf(),
            final(self)@ == (StateView {
                strips: with_name(old(self)@.strips, ssid, name@),
                ..old(self)@
            }),
    {
        let at: usize = (ssid - 1) as usize;
        pad(&mut self.strip_list, at + 1);
        let ghost all = self@.strips;
        assert(all.len() == self.strip_list@.len());
        assert(all == padded(old(self)@.strips, (at + 1) as nat));
        let track = TrackInfo {
            id: ssid,
            name,
            track_type: self.strip_list[at].track_type.clone(),
        };
        assert(all[at as int] == self.strip_list@[at as int]@);
        self.strip_list.set(at, track);
        assert(self@.strips =~= all.update(at as int, track@));
    }

    /// Takes note of the type of a strip whose name is known.
    pub fn type_strip(&mut self, ssid: i32, track_type: String)
        requires
            old(self).wf(),
            ssid > 0,
        ensures
            final(self).wf(),
            final(self)@ == (StateView {
                strips: with_type(old(self)@.strips, ssid, track_type@),
                ..old(self)@
            }),
    {
        let at: usize = (ssid - 1) as usize;
        let ghost all = self@.strips;
        if at < self.strip_list.len() {
            assert(all[at as int] == self.strip_list@[at as int]@);
            if self.strip_list[at].id == ssid {
                let track = TrackInfo {
                    id: ssid,
                    name: self.strip_list[at].name.clone(),
                    track_type,
                };
                self.strip_list.set(at, track);
                assert(self@.strips =~= all.update(at as int, track@));
            }
        }
    }

    /// Forgets all strips.
    pub fn clear_strips(&mut self)
        requires
            old(self).wf(),
        ensures
            final(self).wf(),
            final(self)@ == (StateView { strips: Seq::empty(), ..old(self)@ }),
    {
        self.strip_list.clear();
        assert(self@.strips =~= Seq::<TrackView>::empty());
    }

    /// Takes note of the name and the type of a strip.
    pub fn file_strip(&mut self, ssid: i32, name: String, track_type: String)
        requires
            old(self).wf(),
            ssid > 0,
        ensures
            final(self).wf(),
            final(self)@ == (StateView {
                strips: with_strip(old(self)@.strips, ssid, name@, track_type@),
                ..old(self)@
            }),
    {
        let at: usize = (ssid - 1) as usize;
        pad(&mut self.strip_list, at + 1);
        let ghost all = self@.strips;
        assert(all.len() == self.strip_list@.len());
        assert(all == padded(old(self)@.strips, (at + 1) as nat));
        let track = TrackInfo { id: ssid, name, track_type };
        self.strip_list.set(at, track);
        assert(self@.strips =~= all.update(at as int, track@));
    }

    /// Numbers the input parameters of a plugin from one, by ascending parameter number.
    pub fn number_inputs(&mut self, ssid: i32, slot: i32)
        requires
            old(self).wf(),
        ensures
            final(self).wf(),
            final(self)@ == (StateView {
                ports: numbered(old(self)@.ports, ssid, slot),
                ..old(self)@
            }),
    {
        let ghost before = *self;
        let ghost ports = self.parameter_mapping@;
        let ghost goal = numbered(ports, ssid, slot);
        let keys = self.parameter_mapping.keys();
        let mut count: usize = 0;
        let mut i: usize = 0;
        let ghost mut seen = Set::<ParamKey>::empty();
        while i < keys.len()
            invariant
                i <= keys.len(),
                count <= i,
                self.parameter_mapping.wf(),
                before.wf(),
                self.playback_status == before.playback_status,
                self.strip_list == before.strip_list,
                self.transport_frame == before.transport_frame,
                self.plugin_parameters == before.plugin_parameters,
                self.plugin_parameter_names == before.plugin_parameter_names,
                self.selected_strip == before.selected_strip,
                self.selected_plugin_slot == before.selected_plugin_slot,
                self.plugin_lists == before.plugin_lists,
                ports == before.parameter_mapping@,
                goal == numbered(ports, ssid, slot),
                lists(keys@, ports.dom()),
                self.parameter_mapping@.dom() =~= ports.dom(),
                seen.finite(),
                count == seen.len(),
                forall|k: ParamKey| #[trigger]
                    seen.contains(k) <==> (exists|j: int| 0 <= j < i && #[trigger] keys@[j] == k)
                        && k.ssid == ssid && k.slot == slot && ports[k].is_input,
                forall|j: int|
                    0 <= j < i ==> self.parameter_mapping@[#[trigger] keys@[j]] == goal[keys@[j]],
                forall|j: int|
                    i <= j < keys@.len() ==> self.parameter_mapping@[#[trigger] keys@[j]]
                        == ports[keys@[j]],
            decreases keys.len() - i,
        {
            let k = keys[i];
            let ghost now = self.parameter_mapping@;
            assert(keys@.contains(k));
            assert(now[k] == ports[k]);
            let port: PortInfo = match self.parameter_mapping.get(k) {
                Some(p) => *p,
                None => {
                    assert(false);
                    PortInfo { is_input: false, is_output: false, visible_index: None }
                },
            };
            if k.ssid == ssid && k.slot == slot && port.is_input {
                proof {
                    let below = inputs_below(ports, ssid, slot, k.param as int);
                    assert forall|x: ParamKey| seen.contains(x) <==> below.contains(x) by {
                        if seen.contains(x) {
                            let j = choose|j: int| 0 <= j < i && #[trigger] keys@[j] == x;
                            assert(keys@[j].precedes(keys@[i as int]));
                            assert(keys@.contains(x));
                        }
                        if below.contains(x) {
                            assert(keys@.contains(x));
                            let j = choose|j: int| 0 <= j < keys@.len() && keys@[j] == x;
                            if j > i {
                                assert(keys@[i as int].precedes(keys@[j]));
                            }
                        }
                    }
                    assert(seen =~= below);
                }
                let numbered_port = PortInfo {
                    is_input: port.is_input,
                    is_output: port.is_output,
                    visible_index: Some((count + 1) as i32),
                };
                assert(numbered_port == goal[k]);
                self.parameter_mapping.insert(k, numbered_port);
                count = count + 1;
                proof {
                    if seen.contains(k) {
                        let j = choose|j: int| 0 <= j < i && #[trigger] keys@[j] == k;
                        assert(keys@[j].precedes(keys@[i as int]));
                    }
                    seen = seen.insert(k);
                }
            } else {
                assert(goal[k] == ports[k]);
            }
            proof {
                assert forall|j: int| 0 <= j < keys@.len() && j != i implies #[trigger] keys@[j]
                    != k by {
                    if j < i {
                        assert(keys@[j].precedes(keys@[i as int]));
                    } else {
                        assert(keys@[i as int].precedes(keys@[j]));
                    }
                }
            }
            i = i + 1;
        }
        proof {
            let after = self.parameter_mapping@;
            assert forall|k: ParamKey|
                #![trigger after.dom().contains(k)]
                #![trigger after[k]]
                after.dom().contains(k) implies after[k] == goal[k] by {
                assert(keys@.contains(k));
            }
            assert(after =~= goal);
            assert(self@.ports == goal);
        }
    }
}

/// The input parameters of a plugin.
pub open spec fn inputs_of(ports: Map<ParamKey, PortInfo>, ssid: i32, slot: i32) -> Set<ParamKey> {
    ports.dom().filter(|k: ParamKey| k.ssid == ssid && k.slot == slot && ports[k].is_input)
}

/// The input parameters of a plugin are numbered in the order of their parameter numbers,
/// from one to how many there are.
pub proof fn lemma_inputs_numbered(
    ports: Map<ParamKey, PortInfo>,
    ssid: i32,
    slot: i32,
    a: ParamKey,
    b: ParamKey,
)
    requires
        ports.dom().finite(),
        inputs_of(ports, ssid, slot).len() <= i32::MAX,
        inputs_of(ports, ssid, slot).contains(a),
        inputs_of(ports, ssid, slot).contains(b),
        a.param < b.param,
    ensures
        ({
            let first = numbered(ports, ssid, slot)[a].visible_index;
            let second = numbered(ports, ssid, slot)[b].visible_index;
            first is Some && second is Some && 1 <= first->0 < second->0 <= inputs_of(
                ports,
                ssid,
                slot,
            ).len()
        }),
{
    let all = inputs_of(ports, ssid, slot);
    let below_a = inputs_below(ports, ssid, slot, a.param as int);
    let below_b = inputs_below(ports, ssid, slot, b.param as int);
    assert(below_a.insert(a).subset_of(below_b));
    assert(below_b.insert(b).subset_of(all));
    vstd::set_lib::lemma_len_subset(below_a.insert(a), below_b);
    vstd::set_lib::lemma_len_subset(below_b.insert(b), all);
}

/// Numbering the inputs of a plugin changes nothing else.
pub proof fn lemma_numbering_keeps(
    ports: Map<ParamKey, PortInfo>,
    ssid: i32,
    slot: i32,
    k: ParamKey,
)
    requires
        ports.contains_key(k),
    ensures
        numbered(ports, ssid, slot).contains_key(k),
        numbered(ports, ssid, slot)[k].is_input == ports[k].is_input,
        numbered(ports, ssid, slot)[k].is_output == ports[k].is_output,
        !inputs_of(ports, ssid, slot).contains(k) ==> numbered(ports, ssid, slot)[k] == ports[k],
{
}

/// A strip whose name was heard is shown, under its number and that name; where it was
/// known before, its type stays.
pub proof fn lemma_named_strip_is_shown(strips: Seq<TrackView>, ssid: i32, name: Seq<char>)
    requires
        ssid > 0,
    ensures
        exists|t: TrackView|
            #[trigger] known_strips(with_name(strips, ssid, name)).contains(t) && t.id == ssid
                && t.name == name && (ssid <= strips.len() ==> t.track_type == strips[ssid
                - 1].track_type),
{
    let all = with_name(strips, ssid, name);
    let t = all[ssid - 1];
    all.lemma_filter_contains(|t: TrackView| t.id != 0, ssid - 1);
    assert(known_strips(all).contains(t));
}

/// No placeholder is shown, and where strips stand in their places, no number is shown
/// twice.
pub proof fn lemma_shown_strips(s: StateView, i: int, j: int)
    requires
        s.coherent(),
        0 <= i < j < known_strips(s.strips).len(),
    ensures
        0 < known_strips(s.strips)[i].id < known_strips(s.strips)[j].id,
{
    lemma_shown_in_order(s.strips, i, j);
}

/// Strips that are shown stand in the order of their numbers.
proof fn lemma_shown_in_order(strips: Seq<TrackView>, i: int, j: int)
    requires
        strips_in_place(strips),
        0 <= i < j < known_strips(strips).len(),
    ensures
        0 < known_strips(strips)[i].id < known_strips(strips)[j].id <= strips.len(),
    decreases strips.len(),
{
    reveal(Seq::filter);
    let known = |t: TrackView| t.id != 0;
    let head = strips.drop_last();
    assert forall|n: int| 0 <= n < head.len() implies (#[trigger] head[n]) == placeholder()
        || head[n].id == n + 1 by {
        assert(head[n] == strips[n]);
    }
    let shown = known_strips(head);
    assert(strips[strips.len() - 1] == placeholder() || strips[strips.len() - 1].id
        == strips.len());
    if j < shown.len() {
        lemma_shown_in_order(head, i, j);
    } else {
        lemma_shown_bounds(head, i);
    }
}

/// The number of a strip that is shown is not higher than its place allows.
proof fn lemma_shown_bounds(strips: Seq<TrackView>, i: int)
    requires
        strips_in_place(strips),
        0 <= i < known_strips(strips).len(),
    ensures
        0 < known_strips(strips)[i].id <= strips.len(),
    decreases strips.len(),
{
    reveal(Seq::filter);
    let head = strips.drop_last();
    assert forall|n: int| 0 <= n < head.len() implies (#[trigger] head[n]) == placeholder()
        || head[n].id == n + 1 by {
        assert(head[n] == strips[n]);
    }
    assert(strips[strips.len() - 1] == placeholder() || strips[strips.len() - 1].id
        == strips.len());
    if i < known_strips(head).len() {
        lemma_shown_bounds(head, i);
    }
}

} // verus!
