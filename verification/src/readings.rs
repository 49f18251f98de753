//! What is known of parameters, as tools and resources show it.

use crate::order::{
    ascends, lemma_filter_keeps_pairs, lemma_filter_push, lemma_ordered, lemma_ordered_already, lemma_ordered_maps,
    ordered, put_in_order, Keyed,
};
use crate::plugins::{entries_view, EntryView};
use crate::reply::{listed_plugins_view, ListedPlugin, ListedPluginView};
use crate::single::Single;
use crate::slots::{after, one_more};
use crate::state::{parameters_view, ArdourState, ParameterView, PluginParameter, StateView};
use crate::table::{in_order, lemma_in_order, lists, ParamKey};
use crate::text::{decimal, decimal_text};
use vstd::prelude::*;
use vstd::string::*;

verus! {

/// The highest number of a parameter that a batch of values is matched with.
pub const MAX_PARAMETERS: i32 = 200;

/// The name that a parameter goes by where it has none.
pub open spec fn numbered_name(param: i32) -> Seq<char> {
    "param_"@ + decimal_text(param as int)
}

/// The name of a parameter.
pub open spec fn name_of(s: StateView, k: ParamKey) -> Seq<char> {
    if s.names.contains_key(k) {
        s.names[k]
    } else {
        numbered_name(k.param)
    }
}

/// A parameter with its name and a value.
pub open spec fn reading(s: StateView, k: ParamKey, value: Single) -> ParameterView {
    ParameterView { param_id: k.param, name: name_of(s, k), value }
}

/// The name that a parameter goes by where it has none.
fn number_name(param: i32) -> (r: String)
    ensures
        r@ == numbered_name(param),
{
    let mut t = "param_".to_owned();
    t.append(decimal(param as i64).as_str());
    t
}

/// A parameter with its name and a value.
pub fn read_parameter(state: &ArdourState, k: ParamKey, value: Single) -> (r: PluginParameter)
    requires
        state.wf(),
    ensures
        r@ == reading(state@, k, value),
{
    let name = match state.name(k) {
        Some(n) => n,
        None => number_name(k.param),
    };
    PluginParameter { param_id: k.param, name, value }
}

/// Whether a parameter is a control, that is, an input or an output.
pub open spec fn is_control(s: StateView, k: ParamKey) -> bool {
    s.ports.contains_key(k) && (s.ports[k].is_input || s.ports[k].is_output)
}

/// The controls among the first `n` parameters of a plugin.
pub open spec fn controls_among(s: StateView, ssid: i32, slot: i32, n: nat) -> Seq<i32>
    decreases n,
{
    if n == 0 {
        Seq::empty()
    } else {
        let head = controls_among(s, ssid, slot, (n - 1) as nat);
        if is_control(s, ParamKey { ssid, slot, param: n as i32 }) {
            head.push(n as i32)
        } else {
            head
        }
    }
}

/// The controls of a plugin, in order.
pub open spec fn controls(s: StateView, ssid: i32, slot: i32) -> Seq<i32> {
    controls_among(s, ssid, slot, MAX_PARAMETERS as nat)
}

/// A batch holds the values of the controls in order: what it says of each of them.
pub open spec fn batch_readings(
    s: StateView,
    ssid: i32,
    slot: i32,
    values: Seq<Single>,
) -> Seq<ParameterView> {
    let ids = controls(s, ssid, slot);
    Seq::new(
        values.len(),
        |i: int| reading(s, ParamKey { ssid, slot, param: ids[i] }, values[i]),
    )
}

/// What a batch says of the controls of a plugin, where there is a control for each of
/// its values.
pub open spec fn matched_batch(
    s: StateView,
    ssid: i32,
    slot: i32,
    values: Seq<Single>,
) -> Option<Seq<ParameterView>> {
    if controls(s, ssid, slot).len() >= values.len() {
        Some(batch_readings(s, ssid, slot, values))
    } else {
        None
    }
}

/// Whether a parameter is among `ids`.
pub open spec fn among(ids: Seq<i32>) -> spec_fn(ParameterView) -> bool {
    |p: ParameterView| ids.contains(p.param_id)
}

/// What a batch says of the parameters in `outputs`, where there is a control for each
/// of its values and all of `outputs` are among them.
pub open spec fn matched_outputs(
    s: StateView,
    ssid: i32,
    slot: i32,
    outputs: Seq<i32>,
    values: Seq<Single>,
) -> Option<Seq<ParameterView>> {
    match matched_batch(s, ssid, slot, values) {
        Some(all) => if all.filter(among(outputs)).len() == outputs.len() {
            Some(all.filter(among(outputs)))
        } else {
            None
        },
        None => None,
    }
}

/// The controls of a plugin, in order.
fn find_controls(state: &ArdourState, ssid: i32, slot: i32) -> (r: Vec<i32>)
    requires
        state.wf(),
    ensures
        r@ == controls(state@, ssid, slot),
{
    let mut r: Vec<i32> = Vec::new();
    let mut n: i32 = 0;
    while n < MAX_PARAMETERS
        invariant
            0 <= n <= MAX_PARAMETERS,
            state.wf(),
            r@ == controls_among(state@, ssid, slot, n as nat),
        decreases MAX_PARAMETERS - n,
    {
        n = n + 1;
        match state.port(ParamKey { ssid, slot, param: n }) {
            Some(p) => {
                if p.is_input || p.is_output {
                    r.push(n);
                }
            },
            None => {},
        }
    }
    r
}

/// What a batch says of the controls of a plugin, where there is a control for each of
/// its values.
pub fn match_batch(state: &ArdourState, ssid: i32, slot: i32, values: &Vec<Single>) -> (r: Option<
    Vec<PluginParameter>,
>)
    requires
        state.wf(),
    ensures
        match r {
            Some(list) => matched_batch(state@, ssid, slot, values@) == Some(
                parameters_view(list@),
            ),
            None => matched_batch(state@, ssid, slot, values@) is None,
        },
{
    let ids = find_controls(state, ssid, slot);
    if ids.len() < values.len() {
        return None;
    }
    let ghost goal = batch_readings(state@, ssid, slot, values@);
    let mut r: Vec<PluginParameter> = Vec::new();
    let mut i: usize = 0;
    assert(parameters_view(r@) =~= goal.take(0));
    while i < values.len()
        invariant
            i <= values.len() <= ids.len(),
            state.wf(),
            ids@ == controls(state@, ssid, slot),
            goal == batch_readings(state@, ssid, slot, values@),
            parameters_view(r@) == goal.take(i as int),
        decreases values.len() - i,
    {
        let ghost so_far = r@;
        let p = read_parameter(state, ParamKey { ssid, slot, param: ids[i] }, values[i]);
        r.push(p);
        assert(parameters_view(r@) =~= parameters_view(so_far).push(p@));
        assert(goal.take(i + 1) =~= goal.take(i as int).push(goal[i as int]));
        i = i + 1;
    }
    assert(goal.take(i as int) =~= goal);
    Some(r)
}

/// Whether `n` is among `list`.
pub fn is_among(list: &Vec<i32>, n: i32) -> (r: bool)
    ensures
        r == list@.contains(n),
{
    let mut i: usize = 0;
    while i < list.len()
        invariant
            i <= list.len(),
            forall|j: int| 0 <= j < i ==> list@[j] != n,
        decreases list.len() - i,
    {
        if list[i] == n {
            return true;
        }
        i = i + 1;
    }
    false
}

/// What a batch says of the parameters in `outputs`, where it says something of all of
/// them.
pub fn match_outputs(
    state: &ArdourState,
    ssid: i32,
    slot: i32,
    outputs: &Vec<i32>,
    values: &Vec<Single>,
) -> (r: Option<Vec<PluginParameter>>)
    requires
        state.wf(),
    ensures
        match r {
            Some(list) => matched_outputs(state@, ssid, slot, outputs@, values@) == Some(
                parameters_view(list@),
            ),
            None => matched_outputs(state@, ssid, slot, outputs@, values@) is None,
        },
{
    let all = match match_batch(state, ssid, slot, values) {
        Some(list) => list,
        None => {
            return None;
        },
    };
    let ghost view = parameters_view(all@);
    let ghost wanted = among(outputs@);
    let mut r: Vec<PluginParameter> = Vec::new();
    let mut i: usize = 0;
    proof {
        reveal(Seq::filter);
        assert(view.take(0).filter(wanted) =~= Seq::empty());
        assert(parameters_view(r@) =~= Seq::empty());
    }
    while i < all.len()
        invariant
            i <= all.len(),
            view == parameters_view(all@),
            wanted == among(outputs@),
            parameters_view(r@) == view.take(i as int).filter(wanted),
        decreases all.len() - i,
    {
        let ghost so_far = r@;
        let p = all[i].clone();
        proof {
            lemma_filter_push(view.take(i as int), view[i as int], wanted);
            assert(view.take(i + 1) =~= view.take(i as int).push(view[i as int]));
            assert(parameters_view(so_far.push(p)) =~= parameters_view(so_far).push(p@));
        }
        if is_among(outputs, all[i].param_id) {
            r.push(p);
        }
        i = i + 1;
    }
    assert(view.take(i as int) =~= view);
    assert(parameters_view(r@).len() == r@.len());
    if r.len() == outputs.len() {
        Some(r)
    } else {
        None
    }
}

/// Whether a parameter belongs to a plugin and is an output.
pub open spec fn is_output_of(s: StateView, ssid: i32, slot: i32) -> spec_fn(ParamKey) -> bool {
    |k: ParamKey| k.ssid == ssid && k.slot == slot && s.ports[k].is_output
}

/// The outputs of a plugin, in order.
pub open spec fn outputs_of(s: StateView, ssid: i32, slot: i32) -> Seq<i32> {
    in_order(s.ports.dom()).filter(is_output_of(s, ssid, slot)).map_values(|k: ParamKey| k.param)
}

/// The outputs of a plugin, in order.
pub fn find_outputs(state: &ArdourState, ssid: i32, slot: i32) -> (r: Vec<i32>)
    requires
        state.wf(),
    ensures
        r@ == outputs_of(state@, ssid, slot),
{
    let keys = state.described();
    let ghost all = keys@;
    let ghost wanted = is_output_of(state@, ssid, slot);
    let mut r: Vec<i32> = Vec::new();
    let mut i: usize = 0;
    proof {
        reveal(Seq::filter);
        assert(all.take(0).filter(wanted) =~= Seq::empty());
        assert(r@ =~= all.take(0).filter(wanted).map_values(|k: ParamKey| k.param));
    }
    while i < keys.len()
        invariant
            i <= keys.len(),
            state.wf(),
            all == keys@,
            lists(all, state@.ports.dom()),
            wanted == is_output_of(state@, ssid, slot),
            r@ == all.take(i as int).filter(wanted).map_values(|k: ParamKey| k.param),
        decreases keys.len() - i,
    {
        let k = keys[i];
        let ghost so_far = all.take(i as int).filter(wanted);
        proof {
            lemma_filter_push(all.take(i as int), k, wanted);
            assert(all.take(i + 1) =~= all.take(i as int).push(k));
            assert(so_far.push(k).map_values(|k: ParamKey| k.param) =~= so_far.map_values(
                |k: ParamKey| k.param,
            ).push(k.param));
            assert(all.contains(k));
        }
        match state.port(k) {
            Some(p) => {
                if k.ssid == ssid && k.slot == slot && p.is_output {
                    r.push(k.param);
                }
            },
            None => {
                assert(false);
            },
        }
        i = i + 1;
    }
    assert(all.take(i as int) =~= all);
    r
}

/// Whether a parameter belongs to a strip, and to the plugin in `slot` or to the
/// selected one.
pub open spec fn is_shown(s: StateView, ssid: i32, slot: i32) -> spec_fn(ParamKey) -> bool {
    |k: ParamKey| k.ssid == ssid && (k.slot == slot || s.selected_slot == Some(k.slot))
}

/// A parameter as it is shown for the plugin in `slot`: its name may also stand under
/// that slot.
pub open spec fn shown(s: StateView, slot: i32) -> spec_fn(ParamKey) -> ParameterView {
    |k: ParamKey|
        ParameterView {
            param_id: k.param,
            name: if s.names.contains_key(k) {
                s.names[k]
            } else {
                name_of(s, ParamKey { slot, ..k })
            },
            value: s.values[k],
        }
}

/// All that is known of the parameters of a plugin, by ascending number.
pub open spec fn known_parameters(s: StateView, ssid: i32, slot: i32) -> Seq<ParameterView> {
    ordered(
        in_order(s.values.dom()).filter(is_shown(s, ssid, slot)).map_values(shown(s, slot)),
        |p: ParameterView| p.param_id as int,
    )
}

impl Keyed for PluginParameter {
    open spec fn key(&self) -> int {
        self.param_id as int
    }

    fn number(&self) -> (r: i32) {
        self.param_id
    }
}

/// All that is known of the parameters of a plugin, by ascending number.
pub fn find_parameters(state: &ArdourState, ssid: i32, slot: i32) -> (r: Vec<PluginParameter>)
    requires
        state.wf(),
    ensures
        parameters_view(r@) == known_parameters(state@, ssid, slot),
{
    let keys = state.valued();
    let selected = state.selected_plugin_slot();
    let ghost s = state@;
    let ghost all = keys@;
    let ghost wanted = is_shown(s, ssid, slot);
    let ghost f = shown(s, slot);
    let mut r: Vec<PluginParameter> = Vec::new();
    let mut i: usize = 0;
    proof {
        reveal(Seq::filter);
        assert(all.take(0).filter(wanted) =~= Seq::empty());
        assert(parameters_view(r@) =~= all.take(0).filter(wanted).map_values(f));
    }
    while i < keys.len()
        invariant
            i <= keys.len(),
            state.wf(),
            s == state@,
            selected == s.selected_slot,
            all == keys@,
            lists(all, s.values.dom()),
            wanted == is_shown(s, ssid, slot),
            f == shown(s, slot),
            parameters_view(r@) == all.take(i as int).filter(wanted).map_values(f),
        decreases keys.len() - i,
    {
        let k = keys[i];
        let ghost so_far = all.take(i as int).filter(wanted);
        let ghost before = r@;
        proof {
            lemma_filter_push(all.take(i as int), k, wanted);
            assert(all.take(i + 1) =~= all.take(i as int).push(k));
            assert(so_far.push(k).map_values(f) =~= so_far.map_values(f).push(f(k)));
            assert(all.contains(k));
        }
        let at_selected: bool = match selected {
            Some(n) => k.slot == n,
            None => false,
        };
        if k.ssid == ssid && (k.slot == slot || at_selected) {
            let value: Single = match state.value(k) {
                Some(v) => v,
                None => {
                    assert(false);
                    Single { bits: 0 }
                },
            };
            let p = match state.name(k) {
                Some(name) => PluginParameter { param_id: k.param, name, value },
                None => read_parameter(state, ParamKey { ssid, slot, param: k.param }, value),
            };
            r.push(p);
            assert(parameters_view(r@) =~= parameters_view(before).push(p@));
        }
        i = i + 1;
    }
    proof {
        assert(all.take(i as int) =~= all);
        lemma_ordered_maps(
            r@,
            |p: PluginParameter| p.key(),
            |p: PluginParameter| p@,
            |p: ParameterView| p.param_id as int,
        );
    }
    put_in_order(r)
}

/// Whether a parameter belongs to a plugin.
pub open spec fn belongs(ssid: i32, slot: i32) -> spec_fn(ParamKey) -> bool {
    |k: ParamKey| k.ssid == ssid && k.slot == slot
}

/// The keys of a set that belong to a plugin, in order.
pub open spec fn keys_of(keys: Set<ParamKey>, ssid: i32, slot: i32) -> Seq<ParamKey> {
    in_order(keys).filter(belongs(ssid, slot))
}

/// The keys in `keys` that belong to a plugin.
pub fn select_keys(keys: &Vec<ParamKey>, ssid: i32, slot: i32) -> (r: Vec<ParamKey>)
    ensures
        r@ == keys@.filter(belongs(ssid, slot)),
{
    let ghost all = keys@;
    let ghost wanted = belongs(ssid, slot);
    let mut r: Vec<ParamKey> = Vec::new();
    let mut i: usize = 0;
    proof {
        reveal(Seq::filter);
        assert(all.take(0).filter(wanted) =~= Seq::empty());
    }
    while i < keys.len()
        invariant
            i <= keys.len(),
            all == keys@,
            wanted == belongs(ssid, slot),
            r@ == all.take(i as int).filter(wanted),
        decreases keys.len() - i,
    {
        let k = keys[i];
        proof {
            lemma_filter_push(all.take(i as int), k, wanted);
            assert(all.take(i + 1) =~= all.take(i as int).push(k));
        }
        if k.ssid == ssid && k.slot == slot {
            r.push(k);
        }
        i = i + 1;
    }
    assert(all.take(i as int) =~= all);
    r
}

/// A plugin on a strip as it is listed: with its slot counted from one.
pub open spec fn listed_entry(s: StateView, ssid: i32) -> spec_fn(EntryView) -> ListedPluginView {
    |e: EntryView|
        ListedPluginView {
            slot: after(e.slot),
            name: Some(e.name),
            enabled: Some(e.enabled),
            known_parameters: keys_of(s.values.dom(), ssid, e.slot).len(),
            has_parameter_names: keys_of(s.names.dom(), ssid, e.slot).len() > 0,
        }
}

/// A slot of which only parameters are known as it is listed.
pub open spec fn listed_slot(s: StateView, ssid: i32) -> spec_fn(i32) -> ListedPluginView {
    |slot: i32|
        ListedPluginView {
            slot,
            name: None,
            enabled: None,
            known_parameters: keys_of(s.values.dom(), ssid, slot).len(),
            has_parameter_names: keys_of(s.names.dom(), ssid, slot).len() > 0,
        }
}

/// The slots of a strip that occur among `keys`, each once, as they come.
pub open spec fn slots_among(keys: Seq<ParamKey>, ssid: i32) -> Seq<i32>
    decreases keys.len(),
{
    if keys.len() == 0 {
        Seq::empty()
    } else {
        let head = slots_among(keys.drop_last(), ssid);
        if keys.last().ssid == ssid && !head.contains(keys.last().slot) {
            head.push(keys.last().slot)
        } else {
            head
        }
    }
}

/// The plugins on a strip as they are listed: those that were reported, and where none
/// were, the slots of which parameters are known.
pub open spec fn listed_plugins_on(s: StateView, ssid: i32) -> Seq<ListedPluginView> {
    if s.plugins.contains_key(ssid) {
        s.plugins[ssid].map_values(listed_entry(s, ssid))
    } else {
        slots_among(in_order(s.values.dom()), ssid).map_values(listed_slot(s, ssid))
    }
}

/// The slots of a strip that occur among `keys`.
pub fn find_slots(keys: &Vec<ParamKey>, ssid: i32) -> (r: Vec<i32>)
    ensures
        r@ == slots_among(keys@, ssid),
{
    let ghost all = keys@;
    let mut r: Vec<i32> = Vec::new();
    let mut i: usize = 0;
    assert(all.take(0) =~= Seq::<ParamKey>::empty());
    while i < keys.len()
        invariant
            i <= keys.len(),
            all == keys@,
            r@ == slots_among(all.take(i as int), ssid),
        decreases keys.len() - i,
    {
        let k = keys[i];
        proof {
            assert(all.take(i + 1).drop_last() =~= all.take(i as int));
            assert(all.take(i + 1).last() == k);
        }
        if k.ssid == ssid && !is_among(&r, k.slot) {
            r.push(k.slot);
        }
        i = i + 1;
    }
    assert(all.take(i as int) =~= all);
    r
}

/// The plugins on a strip as they are listed.
pub fn list_plugins(state: &ArdourState, ssid: i32) -> (r: Vec<ListedPlugin>)
    requires
        state.wf(),
    ensures
        listed_plugins_view(r@) == listed_plugins_on(state@, ssid),
{
    let valued = state.valued();
    let named = state.named();
    let ghost s = state@;
    let mut r: Vec<ListedPlugin> = Vec::new();
    match state.plugins_on(ssid) {
        Some(list) => {
            let ghost f = listed_entry(s, ssid);
            let ghost entries = entries_view(list@);
            let mut i: usize = 0;
            assert(listed_plugins_view(r@) =~= entries.take(0).map_values(f));
            while i < list.len()
                invariant
                    i <= list.len(),
                    entries == entries_view(list@),
                    valued@ == in_order(s.values.dom()),
                    named@ == in_order(s.names.dom()),
                    f == listed_entry(s, ssid),
                    listed_plugins_view(r@) == entries.take(i as int).map_values(f),
                decreases list.len() - i,
            {
                let ghost so_far = r@;
                let plugin = ListedPlugin {
                    slot: one_more(list[i].slot),
                    name: Some(list[i].name.clone()),
                    enabled: Some(list[i].enabled),
                    known_parameters: select_keys(&valued, ssid, list[i].slot).len(),
                    has_parameter_names: select_keys(&named, ssid, list[i].slot).len() > 0,
                };
                r.push(plugin);
                proof {
                    assert(entries[i as int] == list@[i as int]@);
                    assert(plugin@ == f(entries[i as int]));
                    assert(listed_plugins_view(r@) =~= listed_plugins_view(so_far).push(plugin@));
                    assert(entries.take(i + 1).map_values(f) =~= entries.take(
                        i as int,
                    ).map_values(f).push(f(entries[i as int])));
                }
                i = i + 1;
            }
            assert(entries.take(i as int) =~= entries);
        },
        None => {
            let slots = find_slots(&valued, ssid);
            let ghost f = listed_slot(s, ssid);
            let mut i: usize = 0;
            assert(listed_plugins_view(r@) =~= slots@.take(0).map_values(f));
            while i < slots.len()
                invariant
                    i <= slots.len(),
                    valued@ == in_order(s.values.dom()),
                    named@ == in_order(s.names.dom()),
                    f == listed_slot(s, ssid),
                    listed_plugins_view(r@) == slots@.take(i as int).map_values(f),
                decreases slots.len() - i,
            {
                let ghost so_far = r@;
                let plugin = ListedPlugin {
                    slot: slots[i],
                    name: None,
                    enabled: None,
                    known_parameters: select_keys(&valued, ssid, slots[i]).len(),
                    has_parameter_names: select_keys(&named, ssid, slots[i]).len() > 0,
                };
                r.push(plugin);
                proof {
                    assert(plugin@ == f(slots@[i as int]));
                    assert(listed_plugins_view(r@) =~= listed_plugins_view(so_far).push(plugin@));
                    assert(slots@.take(i + 1).map_values(f) =~= slots@.take(i as int).map_values(
                        f,
                    ).push(f(slots@[i as int])));
                }
                i = i + 1;
            }
            assert(slots@.take(i as int) =~= slots@);
        },
    }
    r
}

/// The controls of a plugin are numbered from one, ascend, and are all there.
proof fn lemma_controls(s: StateView, ssid: i32, slot: i32, n: nat)
    requires
        n <= MAX_PARAMETERS,
    ensures
        forall|i: int, j: int|
            0 <= i < j < controls_among(s, ssid, slot, n).len() ==> (#[trigger] controls_among(
                s,
                ssid,
                slot,
                n,
            )[i]) < (#[trigger] controls_among(s, ssid, slot, n)[j]),
        forall|id: i32| #[trigger]
            controls_among(s, ssid, slot, n).contains(id) <==> 1 <= id <= n && is_control(
                s,
                ParamKey { ssid, slot, param: id },
            ),
    decreases n,
{
    let all = controls_among(s, ssid, slot, n);
    if n > 0 {
        let head = controls_among(s, ssid, slot, (n - 1) as nat);
        lemma_controls(s, ssid, slot, (n - 1) as nat);
        assert forall|i: int, j: int| 0 <= i < j < all.len() implies (#[trigger] all[i]) < (
        #[trigger] all[j]) by {
            if j < head.len() {
                assert(head[i] < head[j]);
            } else {
                assert(head.contains(head[i]));
            }
        }
        assert forall|id: i32| #[trigger] all.contains(id) <==> 1 <= id <= n && is_control(
            s,
            ParamKey { ssid, slot, param: id },
        ) by {
            assert(head.contains(id) <==> 1 <= id <= n - 1 && is_control(
                s,
                ParamKey { ssid, slot, param: id },
            ));
            if all.contains(id) {
                let i = choose|i: int| 0 <= i < all.len() && all[i] == id;
                if i < head.len() {
                    assert(head[i] == id);
                    assert(head.contains(id));
                }
            }
            if head.contains(id) {
                let i = choose|i: int| 0 <= i < head.len() && head[i] == id;
                assert(all[i] == id);
            }
            if id == n && is_control(s, ParamKey { ssid, slot, param: id }) {
                assert(all[head.len() as int] == id);
            }
        }
    }
}

/// The parameters that a batch gives ascend, and each of them is a control.
pub proof fn lemma_batch_ascends(s: StateView, ssid: i32, slot: i32, values: Seq<Single>)
    requires
        matched_batch(s, ssid, slot, values) is Some,
    ensures
        ({
            let list = matched_batch(s, ssid, slot, values)->0;
            &&& list.len() == values.len()
            &&& forall|i: int, j: int|
                0 <= i < j < list.len() ==> (#[trigger] list[i]).param_id < (
                #[trigger] list[j]).param_id
            &&& forall|i: int|
                0 <= i < list.len() ==> is_control(
                    s,
                    ParamKey { ssid, slot, param: (#[trigger] list[i]).param_id },
                ) && list[i].value == values[i]
        }),
{
    let ids = controls(s, ssid, slot);
    lemma_controls(s, ssid, slot, MAX_PARAMETERS as nat);
    let list = batch_readings(s, ssid, slot, values);
    assert forall|i: int| 0 <= i < list.len() implies is_control(
        s,
        ParamKey { ssid, slot, param: (#[trigger] list[i]).param_id },
    ) && list[i].value == values[i] by {
        assert(ids.contains(ids[i]));
    }
    assert forall|i: int, j: int| 0 <= i < j < list.len() implies (#[trigger] list[i]).param_id < (
    #[trigger] list[j]).param_id by {
        assert(ids[i] < ids[j]);
    }
}

/// The parameters that a batch gives stand in the order of their numbers already.
pub proof fn lemma_batch_is_in_order(s: StateView, ssid: i32, slot: i32, values: Seq<Single>)
    requires
        matched_batch(s, ssid, slot, values) is Some,
    ensures
        ordered(
            matched_batch(s, ssid, slot, values)->0,
            |p: ParameterView| p.param_id as int,
        ) == matched_batch(s, ssid, slot, values)->0,
{
    lemma_batch_ascends(s, ssid, slot, values);
    lemma_ordered_already(
        matched_batch(s, ssid, slot, values)->0,
        |p: ParameterView| p.param_id as int,
    );
}

/// The parameters that are shown for a plugin ascend, and a parameter that has a value is
/// among them.
pub proof fn lemma_known_parameters(s: StateView, ssid: i32, slot: i32, k: ParamKey)
    requires
        s.coherent(),
        s.values.contains_key(k),
        is_shown(s, ssid, slot)(k),
    ensures
        ascends(known_parameters(s, ssid, slot), |p: ParameterView| p.param_id as int),
        known_parameters(s, ssid, slot).contains(shown(s, slot)(k)),
        shown(s, slot)(k).param_id == k.param,
        shown(s, slot)(k).value == s.values[k],
{
    broadcast use vstd::seq_lib::group_to_multiset_ensures;

    let keys = in_order(s.values.dom());
    lemma_in_order(s.values.dom());
    assert(keys.contains(k));
    let i = choose|i: int| 0 <= i < keys.len() && keys[i] == k;
    let mine = keys.filter(is_shown(s, ssid, slot));
    keys.lemma_filter_contains(is_shown(s, ssid, slot), i);
    assert(mine.contains(k));
    let j = choose|j: int| 0 <= j < mine.len() && mine[j] == k;
    let list = mine.map_values(shown(s, slot));
    assert(list[j] == shown(s, slot)(k));
    assert(list.contains(list[j]));
    let key = |p: ParameterView| p.param_id as int;
    lemma_ordered(list, key, 0);
    assert(ordered(list, key).to_multiset().count(list[j]) > 0);
}

/// The slots of a strip that are listed are those of which parameters are known, none of
/// them twice.
pub proof fn lemma_slots_among(keys: Seq<ParamKey>, ssid: i32)
    ensures
        slots_among(keys, ssid).no_duplicates(),
        forall|slot: i32| #[trigger]
            slots_among(keys, ssid).contains(slot) <==> exists|i: int|
                0 <= i < keys.len() && (#[trigger] keys[i]).ssid == ssid && keys[i].slot == slot,
    decreases keys.len(),
{
    let all = slots_among(keys, ssid);
    if keys.len() > 0 {
        let rest = keys.drop_last();
        let head = slots_among(rest, ssid);
        let k = keys.last();
        lemma_slots_among(rest, ssid);
        assert forall|slot: i32| #[trigger] all.contains(slot) <==> exists|i: int|
            0 <= i < keys.len() && (#[trigger] keys[i]).ssid == ssid && keys[i].slot == slot by {
            assert(head.contains(slot) <==> exists|i: int|
                0 <= i < rest.len() && (#[trigger] rest[i]).ssid == ssid && rest[i].slot == slot);
            if all.contains(slot) {
                let i = choose|i: int| 0 <= i < all.len() && all[i] == slot;
                if i < head.len() {
                    assert(head[i] == slot);
                    assert(head.contains(slot));
                    let n = choose|n: int|
                        0 <= n < rest.len() && (#[trigger] rest[n]).ssid == ssid && rest[n].slot
                            == slot;
                    assert(keys[n] == rest[n]);
                } else {
                    assert(keys[keys.len() - 1].slot == slot);
                }
            }
            if exists|i: int|
                0 <= i < keys.len() && (#[trigger] keys[i]).ssid == ssid && keys[i].slot == slot {
                let i = choose|i: int|
                    0 <= i < keys.len() && (#[trigger] keys[i]).ssid == ssid && keys[i].slot
                        == slot;
                if i < rest.len() {
                    assert(rest[i] == keys[i]);
                    assert(head.contains(slot));
                }
                if head.contains(slot) {
                    let n = choose|n: int| 0 <= n < head.len() && head[n] == slot;
                    assert(all[n] == slot);
                } else {
                    assert(all[head.len() as int] == slot);
                }
            }
        }
    }
}

/// The outputs of a plugin are those parameters that are described as outputs.
pub proof fn lemma_outputs_of(s: StateView, ssid: i32, slot: i32, param: i32)
    requires
        s.coherent(),
    ensures
        outputs_of(s, ssid, slot).contains(param) <==> s.ports.contains_key(
            ParamKey { ssid, slot, param },
        ) && s.ports[ParamKey { ssid, slot, param }].is_output,
{
    let k = ParamKey { ssid, slot, param };
    let keys = in_order(s.ports.dom());
    let wanted = is_output_of(s, ssid, slot);
    let mine = keys.filter(wanted);
    let outputs = outputs_of(s, ssid, slot);
    lemma_in_order(s.ports.dom());
    if outputs.contains(param) {
        let i = choose|i: int| 0 <= i < outputs.len() && outputs[i] == param;
        keys.lemma_filter_pred(wanted, i);
        assert(mine.contains(mine[i]));
        keys.lemma_filter_contains_rev(wanted, mine[i]);
        assert(mine[i] == k);
        assert(keys.contains(k));
    }
    if s.ports.contains_key(k) && s.ports[k].is_output {
        assert(keys.contains(k));
        let i = choose|i: int| 0 <= i < keys.len() && keys[i] == k;
        keys.lemma_filter_contains(wanted, i);
        assert(mine.contains(k));
        let j = choose|j: int| 0 <= j < mine.len() && mine[j] == k;
        assert(outputs[j] == param);
    }
}

/// No output of a plugin is listed twice.
pub proof fn lemma_outputs_differ(s: StateView, ssid: i32, slot: i32)
    requires
        s.coherent(),
    ensures
        outputs_of(s, ssid, slot).no_duplicates(),
{
    let keys = in_order(s.ports.dom());
    let wanted = is_output_of(s, ssid, slot);
    let mine = keys.filter(wanted);
    let outputs = outputs_of(s, ssid, slot);
    lemma_in_order(s.ports.dom());
    let precedes = |a: ParamKey, b: ParamKey| a.precedes(b);
    lemma_filter_keeps_pairs(keys, wanted, precedes);
    assert forall|i: int, j: int| 0 <= i < j < outputs.len() implies outputs[i]
        != outputs[j] by {
        assert(precedes(mine[i], mine[j]));
        keys.lemma_filter_pred(wanted, i);
        keys.lemma_filter_pred(wanted, j);
    }
}

/// Where the outputs of a meter are taken from a batch, each of them is read, and nothing
/// else is.
pub proof fn lemma_matched_outputs(
    s: StateView,
    ssid: i32,
    slot: i32,
    outputs: Seq<i32>,
    values: Seq<Single>,
)
    requires
        matched_outputs(s, ssid, slot, outputs, values) is Some,
        outputs.no_duplicates(),
    ensures
        ({
            let list = matched_outputs(s, ssid, slot, outputs, values)->0;
            &&& list.len() == outputs.len()
            &&& forall|i: int|
                0 <= i < list.len() ==> outputs.contains((#[trigger] list[i]).param_id)
            &&& forall|id: i32| #[trigger]
                outputs.contains(id) ==> exists|i: int|
                    0 <= i < list.len() && (#[trigger] list[i]).param_id == id
        }),
{
    let all = matched_batch(s, ssid, slot, values)->0;
    let list = all.filter(among(outputs));
    let rising = |a: ParameterView, b: ParameterView| a.param_id < b.param_id;
    lemma_batch_ascends(s, ssid, slot, values);
    lemma_filter_keeps_pairs(all, among(outputs), rising);
    assert forall|i: int| 0 <= i < list.len() implies outputs.contains(
        (#[trigger] list[i]).param_id,
    ) by {
        all.lemma_filter_pred(among(outputs), i);
    }
    let ids = list.map_values(|p: ParameterView| p.param_id);
    assert(ids.no_duplicates()) by {
        assert forall|i: int, j: int| 0 <= i < j < ids.len() implies ids[i] != ids[j] by {
            assert(rising(list[i], list[j]));
        }
    }
    ids.unique_seq_to_set();
    outputs.unique_seq_to_set();
    assert(ids.to_set().subset_of(outputs.to_set())) by {
        assert forall|x: i32| ids.to_set().contains(x) implies outputs.to_set().contains(x) by {
            let i = choose|i: int| 0 <= i < ids.len() && ids[i] == x;
            assert(outputs.contains(list[i].param_id));
        }
    }
    vstd::seq_lib::seq_to_set_is_finite(ids);
    vstd::seq_lib::seq_to_set_is_finite(outputs);
    vstd::set_lib::lemma_subset_equality(ids.to_set(), outputs.to_set());
    assert forall|id: i32| #[trigger] outputs.contains(id) implies exists|i: int|
        0 <= i < list.len() && (#[trigger] list[i]).param_id == id by {
        assert(ids.to_set().contains(id));
        let i = choose|i: int| 0 <= i < ids.len() && ids[i] == id;
        assert(list[i].param_id == id);
    }
}

/// The controls of a plugin are its inputs and outputs with numbers from 1 to 200, by
/// ascending number.
pub proof fn lemma_controls_of(s: StateView, ssid: i32, slot: i32)
    ensures
        forall|i: int, j: int|
            0 <= i < j < controls(s, ssid, slot).len() ==> (#[trigger] controls(s, ssid, slot)[i])
                < (#[trigger] controls(s, ssid, slot)[j]),
        forall|id: i32| #[trigger]
            controls(s, ssid, slot).contains(id) <==> 1 <= id <= 200 && s.ports.contains_key(
                ParamKey { ssid, slot, param: id },
            ) && (s.ports[ParamKey { ssid, slot, param: id }].is_input
                || s.ports[ParamKey { ssid, slot, param: id }].is_output),
{
    lemma_controls(s, ssid, slot, MAX_PARAMETERS as nat);
}

/// The values of a batch are those of the controls of the plugin in their order, none of
/// them left out, each with its name, or with one made of its number where it has none.
pub proof fn lemma_batch(s: StateView, ssid: i32, slot: i32, values: Seq<Single>)
    ensures
        matched_batch(s, ssid, slot, values) is Some <==> values.len() <= controls(
            s,
            ssid,
            slot,
        ).len(),
        matched_batch(s, ssid, slot, values) matches Some(list) ==> {
            &&& list.len() == values.len()
            &&& forall|i: int|
                0 <= i < list.len() ==> {
                    let k = ParamKey { ssid, slot, param: controls(s, ssid, slot)[i] };
                    &&& (#[trigger] list[i]).param_id == k.param
                    &&& list[i].value == values[i]
                    &&& s.names.contains_key(k) ==> list[i].name == s.names[k]
                    &&& !s.names.contains_key(k) ==> list[i].name == "param_"@ + decimal_text(
                        k.param as int,
                    )
                }
        },
{
}

/// What is shown for a plugin is what is known of parameters of its strip, in its slot or
/// in the selected one, with their values; the name may stand under either slot.
pub proof fn lemma_shown_parameters(s: StateView, ssid: i32, slot: i32, p: ParameterView)
    requires
        s.coherent(),
        known_parameters(s, ssid, slot).contains(p),
    ensures
        exists|k: ParamKey| #[trigger]
            s.values.contains_key(k) && k.ssid == ssid && (k.slot == slot || s.selected_slot
                == Some(k.slot)) && k.param == p.param_id && s.values[k] == p.value && (
            if s.names.contains_key(k) {
                p.name == s.names[k]
            } else if s.names.contains_key(ParamKey { slot, ..k }) {
                p.name == s.names[ParamKey { slot, ..k }]
            } else {
                p.name == "param_"@ + decimal_text(k.param as int)
            }),
{
    broadcast use vstd::seq_lib::group_to_multiset_ensures;

    let keys = in_order(s.values.dom());
    lemma_in_order(s.values.dom());
    let mine = keys.filter(is_shown(s, ssid, slot));
    let list = mine.map_values(shown(s, slot));
    let key = |p: ParameterView| p.param_id as int;
    lemma_ordered(list, key, 0);
    assert(list.to_multiset().count(p) > 0);
    assert(list.contains(p));
    let j = choose|j: int| 0 <= j < list.len() && list[j] == p;
    let k = mine[j];
    keys.lemma_filter_pred(is_shown(s, ssid, slot), j);
    assert(mine.contains(k));
    keys.lemma_filter_contains_rev(is_shown(s, ssid, slot), k);
    assert(keys.contains(k));
    assert(s.values.contains_key(k));
}

/// The plugins on a strip are listed as they were reported, with slots counted from one;
/// where none were, the slots are listed of which values are known, as they are. For each
/// it is told how many values are known, and whether some name is.
pub proof fn lemma_listed_plugins_on(s: StateView, ssid: i32)
    requires
        s.coherent(),
    ensures
        s.plugins.contains_key(ssid) ==> {
            let list = listed_plugins_on(s, ssid);
            &&& list.len() == s.plugins[ssid].len()
            &&& forall|i: int|
                0 <= i < list.len() ==> {
                    let e = s.plugins[ssid][i];
                    &&& (#[trigger] list[i]).slot == after(e.slot)
                    &&& list[i].name == Some(e.name)
                    &&& list[i].enabled == Some(e.enabled)
                    &&& list[i].known_parameters == s.values.dom().filter(
                        belongs(ssid, e.slot),
                    ).len()
                    &&& list[i].has_parameter_names <==> exists|k: ParamKey| #[trigger]
                        s.names.contains_key(k) && k.ssid == ssid && k.slot == e.slot
                }
        },
        !s.plugins.contains_key(ssid) ==> {
            let list = listed_plugins_on(s, ssid);
            &&& forall|i: int|
                0 <= i < list.len() ==> (#[trigger] list[i]).name is None && list[i].enabled is None
                    && list[i].known_parameters == s.values.dom().filter(
                    belongs(ssid, list[i].slot),
                ).len()
            &&& forall|k: ParamKey| #[trigger]
                s.values.contains_key(k) && k.ssid == ssid ==> exists|i: int|
                    0 <= i < list.len() && (#[trigger] list[i]).slot == k.slot
        },
{
    let list = listed_plugins_on(s, ssid);
    lemma_in_order(s.values.dom());
    lemma_in_order(s.names.dom());
    if s.plugins.contains_key(ssid) {
        assert forall|i: int| 0 <= i < list.len() implies {
            let e = s.plugins[ssid][i];
            &&& (#[trigger] list[i]).slot == after(e.slot)
            &&& list[i].name == Some(e.name)
            &&& list[i].enabled == Some(e.enabled)
            &&& list[i].known_parameters == s.values.dom().filter(belongs(ssid, e.slot)).len()
            &&& list[i].has_parameter_names <==> exists|k: ParamKey| #[trigger]
                s.names.contains_key(k) && k.ssid == ssid && k.slot == e.slot
        } by {
            let e = s.plugins[ssid][i];
            lemma_keys_of(s.values.dom(), ssid, e.slot);
            lemma_keys_of(s.names.dom(), ssid, e.slot);
            lemma_some_key(s.names.dom(), ssid, e.slot);
            assert(list[i] == listed_entry(s, ssid)(e));
            if list[i].has_parameter_names {
                let k = keys_of(s.names.dom(), ssid, e.slot)[0];
                assert(s.names.contains_key(k));
            }
        }
    } else {
        let keys = in_order(s.values.dom());
        let slots = slots_among(keys, ssid);
        lemma_slots_among(keys, ssid);
        assert forall|i: int| 0 <= i < list.len() implies (#[trigger] list[i]).name is None
            && list[i].enabled is None && list[i].known_parameters == s.values.dom().filter(
            belongs(ssid, list[i].slot),
        ).len() by {
            assert(list[i] == listed_slot(s, ssid)(slots[i]));
            lemma_keys_of(s.values.dom(), ssid, slots[i]);
        }
        assert forall|k: ParamKey| #[trigger]
            s.values.contains_key(k) && k.ssid == ssid implies exists|i: int|
            0 <= i < list.len() && (#[trigger] list[i]).slot == k.slot by {
            assert(keys.contains(k));
            let n = choose|n: int| 0 <= n < keys.len() && keys[n] == k;
            assert(keys[n].ssid == ssid && keys[n].slot == k.slot);
            assert(slots.contains(k.slot));
            let i = choose|i: int| 0 <= i < slots.len() && slots[i] == k.slot;
            assert(list[i] == listed_slot(s, ssid)(slots[i]));
        }
    }
}

/// The keys that belong to a plugin are as many as there are.
proof fn lemma_keys_of(keys: Set<ParamKey>, ssid: i32, slot: i32)
    requires
        keys.finite(),
    ensures
        keys_of(keys, ssid, slot).len() == keys.filter(belongs(ssid, slot)).len(),
{
    let all = in_order(keys);
    lemma_in_order(keys);
    let wanted = belongs(ssid, slot);
    let mine = all.filter(wanted);
    let precedes = |a: ParamKey, b: ParamKey| a.precedes(b);
    lemma_filter_keeps_pairs(all, wanted, precedes);
    assert(mine.no_duplicates()) by {
        assert forall|i: int, j: int| 0 <= i < j < mine.len() implies mine[i] != mine[j] by {
            assert(precedes(mine[i], mine[j]));
        }
    }
    mine.unique_seq_to_set();
    assert(mine.to_set() =~= keys.filter(wanted)) by {
        assert forall|k: ParamKey| mine.to_set().contains(k) <==> keys.filter(wanted).contains(k) by {
            if mine.contains(k) {
                let j = choose|j: int| 0 <= j < mine.len() && mine[j] == k;
                all.lemma_filter_pred(wanted, j);
                all.lemma_filter_contains_rev(wanted, k);
                assert(all.contains(k));
            }
            if keys.filter(wanted).contains(k) {
                assert(all.contains(k));
                let i = choose|i: int| 0 <= i < all.len() && all[i] == k;
                all.lemma_filter_contains(wanted, i);
            }
        }
    }
}

/// Some key belongs to a plugin exactly where there is one among those that do.
proof fn lemma_some_key(keys: Set<ParamKey>, ssid: i32, slot: i32)
    requires
        keys.finite(),
    ensures
        forall|k: ParamKey| #[trigger]
            keys.contains(k) && k.ssid == ssid && k.slot == slot ==> keys_of(
                keys,
                ssid,
                slot,
            ).len() > 0,
        keys_of(keys, ssid, slot).len() > 0 ==> {
            let k = keys_of(keys, ssid, slot)[0];
            keys.contains(k) && k.ssid == ssid && k.slot == slot
        },
{
    let all = in_order(keys);
    lemma_in_order(keys);
    let wanted = belongs(ssid, slot);
    let mine = all.filter(wanted);
    assert forall|k: ParamKey| #[trigger]
        keys.contains(k) && k.ssid == ssid && k.slot == slot implies mine.len() > 0 by {
        assert(all.contains(k));
        let i = choose|i: int| 0 <= i < all.len() && all[i] == k;
        all.lemma_filter_contains(wanted, i);
        assert(mine.contains(k));
    }
    if mine.len() > 0 {
        all.lemma_filter_pred(wanted, 0);
        assert(mine.contains(mine[0]));
        all.lemma_filter_contains_rev(wanted, mine[0]);
        assert(all.contains(mine[0]));
    }
}

/// Each parameter of the strip that has a value and is in the slot, or in the selected one,
/// is shown for the plugin, under its number and with this value.
pub proof fn lemma_value_is_shown(s: StateView, ssid: i32, slot: i32, k: ParamKey)
    requires
        s.coherent(),
        s.values.contains_key(k),
        k.ssid == ssid,
        k.slot == slot || s.selected_slot == Some(k.slot),
    ensures
        exists|i: int|
            0 <= i < known_parameters(s, ssid, slot).len() && (#[trigger] known_parameters(
                s,
                ssid,
                slot,
            )[i]).param_id == k.param && known_parameters(s, ssid, slot)[i].value == s.values[k],
        forall|i: int, j: int|
            0 <= i < j < known_parameters(s, ssid, slot).len() ==> (#[trigger] known_parameters(
                s,
                ssid,
                slot,
            )[i]).param_id <= (#[trigger] known_parameters(s, ssid, slot)[j]).param_id,
{
    lemma_known_parameters(s, ssid, slot, k);
    let list = known_parameters(s, ssid, slot);
    let p = shown(s, slot)(k);
    let i = choose|i: int| 0 <= i < list.len() && list[i] == p;
    assert(list[i].param_id == k.param);
}

/// Whether the `j`-th value of a batch is the one of this parameter.
pub open spec fn has_value_at(
    s: StateView,
    ssid: i32,
    slot: i32,
    values: Seq<Single>,
    p: ParameterView,
    j: int,
) -> bool {
    &&& 0 <= j < values.len()
    &&& controls(s, ssid, slot)[j] == p.param_id
    &&& p.value == values[j]
}

/// Whether a value of a batch is the one of this parameter.
pub open spec fn has_value(
    s: StateView,
    ssid: i32,
    slot: i32,
    values: Seq<Single>,
    p: ParameterView,
) -> bool {
    exists|j: int| has_value_at(s, ssid, slot, values, p, j)
}

/// The outputs of a meter are taken from a batch exactly where each of them is among the
/// controls that the values of the batch stand for; each has the value that stands in the
/// place of its control.
pub proof fn lemma_outputs_from_batch(
    s: StateView,
    ssid: i32,
    slot: i32,
    outputs: Seq<i32>,
    values: Seq<Single>,
)
    requires
        outputs.no_duplicates(),
        values.len() <= controls(s, ssid, slot).len(),
    ensures
        matched_outputs(s, ssid, slot, outputs, values) is Some <==> forall|id: i32| #[trigger]
            outputs.contains(id) ==> controls(s, ssid, slot).take(values.len() as int).contains(
                id,
            ),
        matched_outputs(s, ssid, slot, outputs, values) matches Some(list) ==> forall|i: int|
            0 <= i < list.len() ==> has_value(s, ssid, slot, values, #[trigger] list[i]),
{
    let ids = controls(s, ssid, slot).take(values.len() as int);
    let all = matched_batch(s, ssid, slot, values)->0;
    let wanted = among(outputs);
    let list = all.filter(wanted);
    lemma_batch(s, ssid, slot, values);
    if matched_outputs(s, ssid, slot, outputs, values) is Some {
        lemma_matched_outputs(s, ssid, slot, outputs, values);
    }
    assert forall|i: int| 0 <= i < list.len() implies has_value(
        s,
        ssid,
        slot,
        values,
        #[trigger] list[i],
    ) by {
        all.lemma_filter_contains_rev(wanted, list[i]);
        let j = choose|j: int| 0 <= j < all.len() && all[j] == list[i];
        assert(has_value_at(s, ssid, slot, values, list[i], j));
    }
    if matched_outputs(s, ssid, slot, outputs, values) is Some {
        assert forall|id: i32| #[trigger] outputs.contains(id) implies ids.contains(id) by {
            let i = choose|i: int| 0 <= i < list.len() && (#[trigger] list[i]).param_id == id;
            let j = choose|j: int| has_value_at(s, ssid, slot, values, list[i], j);
            assert(ids[j] == id);
        }
    }
    if forall|id: i32| #[trigger] outputs.contains(id) ==> ids.contains(id) {
        let rising = |a: ParameterView, b: ParameterView| a.param_id < b.param_id;
        lemma_batch_ascends(s, ssid, slot, values);
        lemma_filter_keeps_pairs(all, wanted, rising);
        let named = list.map_values(|p: ParameterView| p.param_id);
        assert(named.no_duplicates()) by {
            assert forall|i: int, j: int| 0 <= i < j < named.len() implies named[i]
                != named[j] by {
                assert(rising(list[i], list[j]));
            }
        }
        named.unique_seq_to_set();
        outputs.unique_seq_to_set();
        assert(named.to_set() =~= outputs.to_set()) by {
            assert forall|x: i32| named.to_set().contains(x) <==> outputs.to_set().contains(x) by {
                if named.contains(x) {
                    let i = choose|i: int| 0 <= i < named.len() && named[i] == x;
                    all.lemma_filter_pred(wanted, i);
                    assert(outputs.contains(list[i].param_id));
                }
                if outputs.contains(x) {
                    assert(ids.contains(x));
                    let j = choose|j: int| 0 <= j < ids.len() && ids[j] == x;
                    assert(all[j].param_id == x);
                    all.lemma_filter_contains(wanted, j);
                    let i = choose|i: int| 0 <= i < list.len() && list[i] == all[j];
                    assert(named[i] == x);
                }
            }
        }
    }
}

} // verus!
