//! What each report of the workstation makes known, and whom each reply reaches.

use crate::addresses::lemma_addresses;
use crate::feedback::{
    after_message, answer, delivered, flag_at, float_at, index_at, int_at, listed_plugins,
    listed_strips, listed_values, text_at, value_at, waiting_after,
};
use crate::laws::{
    lemma_addresses_without_number, lemma_longer_plugin_address, lemma_parameter_addresses,
    lemma_plugin_address, lemma_strip_addresses,
};
use crate::osc::{ArgView, MessageView};
use crate::pending::{LoopRange, ReplyView, Waiting};
use crate::plugins::{has_slot, lemma_inserted, lemma_merge, slots_differ, EntryView};
use crate::single::{single_of_double, single_of_int, Single};
use crate::slots::{after, before, lemma_counted_back};
use crate::state::{
    inputs_below, inputs_of, lemma_inputs_numbered, lemma_numbering_keeps, with_strip,
    PlaybackStatus, PortInfo, StateView, TrackView,
};
use crate::table::ParamKey;
use crate::text::{decimal_text, parsed_i32};
use vstd::prelude::*;
use vstd::string::*;

verus! {

/// How an argument is read, by its type: a whole number also as a number in floating point,
/// one in floating point also as a whole number, and both as yes or no.
pub proof fn lemma_arguments(args: Seq<ArgView>, i: int)
    ensures
        !(0 <= i < args.len()) ==> int_at(args, i) is None && float_at(args, i) is None && text_at(
            args,
            i,
        ) is None && index_at(args, i) is None && flag_at(args, i) is None && value_at(
            args,
            i,
        ) is None,
        0 <= i < args.len() ==> match args[i] {
            ArgView::Int(n) => {
                &&& int_at(args, i) == Some(n)
                &&& index_at(args, i) == Some(n)
                &&& flag_at(args, i) == Some(n != 0)
                &&& value_at(args, i) == Some(single_of_int(n))
                &&& float_at(args, i) is None
                &&& text_at(args, i) is None
            },
            ArgView::Float(f) => {
                &&& float_at(args, i) == Some(f)
                &&& value_at(args, i) == Some(f)
                &&& index_at(args, i) == Some(f.truncated() as i32)
                &&& flag_at(args, i) == Some(f.magnitude() != 0)
                &&& int_at(args, i) is None
                &&& text_at(args, i) is None
            },
            ArgView::Double(d) => {
                &&& value_at(args, i) == Some(single_of_double(d))
                &&& int_at(args, i) is None
                &&& index_at(args, i) is None
                &&& flag_at(args, i) is None
                &&& float_at(args, i) is None
                &&& text_at(args, i) is None
            },
            ArgView::Text(t) => {
                &&& text_at(args, i) == Some(t)
                &&& int_at(args, i) is None
                &&& index_at(args, i) is None
                &&& flag_at(args, i) is None
                &&& float_at(args, i) is None
                &&& value_at(args, i) is None
            },
            _ => {
                &&& int_at(args, i) is None
                &&& index_at(args, i) is None
                &&& flag_at(args, i) is None
                &&& float_at(args, i) is None
                &&& text_at(args, i) is None
                &&& value_at(args, i) is None
            },
        },
{
}

/// The name of a strip becomes that of the strip with the number in the address, and of no
/// other; where it is new, so are the places before it, and nothing stands there.
pub proof fn lemma_strip_is_named(s: StateView, n: i32, args: Seq<ArgView>, name: Seq<char>)
    requires
        n > 0,
        text_at(args, 0) == Some(name),
    ensures
        ({
            let m = MessageView { addr: "/strip/name/"@ + decimal_text(n as int), args };
            let t = after_message(s, m);
            &&& t == StateView { strips: t.strips, ..s }
            &&& t.strips.len() == if n > s.strips.len() {
                n as int
            } else {
                s.strips.len() as int
            }
            &&& t.strips[n - 1].id == n
            &&& t.strips[n - 1].name == name
            &&& n <= s.strips.len() ==> t.strips[n - 1].track_type == s.strips[n - 1].track_type
            &&& n > s.strips.len() ==> t.strips[n - 1].track_type == "unknown"@
            &&& forall|i: int|
                0 <= i < s.strips.len() && i != n - 1 ==> #[trigger] t.strips[i] == s.strips[i]
            &&& forall|i: int|
                s.strips.len() <= i < n - 1 ==> (#[trigger] t.strips[i]).id == 0
            &&& answer(m) is None
        }),
{
    lemma_strip_addresses(n);
}

/// The type of a strip becomes that of the strip with the number in the address, where its
/// name is known, and of no other; it is text, or is made of a number.
pub proof fn lemma_strip_is_typed(s: StateView, n: i32, args: Seq<ArgView>)
    requires
        args.len() > 0,
    ensures
        ({
            let m = MessageView { addr: "/strip/type/"@ + decimal_text(n as int), args };
            let t = after_message(s, m);
            let known = 0 < n <= s.strips.len() && s.strips[n - 1].id == n;
            &&& !known ==> t == s
            &&& known ==> t == StateView { strips: t.strips, ..s } && t.strips.len()
                == s.strips.len()
            &&& known ==> t.strips[n - 1].id == n && t.strips[n - 1].name == s.strips[n - 1].name
            &&& known ==> t.strips[n - 1].track_type == match args[0] {
                ArgView::Text(kind) => kind,
                ArgView::Int(k) => "type_id_"@ + decimal_text(k as int),
                _ => "unknown_type_format"@,
            }
            &&& known ==> forall|i: int|
                0 <= i < s.strips.len() && i != n - 1 ==> #[trigger] t.strips[i] == s.strips[i]
            &&& answer(m) is None
        }),
{
    lemma_strip_addresses(n);
}

/// What the transport does is known by the first of two arguments: 0 is stopped, 1 and 2
/// are playing; a report of another form changes nothing.
pub proof fn lemma_transport_state(s: StateView, args: Seq<ArgView>)
    ensures
        ({
            let t = after_message(s, MessageView { addr: "/transport_state"@, args });
            let good = args.len() == 2 && args[1] is Float;
            &&& t == StateView { playback: t.playback, ..s }
            &&& good && args[0] == ArgView::Int(0) ==> t.playback == PlaybackStatus::Stopped
            &&& good && (args[0] == ArgView::Int(1) || args[0] == ArgView::Int(2)) ==> t.playback
                == PlaybackStatus::Playing
            &&& !good || args[0] !is Int || !(0 <= args[0]->Int_0 <= 2) ==> t == s
        }),
{
    lemma_addresses();
}

/// Whether the transport rolls is known by the first argument: 1 is playing, 0 is stopped,
/// and anything else changes nothing.
pub proof fn lemma_strip_play(s: StateView, args: Seq<ArgView>)
    ensures
        ({
            let t = after_message(s, MessageView { addr: "/strip/play"@, args });
            &&& t == StateView { playback: t.playback, ..s }
            &&& args.len() > 0 && args[0] == ArgView::Int(1) ==> t.playback
                == PlaybackStatus::Playing
            &&& args.len() > 0 && args[0] == ArgView::Int(0) ==> t.playback
                == PlaybackStatus::Stopped
            &&& args.len() == 0 || args[0] !is Int || !(0 <= args[0]->Int_0 <= 1) ==> t == s
        }),
{
    lemma_addresses();
}

/// The position of the playhead is the one argument, a number of 64 bits; a report of
/// another form changes nothing.
pub proof fn lemma_transport_frame(s: StateView, args: Seq<ArgView>)
    ensures
        ({
            let t = after_message(s, MessageView { addr: "/transport_frame"@, args });
            &&& args.len() == 1 && args[0] is Long ==> t == StateView {
                frame: Some(args[0]->Long_0),
                ..s
            }
            &&& !(args.len() == 1 && args[0] is Long) ==> t == s
        }),
{
    lemma_addresses();
}

/// A value that is reported with the number of a parameter is that of the selected plugin
/// on the selected strip; where nothing is selected, and where it is not finite, it is
/// dropped.
pub proof fn lemma_selected_parameter(
    s: StateView,
    n: i32,
    args: Seq<ArgView>,
    ssid: i32,
    slot: i32,
)
    requires
        args.len() > 0,
        s.selected_strip == Some(ssid),
        s.selected_slot == Some(slot),
    ensures
        ({
            let addr = "/select/plugin/parameter/"@ + decimal_text(n as int);
            let t = after_message(s, MessageView { addr, args });
            let k = ParamKey { ssid, slot, param: n };
            &&& args[0] is Float && args[0]->Float_0.finite() ==> t == StateView {
                values: s.values.insert(k, args[0]->Float_0),
                ..s
            }
            &&& args[0] is Float && !args[0]->Float_0.finite() ==> t == s
            &&& args[0] is Int ==> t == StateView {
                values: s.values.insert(k, single_of_int(args[0]->Int_0)),
                ..s
            }
            &&& args[0] !is Float && args[0] !is Int ==> t == s
            &&& after_message(StateView { selected_slot: None, ..s }, MessageView { addr, args })
                == StateView { selected_slot: None, ..s }
        }),
{
    lemma_parameter_addresses(n);
    let addr = "/select/plugin/parameter/"@ + decimal_text(n as int);
}

/// A name that is reported with the number of a parameter is that of the selected plugin on
/// the selected strip; an empty one is dropped, and so is one where nothing is selected.
pub proof fn lemma_selected_parameter_name(
    s: StateView,
    n: i32,
    name: Seq<char>,
    ssid: i32,
    slot: i32,
)
    requires
        s.selected_strip == Some(ssid),
        s.selected_slot == Some(slot),
    ensures
        ({
            let m = MessageView {
                addr: "/select/plugin/parameter/name/"@ + decimal_text(n as int),
                args: seq![ArgView::Text(name)],
            };
            let t = after_message(s, m);
            &&& name.len() > 0 ==> t == StateView {
                names: s.names.insert(ParamKey { ssid, slot, param: n }, name),
                ..s
            }
            &&& name.len() == 0 ==> t == s
            &&& after_message(StateView { selected_slot: None, ..s }, m) == StateView {
                selected_slot: None,
                ..s
            }
        }),
{
    lemma_parameter_addresses(n);
}

/// The slot of the selected plugin is reported in the address or as the first argument, and
/// counts where a strip is selected.
pub proof fn lemma_selected_plugin(s: StateView, slot: i32, args: Seq<ArgView>)
    ensures
        ({
            let by_address = after_message(
                s,
                MessageView { addr: "/select/plugin/"@ + decimal_text(slot as int), args },
            );
            let by_argument = after_message(s, MessageView { addr: "/select/plugin"@, args });
            &&& s.selected_strip is Some ==> by_address == StateView {
                selected_slot: Some(slot),
                ..s
            }
            &&& s.selected_strip is None ==> by_address == s && by_argument == s
            &&& s.selected_strip is Some && index_at(args, 0) == Some(slot) ==> by_argument
                == by_address
            &&& index_at(args, 0) is None ==> by_argument == s
        }),
{
    lemma_plugin_address(slot);
    lemma_addresses();
}

/// A strip that is reported as selected is the selected one, and no plugin on it is; only a
/// positive number counts.
pub proof fn lemma_selected_strip(s: StateView, args: Seq<ArgView>)
    ensures
        ({
            let t = after_message(s, MessageView { addr: "/strip/select"@, args });
            &&& args.len() > 0 && args[0] is Int && args[0]->Int_0 > 0 ==> t == StateView {
                selected_strip: Some(args[0]->Int_0),
                selected_slot: None,
                ..s
            }
            &&& !(args.len() > 0 && args[0] is Int && args[0]->Int_0 > 0) ==> t == s
        }),
{
    lemma_addresses();
}

/// Where the `j`-th group of three arguments from `i` on begins.
pub open spec fn place(i: int, j: int) -> int {
    i + 3 * j
}

/// Whether the arguments from `i` on are `n` plugins: slot, name, and whether it is on.
pub open spec fn plugins_from(args: Seq<ArgView>, i: int, n: nat) -> bool {
    &&& 0 <= i
    &&& args.len() == i + 3 * n
    &&& forall|j: int|
        0 <= j < n ==> index_at(args, #[trigger] place(i, j)) is Some && text_at(
            args,
            place(i, j) + 1,
        ) is Some && flag_at(args, place(i, j) + 2) is Some
}

/// The plugin that the three arguments from `i` on report.
pub open spec fn plugin_at(args: Seq<ArgView>, i: int) -> EntryView {
    EntryView {
        slot: before(index_at(args, i)->0),
        name: text_at(args, i + 1)->0,
        enabled: flag_at(args, i + 2)->0,
    }
}

/// A report lists its plugins as they stand in it.
proof fn lemma_listed_plugins(args: Seq<ArgView>, i: int, n: nat)
    requires
        plugins_from(args, i, n),
    ensures
        listed_plugins(args, i).len() == n,
        forall|j: int|
            0 <= j < n ==> #[trigger] listed_plugins(args, i)[j] == plugin_at(args, place(i, j)),
    decreases n,
{
    if n > 0 {
        assert(place(i, 0) == i);
        assert(plugins_from(args, i + 3, (n - 1) as nat)) by {
            assert forall|j: int| 0 <= j < n - 1 implies index_at(
                args,
                #[trigger] place(i + 3, j),
            ) is Some && text_at(args, place(i + 3, j) + 1) is Some && flag_at(
                args,
                place(i + 3, j) + 2,
            ) is Some by {
                assert(place(i + 3, j) == place(i, j + 1));
            }
        }
        lemma_listed_plugins(args, i + 3, (n - 1) as nat);
        let rest = listed_plugins(args, i + 3);
        assert forall|j: int| 0 <= j < n implies #[trigger] listed_plugins(args, i)[j]
            == plugin_at(args, place(i, j)) by {
            if j > 0 {
                assert(listed_plugins(args, i)[j] == rest[j - 1]);
                assert(place(i + 3, j - 1) == place(i, j));
            }
        }
    }
}

/// A report of the plugins on a strip, each with its slot counted from one, its name, and
/// whether it is on. Where nothing was known of the strip, it is known as reported. Else no
/// plugin is forgotten, each that was known keeps its name, each that was not is known as
/// reported, and each that was reported is on or off as reported. Nothing else changes.
pub proof fn lemma_plugins_are_reported(s: StateView, args: Seq<ArgView>, n: nat, ssid: i32)
    requires
        index_at(args, 0) == Some(ssid),
        plugins_from(args, 1, n),
        n > 0,
    ensures
        ({
            let t = after_message(s, MessageView { addr: "/strip/plugin/list"@, args });
            let all = t.plugins[ssid];
            let fresh = !s.plugins.contains_key(ssid);
            let known = s.plugins[ssid];
            &&& t == StateView { plugins: s.plugins.insert(ssid, all), ..s }
            &&& fresh ==> all.len() == n && forall|j: int|
                0 <= j < n ==> #[trigger] all[j] == plugin_at(args, place(1, j))
            &&& !fresh ==> forall|i: int|
                0 <= i < known.len() ==> exists|j: int|
                    0 <= j < all.len() && all[j].slot == (#[trigger] known[i]).slot && (
                    #[trigger] all[j]).name == known[i].name
            &&& !fresh ==> forall|j: int|
                0 <= j < n && !has_slot(known, plugin_at(args, #[trigger] place(1, j)).slot)
                    ==> all.contains(plugin_at(args, place(1, j)))
            &&& !fresh && slots_differ(listed_plugins(args, 1)) ==> forall|j: int|
                0 <= j < n ==> exists|i: int|
                    0 <= i < all.len() && (#[trigger] all[i]).slot == plugin_at(
                        args,
                        #[trigger] place(1, j),
                    ).slot && all[i].enabled == plugin_at(args, place(1, j)).enabled
        }),
{
    lemma_addresses();
    lemma_listed_plugins(args, 1, n);
    let list = listed_plugins(args, 1);
    let t = after_message(s, MessageView { addr: "/strip/plugin/list"@, args });
    let all = t.plugins[ssid];
    if s.plugins.contains_key(ssid) {
        let known = s.plugins[ssid];
        lemma_merge(known, list);
        assert forall|j: int|
            0 <= j < n && !has_slot(known, plugin_at(args, #[trigger] place(1, j)).slot) implies all.contains(
        plugin_at(args, place(1, j))) by {
            assert(list[j] == plugin_at(args, place(1, j)));
        }
        if slots_differ(list) {
            assert forall|j: int| 0 <= j < n implies exists|i: int|
                0 <= i < all.len() && (#[trigger] all[i]).slot == plugin_at(
                    args,
                    #[trigger] place(1, j),
                ).slot && all[i].enabled == plugin_at(args, place(1, j)).enabled by {
                assert(list[j] == plugin_at(args, place(1, j)));
            }
        }
    }
    assert(t.plugins =~= s.plugins.insert(ssid, all));
}

/// A plugin that is reported as inserted, on a strip, in a slot counted from zero, with its
/// name, its URI, and whether it is on, is on the list of that strip; plugins in other
/// slots stay as they are, and nothing else changes.
pub proof fn lemma_plugin_is_reported(
    s: StateView,
    args: Seq<ArgView>,
    ssid: i32,
    e: EntryView,
)
    requires
        index_at(args, 0) == Some(ssid),
        index_at(args, 1) == Some(e.slot),
        text_at(args, 2) == Some(e.name),
        text_at(args, 3) is Some,
        flag_at(args, 4) == Some(e.enabled),
    ensures
        ({
            let t = after_message(s, MessageView { addr: "/strip/plugin/inserted"@, args });
            let all = t.plugins[ssid];
            &&& t == StateView { plugins: s.plugins.insert(ssid, all), ..s }
            &&& all.contains(e)
            &&& s.plugins.contains_key(ssid) ==> forall|x: EntryView| #[trigger]
                s.plugins[ssid].contains(x) && x.slot != e.slot ==> all.contains(x)
            &&& s.plugins.contains_key(ssid) ==> forall|x: EntryView| #[trigger]
                all.contains(x) ==> x == e || s.plugins[ssid].contains(x)
            &&& !s.plugins.contains_key(ssid) ==> all == seq![e]
        }),
{
    lemma_addresses();
    let t = after_message(s, MessageView { addr: "/strip/plugin/inserted"@, args });
    if s.plugins.contains_key(ssid) {
        lemma_inserted(s.plugins[ssid], e);
    } else {
        assert(t.plugins[ssid][0] == e);
    }
    assert(t.plugins =~= s.plugins.insert(ssid, t.plugins[ssid]));
}

/// A description of a parameter, of a strip and a slot counted from one, tells by two of
/// its flags whether it is an input and whether it is an output, gives it its name, and by
/// its last argument its value. Nothing else changes, and nobody is told.
pub proof fn lemma_parameter_is_described(
    s: StateView,
    args: Seq<ArgView>,
    k: ParamKey,
    flags: i32,
    label: Seq<char>,
)
    requires
        args.len() >= 9,
        index_at(args, 0) == Some(k.ssid),
        index_at(args, 1) == Some(after(k.slot)),
        index_at(args, 2) == Some(k.param),
        text_at(args, 3) == Some(label),
        int_at(args, 4) == Some(flags),
    ensures
        ({
            let m = MessageView { addr: "/strip/plugin/descriptor"@, args };
            let t = after_message(s, m);
            let port = PortInfo {
                is_input: flags & 0x80 != 0,
                is_output: flags & 0x200 != 0,
                visible_index: None,
            };
            &&& t == StateView { ports: t.ports, names: t.names, values: t.values, ..s }
            &&& t.ports == s.ports.insert(k, port)
            &&& t.names == s.names.insert(k, label)
            &&& t.values == match value_at(args, args.len() - 1) {
                Some(v) => s.values.insert(k, v),
                None => s.values,
            }
            &&& answer(m) is None
        }),
{
    lemma_addresses();
    lemma_counted_back(k.slot);
}

/// The end of the description of a plugin, of a strip and a slot counted from one, numbers
/// its inputs from one in the order of their parameter numbers, changes nothing else, and
/// reaches the request that waits for just that plugin.
pub proof fn lemma_description_ends<W>(
    s: StateView,
    p: Map<Waiting, W>,
    args: Seq<ArgView>,
    ssid: i32,
    slot: i32,
    request: W,
    a: ParamKey,
    b: ParamKey,
)
    requires
        int_at(args, 0) == Some(ssid),
        int_at(args, 1) == Some(after(slot)),
        s.ports.dom().finite(),
        inputs_of(s.ports, ssid, slot).len() <= i32::MAX,
        s.ports.contains_key(a) && s.ports[a].is_input && a.ssid == ssid && a.slot == slot,
        s.ports.contains_key(b) && s.ports[b].is_input && b.ssid == ssid && b.slot == slot,
        a.param < b.param,
    ensures
        ({
            let m = MessageView { addr: "/strip/plugin/descriptor_end"@, args };
            let t = after_message(s, m);
            &&& t == StateView { ports: t.ports, ..s }
            &&& t.ports[a].visible_index matches Some(i) && t.ports[b].visible_index matches Some(
                j,
            ) && 1 <= i < j
            &&& delivered(p.insert(Waiting::Descriptor { ssid, slot }, request), m) == Some(
                (request, ReplyView::Described),
            )
            &&& waiting_after(p, m) == p.remove(Waiting::Descriptor { ssid, slot })
        }),
{
    lemma_addresses();
    lemma_counted_back(slot);
    lemma_inputs_numbered(s.ports, ssid, slot, a, b);
}

/// The end of the description of a plugin leaves all parameters but its inputs as they are.
pub proof fn lemma_description_end_keeps(
    s: StateView,
    args: Seq<ArgView>,
    ssid: i32,
    slot: i32,
    k: ParamKey,
)
    requires
        int_at(args, 0) == Some(ssid),
        int_at(args, 1) == Some(after(slot)),
        s.ports.contains_key(k),
        k.ssid != ssid || k.slot != slot || !s.ports[k].is_input,
    ensures
        after_message(
            s,
            MessageView { addr: "/strip/plugin/descriptor_end"@, args },
        ).ports[k] == s.ports[k],
{
    lemma_addresses();
    lemma_counted_back(slot);
    lemma_numbering_keeps(s.ports, ssid, slot, k);
}

/// The value of one parameter, of a strip, a slot counted from one and a number, becomes
/// that of this parameter and reaches the request that waits for just this parameter.
pub proof fn lemma_value_reaches_request<W>(
    s: StateView,
    p: Map<Waiting, W>,
    args: Seq<ArgView>,
    k: ParamKey,
    v: Single,
    request: W,
)
    requires
        index_at(args, 0) == Some(k.ssid),
        index_at(args, 1) == Some(after(k.slot)),
        index_at(args, 2) == Some(k.param),
        value_at(args, 3) == Some(v),
    ensures
        ({
            let m = MessageView { addr: "/strip/plugin/parameter/value"@, args };
            let w = Waiting::Value { ssid: k.ssid, slot: k.slot, param: k.param };
            &&& after_message(s, m) == StateView { values: s.values.insert(k, v), ..s }
            &&& delivered(p.insert(w, request), m) == Some((request, ReplyView::Value(v)))
            &&& waiting_after(p, m) == p.remove(w)
        }),
{
    lemma_addresses();
    lemma_counted_back(k.slot);
}

/// Where all arguments from `i` on are values, they are all listed, as they stand.
proof fn lemma_listed_values(args: Seq<ArgView>, i: int)
    requires
        0 <= i <= args.len(),
        forall|j: int| i <= j < args.len() ==> (#[trigger] value_at(args, j)) is Some,
    ensures
        listed_values(args, i).len() == args.len() - i,
        forall|j: int|
            0 <= j < args.len() - i ==> Some(#[trigger] listed_values(args, i)[j]) == value_at(
                args,
                i + j,
            ),
    decreases args.len() - i,
{
    if i < args.len() {
        assert(value_at(args, i) is Some);
        lemma_listed_values(args, i + 1);
        let rest = listed_values(args, i + 1);
        assert forall|j: int| 0 <= j < args.len() - i implies Some(
            #[trigger] listed_values(args, i)[j],
        ) == value_at(args, i + j) by {
            if j > 0 {
                assert(listed_values(args, i)[j] == rest[j - 1]);
                assert(Some(rest[j - 1]) == value_at(args, i + 1 + (j - 1)));
            }
        }
    }
}

/// The values of all parameters of a plugin, of a strip and a slot counted from one, reach
/// the request that waits for just that plugin, each of them and in the order in which they
/// stand behind the first three arguments. Nothing becomes known by them.
pub proof fn lemma_values_reach_request<W>(
    s: StateView,
    p: Map<Waiting, W>,
    args: Seq<ArgView>,
    ssid: i32,
    slot: i32,
    request: W,
)
    requires
        index_at(args, 0) == Some(ssid),
        index_at(args, 1) == Some(after(slot)),
        index_at(args, 2) is Some,
        forall|j: int| 3 <= j < args.len() ==> (#[trigger] value_at(args, j)) is Some,
    ensures
        ({
            let m = MessageView { addr: "/strip/plugin/parameter/values"@, args };
            let w = Waiting::Batch { ssid, slot };
            &&& after_message(s, m) == s
            &&& waiting_after(p, m) == p.remove(w)
            &&& delivered(p.insert(w, request), m) matches Some((to, ReplyView::Batch(values)))
                && to == request && values.len() == args.len() - 3 && forall|j: int|
                0 <= j < values.len() ==> Some(#[trigger] values[j]) == value_at(args, 3 + j)
        }),
{
    lemma_addresses();
    lemma_counted_back(slot);
    lemma_listed_values(args, 3);
}

/// The sample rate reaches the request that waits for it.
pub proof fn lemma_rate_reaches_request<W>(
    s: StateView,
    p: Map<Waiting, W>,
    rate: i32,
    request: W,
)
    ensures
        ({
            let m = MessageView {
                addr: "/mixpilot/reply/sample_rate"@,
                args: seq![ArgView::Int(rate)],
            };
            &&& delivered(p.insert(Waiting::SampleRate, request), m) == Some(
                (request, ReplyView::SampleRate(rate)),
            )
            &&& waiting_after(p, m) == p.remove(Waiting::SampleRate)
            &&& after_message(s, m) == s
        }),
{
    lemma_addresses();
}

/// The loop range reaches the request that waits for it: start and end in samples, then in
/// seconds. A reply of another form tells that there is none.
pub proof fn lemma_range_reaches_request<W>(
    s: StateView,
    p: Map<Waiting, W>,
    args: Seq<ArgView>,
    request: W,
)
    ensures
        ({
            let m = MessageView { addr: "/mixpilot/reply/loop_range"@, args };
            let good = args.len() >= 4 && args[0] is Int && args[1] is Int && args[2] is Float
                && args[3] is Float;
            &&& delivered(p.insert(Waiting::LoopRange, request), m) matches Some(
                (to, ReplyView::LoopRange(range)),
            ) && to == request && (good ==> range == Some(
                LoopRange {
                    start: args[0]->Int_0,
                    end: args[1]->Int_0,
                    start_seconds: args[2]->Float_0,
                    end_seconds: args[3]->Float_0,
                },
            )) && (!good ==> range is None)
            &&& waiting_after(p, m) == p.remove(Waiting::LoopRange)
            &&& after_message(s, m) == s
        }),
{
    lemma_addresses();
}

/// The value of an automated control reaches the request that waits for it.
pub proof fn lemma_automation_reaches_request<W>(
    s: StateView,
    p: Map<Waiting, W>,
    args: Seq<ArgView>,
    v: Single,
    request: W,
)
    requires
        value_at(args, 0) == Some(v),
    ensures
        ({
            let m = MessageView { addr: "/mixpilot/reply/auto_value"@, args };
            &&& delivered(p.insert(Waiting::AutoValue, request), m) == Some(
                (request, ReplyView::AutoValue(v)),
            )
            &&& waiting_after(p, m) == p.remove(Waiting::AutoValue)
            &&& after_message(s, m) == s
        }),
{
    lemma_addresses();
}

/// Whether the arguments from `i` on are `n` strips: number, name and type, with positive
/// numbers that all differ.
pub open spec fn strips_from(args: Seq<ArgView>, i: int, n: nat) -> bool {
    &&& 0 <= i
    &&& args.len() == i + 3 * n
    &&& forall|j: int|
        0 <= j < n ==> index_at(args, #[trigger] place(i, j)) is Some && text_at(
            args,
            place(i, j) + 1,
        ) is Some && index_at(args, place(i, j))->0 > 0
    &&& forall|j: int, k: int|
        0 <= j < k < n ==> index_at(args, #[trigger] place(i, j)) != index_at(
            args,
            #[trigger] place(i, k),
        )
}

/// The strip that the three arguments from `i` on report.
pub open spec fn strip_at(args: Seq<ArgView>, i: int) -> TrackView {
    TrackView {
        id: index_at(args, i)->0,
        name: text_at(args, i + 1)->0,
        track_type: match args[i + 2] {
            ArgView::Text(kind) => kind,
            ArgView::Int(k) => "type_"@ + decimal_text(k as int),
            _ => "unknown"@,
        },
    }
}

/// A list of strips puts each of them into its place, and leaves all others.
proof fn lemma_listed_strips(args: Seq<ArgView>, i: int, n: nat, strips: Seq<TrackView>)
    requires
        strips_from(args, i, n),
    ensures
        ({
            let all = listed_strips(args, i, strips);
            &&& all.len() >= strips.len()
            &&& forall|j: int|
                0 <= j < n ==> ({
                    let t = strip_at(args, #[trigger] place(i, j));
                    t.id <= all.len() && all[t.id - 1] == t
                })
            &&& forall|p: int|
                0 <= p < all.len() && (forall|j: int|
                    0 <= j < n ==> index_at(args, #[trigger] place(i, j)) != Some((p + 1) as i32))
                    ==> (if p < strips.len() {
                    #[trigger] all[p] == strips[p]
                } else {
                    all[p].id == 0
                })
            &&& all.len() > i32::MAX ==> all.len() == strips.len()
        }),
    decreases n,
{
    let all = listed_strips(args, i, strips);
    if n > 0 {
        assert(place(i, 0) == i);
        let first = strip_at(args, i);
        let next = with_strip(strips, first.id, first.name, first.track_type);
        assert(strips_from(args, i + 3, (n - 1) as nat)) by {
            assert forall|j: int| 0 <= j < n - 1 implies index_at(
                args,
                #[trigger] place(i + 3, j),
            ) is Some && text_at(args, place(i + 3, j) + 1) is Some && index_at(
                args,
                place(i + 3, j),
            )->0 > 0 by {
                assert(place(i + 3, j) == place(i, j + 1));
            }
            assert forall|j: int, k: int| 0 <= j < k < n - 1 implies index_at(
                args,
                #[trigger] place(i + 3, j),
            ) != index_at(args, #[trigger] place(i + 3, k)) by {
                assert(place(i + 3, j) == place(i, j + 1));
                assert(place(i + 3, k) == place(i, k + 1));
            }
        }
        lemma_listed_strips(args, i + 3, (n - 1) as nat, next);
        assert(all == listed_strips(args, i + 3, next));
        assert forall|j: int| 0 <= j < n - 1 implies index_at(args, #[trigger] place(i + 3, j))
            != Some(first.id) by {
            assert(place(i + 3, j) == place(i, j + 1));
            assert(index_at(args, place(i, 0)) != index_at(args, place(i, j + 1)));
        }
        assert(all[first.id - 1] == next[first.id - 1]);
        assert forall|j: int| 0 <= j < n implies ({
            let t = strip_at(args, #[trigger] place(i, j));
            t.id <= all.len() && all[t.id - 1] == t
        }) by {
            if j > 0 {
                assert(place(i + 3, j - 1) == place(i, j));
            }
        }
        assert forall|p: int|
            0 <= p < all.len() && (forall|j: int|
                0 <= j < n ==> index_at(args, #[trigger] place(i, j)) != Some((p + 1) as i32)) implies (
        if p < strips.len() {
            #[trigger] all[p] == strips[p]
        } else {
            all[p].id == 0
        }) by {
            assert(index_at(args, place(i, 0)) != Some((p + 1) as i32));
            assert forall|j: int| 0 <= j < n - 1 implies index_at(args, #[trigger] place(i + 3, j))
                != Some((p + 1) as i32) by {
                assert(place(i + 3, j) == place(i, j + 1));
            }
            if p < next.len() {
                assert(all[p] == next[p]);
            }
        }
    }
}

/// A list of all strips, each with its number, name and type, takes the place of what was
/// known of strips: each that is on it is known as listed, and no other one is.
pub proof fn lemma_strips_are_listed(s: StateView, args: Seq<ArgView>, n: nat)
    requires
        strips_from(args, 0, n),
    ensures
        ({
            let t = after_message(s, MessageView { addr: "/strip/list"@, args });
            &&& t == StateView { strips: t.strips, ..s }
            &&& forall|j: int|
                0 <= j < n ==> ({
                    let strip = strip_at(args, #[trigger] place(0, j));
                    strip.id <= t.strips.len() && t.strips[strip.id - 1] == strip
                })
            &&& forall|p: int|
                0 <= p < t.strips.len() && (forall|j: int|
                    0 <= j < n ==> index_at(args, #[trigger] place(0, j)) != Some((p + 1) as i32))
                    ==> (#[trigger] t.strips[p]).id == 0
        }),
{
    lemma_addresses();
    lemma_listed_strips(args, 0, n, Seq::empty());
    let t = after_message(s, MessageView { addr: "/strip/list"@, args });
    assert forall|j: int| 0 <= j < n implies ({
        let strip = strip_at(args, #[trigger] place(0, j));
        strip.id <= t.strips.len() && t.strips[strip.id - 1] == strip
    }) by {
        assert(place(0, j) == 3 * j);
    }
    assert forall|p: int|
        0 <= p < t.strips.len() && (forall|j: int|
            0 <= j < n ==> index_at(args, #[trigger] place(0, j)) != Some((p + 1) as i32)) implies (
    #[trigger] t.strips[p]).id == 0 by {
        assert forall|j: int| 0 <= j < n implies index_at(args, #[trigger] place(0, j)) != Some(
            (p + 1) as i32,
        ) by {
            assert(index_at(args, place(0, j)) != Some((p + 1) as i32));
        }
    }
}

/// Where a group of three arguments cannot be read, a list of plugins or strips ends in
/// front of it.
pub proof fn lemma_lists_end(args: Seq<ArgView>, i: int, strips: Seq<TrackView>)
    requires
        0 <= i,
    ensures
        i + 2 >= args.len() || index_at(args, i) is None || text_at(args, i + 1) is None ==> {
            &&& listed_plugins(args, i).len() == 0
            &&& listed_strips(args, i, strips) == strips
        },
        flag_at(args, i + 2) is None ==> listed_plugins(args, i).len() == 0,
{
}

/// A report that does not tell which strip and plugin it is about changes nothing and
/// reaches nobody.
pub proof fn lemma_incomplete_reports(s: StateView, args: Seq<ArgView>)
    requires
        index_at(args, 0) is None || index_at(args, 1) is None,
    ensures
        after_message(s, MessageView { addr: "/strip/plugin/inserted"@, args }) == s,
        after_message(s, MessageView { addr: "/strip/plugin/descriptor"@, args }) == s,
        after_message(s, MessageView { addr: "/strip/plugin/descriptor_end"@, args }) == s,
        after_message(s, MessageView { addr: "/strip/plugin/parameter/value"@, args }) == s,
        answer(MessageView { addr: "/strip/plugin/descriptor_end"@, args }) is None,
        answer(MessageView { addr: "/strip/plugin/parameter/value"@, args }) is None,
        answer(MessageView { addr: "/strip/plugin/parameter/values"@, args }) is None,
        index_at(args, 0) is None ==> after_message(
            s,
            MessageView { addr: "/strip/plugin/list"@, args },
        ) == s,
{
    lemma_addresses();
    lemma_arguments(args, 0);
    lemma_arguments(args, 1);
}

/// An input of a plugin that was described is numbered by how many inputs of this plugin
/// have lower parameter numbers, from one; and whoever waits for the description is told,
/// however many parameters there are.
pub proof fn lemma_inputs_are_counted<W>(
    s: StateView,
    p: Map<Waiting, W>,
    args: Seq<ArgView>,
    k: ParamKey,
    request: W,
)
    requires
        int_at(args, 0) == Some(k.ssid),
        int_at(args, 1) == Some(after(k.slot)),
    ensures
        ({
            let m = MessageView { addr: "/strip/plugin/descriptor_end"@, args };
            let t = after_message(s, m);
            let lower = s.ports.dom().filter(
                |x: ParamKey|
                    x.ssid == k.ssid && x.slot == k.slot && s.ports[x].is_input && x.param
                        < k.param,
            );
            &&& t.ports.dom() == s.ports.dom()
            &&& s.ports.contains_key(k) && s.ports[k].is_input ==> t.ports[k] == PortInfo {
                visible_index: Some((lower.len() + 1) as i32),
                ..s.ports[k]
            }
            &&& delivered(
                p.insert(Waiting::Descriptor { ssid: k.ssid, slot: k.slot }, request),
                m,
            ) == Some((request, ReplyView::Described))
        }),
{
    lemma_addresses();
    lemma_counted_back(k.slot);
    let t = after_message(s, MessageView { addr: "/strip/plugin/descriptor_end"@, args });
    assert(t.ports.dom() =~= s.ports.dom());
    assert(inputs_below(s.ports, k.ssid, k.slot, k.param as int) =~= s.ports.dom().filter(
        |x: ParamKey|
            x.ssid == k.ssid && x.slot == k.slot && s.ports[x].is_input && x.param < k.param,
    ));
}

/// A description that is too short changes nothing, and neither does one without the number
/// of the parameter or the flags; a parameter without a label is called unknown.
pub proof fn lemma_incomplete_description(s: StateView, args: Seq<ArgView>, k: ParamKey)
    ensures
        ({
            let t = after_message(s, MessageView { addr: "/strip/plugin/descriptor"@, args });
            &&& args.len() < 9 || index_at(args, 2) is None || int_at(args, 4) is None ==> t == s
            &&& args.len() >= 9 && index_at(args, 0) == Some(k.ssid) && index_at(args, 1) == Some(
                after(k.slot),
            ) && index_at(args, 2) == Some(k.param) && text_at(args, 3) is None && int_at(args, 4)
                is Some ==> t.names == s.names.insert(k, "unknown"@)
        }),
{
    lemma_addresses();
    lemma_counted_back(k.slot);
}

/// A value without the number of its parameter, or a reply without a value, changes nothing
/// and reaches nobody.
pub proof fn lemma_incomplete_values(s: StateView, args: Seq<ArgView>)
    ensures
        index_at(args, 2) is None || value_at(args, 3) is None ==> {
            let m = MessageView { addr: "/strip/plugin/parameter/value"@, args };
            after_message(s, m) == s && answer(m) is None
        },
        index_at(args, 2) is None ==> answer(
            MessageView { addr: "/strip/plugin/parameter/values"@, args },
        ) is None,
        int_at(args, 0) is None || int_at(args, 1) is None ==> {
            let m = MessageView { addr: "/strip/plugin/descriptor_end"@, args };
            after_message(s, m) == s && answer(m) is None
        },
        int_at(args, 0) is None ==> answer(
            MessageView { addr: "/mixpilot/reply/sample_rate"@, args },
        ) is None,
        value_at(args, 0) is None ==> answer(
            MessageView { addr: "/mixpilot/reply/auto_value"@, args },
        ) is None,
        text_at(args, 2) is None || text_at(args, 3) is None || flag_at(args, 4) is None
            ==> after_message(s, MessageView { addr: "/strip/plugin/inserted"@, args }) == s,
{
    lemma_addresses();
}

/// What is no number is left out of the values of all parameters: it makes no difference
/// where it stands behind them, and neither does it in front of them.
pub proof fn lemma_other_arguments_are_no_values(
    ssid: i32,
    slot: i32,
    n: i32,
    values: Seq<ArgView>,
    other: ArgView,
)
    requires
        other !is Float && other !is Double && other !is Int,
    ensures
        ({
            let head = seq![ArgView::Int(ssid), ArgView::Int(slot), ArgView::Int(n)];
            let addr = "/strip/plugin/parameter/values"@;
            let r = answer(MessageView { addr, args: head + values });
            &&& answer(MessageView { addr, args: head + values.push(other) }) == r
            &&& answer(MessageView { addr, args: head + (seq![other] + values) }) == r
        }),
{
    lemma_addresses();
    let head = seq![ArgView::Int(ssid), ArgView::Int(slot), ArgView::Int(n)];
    let args = head + values;
    let more = head + values.push(other);
    let shifted = head + (seq![other] + values);
    assert(more =~= args.push(other));
    lemma_value_behind(args, 3, other);
    lemma_value_in_front(args, shifted, 3);
}

/// What is no number does not count behind the values.
proof fn lemma_value_behind(args: Seq<ArgView>, i: int, other: ArgView)
    requires
        0 <= i <= args.len(),
        other !is Float && other !is Double && other !is Int,
    ensures
        listed_values(args.push(other), i) == listed_values(args, i),
    decreases args.len() - i,
{
    if i < args.len() {
        lemma_value_behind(args, i + 1, other);
        assert(args.push(other)[i] == args[i]);
    } else {
        assert(listed_values(args.push(other), i + 1) =~= Seq::<Single>::empty());
        assert(listed_values(args, i) =~= Seq::<Single>::empty());
    }
}

/// Values that stand one place further on are the same.
proof fn lemma_value_in_front(args: Seq<ArgView>, shifted: Seq<ArgView>, i: int)
    requires
        3 <= i <= args.len(),
        shifted.len() == args.len() + 1,
        forall|j: int| 3 <= j < args.len() ==> shifted[j + 1] == #[trigger] args[j],
        shifted[3] !is Float && shifted[3] !is Double && shifted[3] !is Int,
    ensures
        listed_values(shifted, i + 1) == listed_values(args, i),
        i == 3 ==> listed_values(shifted, i) == listed_values(args, i),
    decreases args.len() - i,
{
    if i < args.len() {
        lemma_value_in_front(args, shifted, i + 1);
        assert(shifted[i + 1] == args[i]);
    } else {
        assert(listed_values(shifted, i + 1) =~= Seq::<Single>::empty());
        assert(listed_values(args, i) =~= Seq::<Single>::empty());
    }
}

/// A name or a type for a strip whose number is not positive changes nothing, and neither
/// does one without an argument that tells it.
pub proof fn lemma_strip_without_number(s: StateView, n: i32, args: Seq<ArgView>)
    ensures
        n <= 0 || text_at(args, 0) is None ==> after_message(
            s,
            MessageView { addr: "/strip/name/"@ + decimal_text(n as int), args },
        ) == s,
        n <= 0 || args.len() == 0 ==> after_message(
            s,
            MessageView { addr: "/strip/type/"@ + decimal_text(n as int), args },
        ) == s,
{
    lemma_strip_addresses(n);
}

/// The first list of the plugins on a strip is noted though there are none on it; a later
/// one without any changes nothing.
pub proof fn lemma_empty_list(s: StateView, ssid: i32)
    ensures
        ({
            let args = seq![ArgView::Int(ssid)];
            let t = after_message(s, MessageView { addr: "/strip/plugin/list"@, args });
            &&& !s.plugins.contains_key(ssid) ==> t == StateView {
                plugins: s.plugins.insert(ssid, Seq::empty()),
                ..s
            }
            &&& s.plugins.contains_key(ssid) ==> t == s
        }),
{
    lemma_addresses();
}

/// The slot of the selected plugin is taken from the address, whatever follows it there;
/// an address that names a strip by something else than a number changes nothing.
pub proof fn lemma_other_addresses(
    s: StateView,
    slot: i32,
    rest: Seq<char>,
    t: Seq<char>,
    args: Seq<ArgView>,
)
    ensures
        s.selected_strip is Some ==> after_message(
            s,
            MessageView {
                addr: "/select/plugin/"@ + (decimal_text(slot as int) + "/"@ + rest),
                args,
            },
        ) == (StateView { selected_slot: Some(slot), ..s }),
        parsed_i32(t) is None ==> after_message(
            s,
            MessageView { addr: "/strip/name/"@ + t, args },
        ) == s && after_message(s, MessageView { addr: "/strip/type/"@ + t, args }) == s,
{
    lemma_longer_plugin_address(slot, rest);
    if parsed_i32(t) is None {
        lemma_addresses_without_number(t);
    }
}

/// Whether the arguments from `i` on are `n` groups of a number, a text and anything.
pub open spec fn groups_from(args: Seq<ArgView>, i: int, n: nat) -> bool {
    &&& 0 <= i
    &&& args.len() == i + 3 * n
    &&& forall|j: int|
        0 <= j < n ==> index_at(args, #[trigger] place(i, j)) is Some && text_at(
            args,
            place(i, j) + 1,
        ) is Some
}

/// One more group at the end of a list of strips is read behind all others.
proof fn lemma_listed_behind(
    args: Seq<ArgView>,
    more: Seq<ArgView>,
    i: int,
    n: nat,
    strips: Seq<TrackView>,
)
    requires
        groups_from(args, i, n),
        more.len() == 3,
    ensures
        listed_strips(args + more, i, strips) == listed_strips(
            args + more,
            args.len() as int,
            listed_strips(args, i, strips),
        ),
    decreases n,
{
    let all = args + more;
    if n > 0 {
        assert(place(i, 0) == i);
        assert(index_at(all, i) == index_at(args, i));
        assert(text_at(all, i + 1) == text_at(args, i + 1));
        assert(all[i + 2] == args[i + 2]);
        assert(groups_from(args, i + 3, (n - 1) as nat)) by {
            assert forall|j: int| 0 <= j < n - 1 implies index_at(
                args,
                #[trigger] place(i + 3, j),
            ) is Some && text_at(args, place(i + 3, j) + 1) is Some by {
                assert(place(i + 3, j) == place(i, j + 1));
            }
        }
        let id = index_at(args, i)->0;
        let next = if id > 0 {
            with_strip(strips, id, text_at(args, i + 1)->0, strip_at(args, i).track_type)
        } else {
            strips
        };
        lemma_listed_behind(args, more, i + 3, (n - 1) as nat, next);
    }
}

/// A list of strips that has one more at its end is read like the list, and then that one:
/// it takes its place, whether or not it was listed before. A number that is not positive
/// is passed over, and a list without any strip leaves none known.
pub proof fn lemma_one_more_strip(
    s: StateView,
    args: Seq<ArgView>,
    n: nat,
    id: i32,
    name: Seq<char>,
    kind: Seq<char>,
)
    requires
        groups_from(args, 0, n),
    ensures
        ({
            let more = seq![ArgView::Int(id), ArgView::Text(name), ArgView::Text(kind)];
            let addr = "/strip/list"@;
            let t = after_message(s, MessageView { addr, args });
            let u = after_message(s, MessageView { addr, args: args + more });
            &&& n == 0 ==> t.strips.len() == 0
            &&& id <= 0 ==> u == t
            &&& id > 0 ==> u.strips.len() == if id > t.strips.len() {
                id as int
            } else {
                t.strips.len() as int
            }
            &&& id > 0 ==> u.strips[id - 1] == TrackView { id, name, track_type: kind }
            &&& id > 0 ==> forall|i: int|
                0 <= i < t.strips.len() && i != id - 1 ==> #[trigger] u.strips[i] == t.strips[i]
        }),
{
    lemma_addresses();
    let more = seq![ArgView::Int(id), ArgView::Text(name), ArgView::Text(kind)];
    let all = args + more;
    let none = Seq::<TrackView>::empty();
    lemma_listed_behind(args, more, 0, n, none);
    let end = args.len() as int;
    assert(all[end] == more[0]);
    assert(all[end + 1] == more[1]);
    assert(all[end + 2] == more[2]);
    reveal_with_fuel(listed_strips, 2);
}

} // verus!
