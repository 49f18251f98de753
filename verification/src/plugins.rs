//! The plugins on a strip.

use crate::order::{ascends, filed, lemma_ordered, lemma_ordered_maps, ordered, put_in_order, Keyed};
use crate::slots::{before, one_less};
use vstd::prelude::*;
use vstd::string::*;

verus! {

/// A plugin on a strip. Slots are counted from zero.
#[derive(Debug)]
pub struct PluginEntry {
    pub slot: i32,
    pub name: String,
    pub enabled: bool,
}

/// What an entry says.
pub struct EntryView {
    pub slot: i32,
    pub name: Seq<char>,
    pub enabled: bool,
}

impl View for PluginEntry {
    type V = EntryView;

    open spec fn view(&self) -> EntryView {
        EntryView { slot: self.slot, name: self.name@, enabled: self.enabled }
    }
}

/// What the entries of a list say.
pub open spec fn entries_view(list: Seq<PluginEntry>) -> Seq<EntryView> {
    list.map_values(|e: PluginEntry| e@)
}

/// Whether the entry at `i` is for `slot`.
pub open spec fn slot_at(list: Seq<EntryView>, slot: i32, i: int) -> bool {
    0 <= i < list.len() && list[i].slot == slot
}

/// Whether some entry is for `slot`.
pub open spec fn has_slot(list: Seq<EntryView>, slot: i32) -> bool {
    exists|i: int| slot_at(list, slot, i)
}

/// Whether some entry for `slot` is enabled.
pub open spec fn has_enabled_slot(list: Seq<EntryView>, slot: i32) -> bool {
    exists|i: int| slot_at(list, slot, i) && list[i].enabled
}

/// The place of the first entry for `slot`; the length of the list where there is
/// none.
pub open spec fn first_for(list: Seq<EntryView>, slot: i32) -> nat
    decreases list.len(),
{
    if list.len() == 0 || list[0].slot == slot {
        0
    } else {
        1 + first_for(list.drop_first(), slot)
    }
}

/// The entries of `list` by ascending slot; entries for the same slot keep their
/// order.
pub open spec fn by_slot(list: Seq<EntryView>) -> Seq<EntryView> {
    ordered(list, |e: EntryView| e.slot as int)
}

/// What the arrival of `e` does to `list`, a copy of `known` with what arrived before:
/// a slot that is not among those of `known` is added, of one that is the first entry
/// takes over whether it is enabled.
pub open spec fn merged_with(
    list: Seq<EntryView>,
    known: Seq<EntryView>,
    e: EntryView,
) -> Seq<EntryView> {
    if has_slot(known, e.slot) {
        let i = first_for(list, e.slot) as int;
        list.update(i, EntryView { enabled: e.enabled, ..list[i] })
    } else {
        list.push(e)
    }
}

/// `known` with all that arrived, in order.
pub open spec fn merged(known: Seq<EntryView>, arrived: Seq<EntryView>) -> Seq<EntryView>
    decreases arrived.len(),
{
    if arrived.len() == 0 {
        known
    } else {
        merged_with(merged(known, arrived.drop_last()), known, arrived.last())
    }
}

/// `list` after `e` was inserted on the strip: the first entry for its slot is
/// replaced, or it is filed as a new one.
pub open spec fn inserted(list: Seq<EntryView>, e: EntryView) -> Seq<EntryView> {
    if has_slot(list, e.slot) {
        list.update(first_for(list, e.slot) as int, e)
    } else {
        by_slot(list.push(e))
    }
}

/// How many enabled entries stand in `list`.
pub open spec fn enabled_count(list: Seq<EntryView>) -> nat
    decreases list.len(),
{
    if list.len() == 0 {
        0
    } else {
        enabled_count(list.drop_last()) + if list.last().enabled {
            1nat
        } else {
            0
        }
    }
}

/// How many enabled entries are for a slot lower than `slot`.
pub open spec fn enabled_below(list: Seq<EntryView>, slot: i32) -> nat
    decreases list.len(),
{
    if list.len() == 0 {
        0
    } else {
        enabled_below(list.drop_last(), slot) + if list.last().enabled && list.last().slot < slot {
            1nat
        } else {
            0
        }
    }
}

/// The place of the first enabled entry for `slot` among the enabled entries, counted
/// from zero, where there is one.
pub open spec fn enabled_place(list: Seq<EntryView>, slot: i32) -> Option<nat>
    decreases list.len(),
{
    if list.len() == 0 {
        None
    } else {
        match enabled_place(list.drop_last(), slot) {
            Some(i) => Some(i),
            None => if list.last().enabled && list.last().slot == slot {
                Some(enabled_count(list.drop_last()))
            } else {
                None
            },
        }
    }
}

/// The number under which the plugin in `plugin_slot` (counted from one) can be
/// selected, given what is known of the strip: its place among the enabled plugins by
/// slot, counted from one. A slot of which nothing is known counts as its own number.
/// A plugin that is known and not enabled has none.
pub open spec fn selectable_index(known: Option<Seq<EntryView>>, plugin_slot: i32) -> Option<i32> {
    match known {
        None => Some(plugin_slot),
        Some(list) => {
            let slot = before(plugin_slot);
            if has_enabled_slot(list, slot) {
                Some((enabled_below(list, slot) + 1) as i32)
            } else if has_slot(list, slot) {
                None
            } else {
                Some(plugin_slot)
            }
        },
    }
}

/// The number under which a parameter change selects the plugin in `plugin_slot`
/// (counted from one): its place among the enabled plugins as they are listed, counted
/// from one, and the slot itself where it is not among them.
pub open spec fn settable_index(known: Option<Seq<EntryView>>, plugin_slot: i32) -> i32 {
    match known {
        None => plugin_slot,
        Some(list) => match enabled_place(list, before(plugin_slot)) {
            Some(i) => (i + 1) as i32,
            None => plugin_slot,
        },
    }
}

impl Clone for PluginEntry {
    fn clone(&self) -> (r: PluginEntry)
        ensures
            r@ == self@,
    {
        PluginEntry { slot: self.slot, name: self.name.clone(), enabled: self.enabled }
    }
}

/// Another list that says the same.
pub fn copy_list(list: &Vec<PluginEntry>) -> (r: Vec<PluginEntry>)
    ensures
        entries_view(r@) == entries_view(list@),
{
    let mut r: Vec<PluginEntry> = Vec::new();
    let mut i: usize = 0;
    while i < list.len()
        invariant
            i <= list.len(),
            r@.len() == i,
            forall|j: int| 0 <= j < i ==> (#[trigger] r@[j])@ == list@[j]@,
        decreases list.len() - i,
    {
        r.push(list[i].clone());
        i = i + 1;
    }
    assert(entries_view(r@) =~= entries_view(list@));
    r
}

/// What `first_for` says.
proof fn lemma_first_for(list: Seq<EntryView>, slot: i32)
    ensures
        first_for(list, slot) <= list.len(),
        forall|j: int| 0 <= j < first_for(list, slot) ==> (#[trigger] list[j]).slot != slot,
        first_for(list, slot) < list.len() ==> slot_at(list, slot, first_for(list, slot) as int),
        has_slot(list, slot) <==> first_for(list, slot) < list.len(),
    decreases list.len(),
{
    if list.len() > 0 && list[0].slot != slot {
        lemma_first_for(list.drop_first(), slot);
        let k = first_for(list.drop_first(), slot);
        assert forall|j: int| 0 <= j < k + 1 implies (#[trigger] list[j]).slot != slot by {
            if j > 0 {
                assert(list[j] == list.drop_first()[j - 1]);
            }
        }
        if k < list.drop_first().len() {
            assert(list[k as int + 1] == list.drop_first()[k as int]);
        }
        if has_slot(list, slot) {
            let i = choose|i: int| slot_at(list, slot, i);
            assert(slot_at(list.drop_first(), slot, i - 1));
        }
    }
    if first_for(list, slot) < list.len() {
        assert(slot_at(list, slot, first_for(list, slot) as int));
    }
}

/// The place of the first entry for `slot`, or the length of the list.
fn find_slot(list: &Vec<PluginEntry>, slot: i32) -> (at: usize)
    ensures
        at == first_for(entries_view(list@), slot),
        at < list.len() <==> has_slot(entries_view(list@), slot),
        at <= list.len(),
{
    let ghost view = entries_view(list@);
    proof {
        lemma_first_for(view, slot);
    }
    let mut i: usize = 0;
    while i < list.len()
        invariant
            i <= list.len(),
            view == entries_view(list@),
            forall|j: int| 0 <= j < i ==> (#[trigger] view[j]).slot != slot,
        decreases list.len() - i,
    {
        assert(view[i as int] == list@[i as int]@);
        if list[i].slot == slot {
            proof {
                lemma_first_for(view, slot);
                assert(slot_at(view, slot, i as int));
            }
            return i;
        }
        i = i + 1;
    }
    proof {
        lemma_first_for(view, slot);
    }
    i
}

impl Keyed for PluginEntry {
    open spec fn key(&self) -> int {
        self.slot as int
    }

    fn number(&self) -> (r: i32) {
        self.slot
    }
}

/// The entries of `list` by ascending slot; entries for the same slot keep their
/// order.
fn sort_by_slot(list: Vec<PluginEntry>) -> (r: Vec<PluginEntry>)
    ensures
        entries_view(r@) == by_slot(entries_view(list@)),
{
    proof {
        lemma_ordered_maps(
            list@,
            |e: PluginEntry| e.key(),
            |e: PluginEntry| e@,
            |e: EntryView| e.slot as int,
        );
    }
    put_in_order(list)
}

/// Merging leaves every known slot in its place.
proof fn lemma_merged_keeps(known: Seq<EntryView>, arrived: Seq<EntryView>)
    ensures
        merged(known, arrived).len() >= known.len(),
        forall|i: int|
            0 <= i < known.len() ==> (#[trigger] merged(known, arrived)[i]).slot == known[i].slot
                && merged(known, arrived)[i].name == known[i].name,
        forall|slot: i32|
            has_slot(known, slot) ==> #[trigger] first_for(merged(known, arrived), slot)
                == first_for(known, slot),
    decreases arrived.len(),
{
    if arrived.len() > 0 {
        lemma_merged_keeps(known, arrived.drop_last());
        let list = merged(known, arrived.drop_last());
        let e = arrived.last();
        lemma_first_for(list, e.slot);
        lemma_first_for(known, e.slot);
    }
    let m = merged(known, arrived);
    assert forall|slot: i32| has_slot(known, slot) implies #[trigger] first_for(m, slot)
        == first_for(known, slot) by {
        lemma_first_for(known, slot);
        lemma_first_for(m, slot);
        let k = first_for(known, slot) as int;
        assert(m[k].slot == known[k].slot);
        assert(slot_at(m, slot, k));
        let j = first_for(m, slot) as int;
        if j < k {
            assert(m[j].slot == known[j].slot);
        } else if k < j {
            assert(m[k].slot != slot);
        }
    }
}

/// `known` with all that arrived.
pub fn merge(known: &Vec<PluginEntry>, arrived: &Vec<PluginEntry>) -> (r: Vec<PluginEntry>)
    ensures
        entries_view(r@) == by_slot(merged(entries_view(known@), entries_view(arrived@))),
{
    let ghost old_view = entries_view(known@);
    let ghost new_view = entries_view(arrived@);
    let mut r = copy_list(known);
    let mut i: usize = 0;
    assert(new_view.take(0) =~= Seq::<EntryView>::empty());
    while i < arrived.len()
        invariant
            i <= arrived.len(),
            old_view == entries_view(known@),
            new_view == entries_view(arrived@),
            entries_view(r@) == merged(old_view, new_view.take(i as int)),
        decreases arrived.len() - i,
    {
        let ghost before = entries_view(r@);
        proof {
            assert(new_view.take(i + 1).drop_last() =~= new_view.take(i as int));
            assert(new_view.take(i + 1).last() == arrived@[i as int]@);
            lemma_merged_keeps(old_view, new_view.take(i as int));
            lemma_first_for(old_view, arrived@[i as int].slot);
            lemma_first_for(before, arrived@[i as int].slot);
        }
        if find_slot(known, arrived[i].slot) < known.len() {
            let at: usize = find_slot(&r, arrived[i].slot);
            assert(before[at as int] == r@[at as int]@);
            let entry = PluginEntry {
                slot: r[at].slot,
                name: r[at].name.clone(),
                enabled: arrived[i].enabled,
            };
            r.set(at, entry);
            assert(entries_view(r@) =~= merged_with(before, old_view, arrived@[i as int]@));
        } else {
            r.push(arrived[i].clone());
            assert(entries_view(r@) =~= merged_with(before, old_view, arrived@[i as int]@));
        }
        i = i + 1;
    }
    assert(new_view.take(i as int) =~= new_view);
    sort_by_slot(r)
}

/// `list` after `e` was inserted on the strip.
pub fn insert_plugin(list: &Vec<PluginEntry>, e: PluginEntry) -> (r: Vec<PluginEntry>)
    ensures
        entries_view(r@) == inserted(entries_view(list@), e@),
{
    let ghost view = entries_view(list@);
    let mut r = copy_list(list);
    let at: usize = find_slot(list, e.slot);
    if at < list.len() {
        r.set(at, e);
        assert(entries_view(r@) =~= inserted(view, e@));
        r
    } else {
        r.push(e);
        assert(entries_view(r@) =~= view.push(e@));
        sort_by_slot(r)
    }
}

/// The number under which the plugin in `plugin_slot` can be selected.
pub fn index_to_select(known: Option<&Vec<PluginEntry>>, plugin_slot: i32) -> (r: Option<i32>)
    ensures
        r == selectable_index(
            match known {
                Some(list) => Some(entries_view(list@)),
                None => None,
            },
            plugin_slot,
        ),
{
    match known {
        None => Some(plugin_slot),
        Some(list) => {
            let ghost view = entries_view(list@);
            let slot: i32 = one_less(plugin_slot);
            let mut below: usize = 0;
            let mut present: bool = false;
            let mut enabled: bool = false;
            let mut i: usize = 0;
            assert(view.take(0) =~= Seq::<EntryView>::empty());
            while i < list.len()
                invariant
                    i <= list.len(),
                    below <= i,
                    view == entries_view(list@),
                    below == enabled_below(view.take(i as int), slot),
                    present <==> exists|j: int| 0 <= j < i && slot_at(view, slot, j),
                    enabled <==> exists|j: int|
                        0 <= j < i && slot_at(view, slot, j) && view[j].enabled,
                decreases list.len() - i,
            {
                proof {
                    assert(view.take(i + 1).drop_last() =~= view.take(i as int));
                    assert(view.take(i + 1).last() == list@[i as int]@);
                    assert(view[i as int] == list@[i as int]@);
                }
                if list[i].slot == slot {
                    assert(slot_at(view, slot, i as int));
                    present = true;
                    if list[i].enabled {
                        enabled = true;
                    }
                }
                if list[i].enabled && list[i].slot < slot {
                    below = below + 1;
                }
                i = i + 1;
            }
            proof {
                assert(view.take(i as int) =~= view);
                if has_enabled_slot(view, slot) && !enabled {
                    let j = choose|j: int| slot_at(view, slot, j) && view[j].enabled;
                    assert(0 <= j < i);
                }
                if has_slot(view, slot) && !present {
                    let j = choose|j: int| slot_at(view, slot, j);
                    assert(0 <= j < i);
                }
                if enabled {
                    let j = choose|j: int|
                        0 <= j < i && slot_at(view, slot, j) && view[j].enabled;
                    lemma_enabled_below_leaves_room(view, slot, j);
                }
            }
            if enabled {
                Some((below + 1) as i32)
            } else if present {
                None
            } else {
                Some(plugin_slot)
            }
        },
    }
}

/// An entry for `slot` itself is not counted among those below it.
proof fn lemma_enabled_below_leaves_room(list: Seq<EntryView>, slot: i32, j: int)
    requires
        slot_at(list, slot, j),
    ensures
        enabled_below(list, slot) < list.len(),
    decreases list.len(),
{
    if j < list.len() - 1 {
        lemma_enabled_below_leaves_room(list.drop_last(), slot, j);
    } else {
        lemma_enabled_below_at_most(list.drop_last(), slot);
    }
}

/// No more entries are counted than there are.
proof fn lemma_enabled_below_at_most(list: Seq<EntryView>, slot: i32)
    ensures
        enabled_below(list, slot) <= list.len(),
    decreases list.len(),
{
    if list.len() > 0 {
        lemma_enabled_below_at_most(list.drop_last(), slot);
    }
}

/// The number under which a parameter change selects the plugin in `plugin_slot`.
pub fn index_to_set(known: Option<&Vec<PluginEntry>>, plugin_slot: i32) -> (r: i32)
    ensures
        r == settable_index(
            match known {
                Some(list) => Some(entries_view(list@)),
                None => None,
            },
            plugin_slot,
        ),
{
    match known {
        None => plugin_slot,
        Some(list) => {
            let ghost view = entries_view(list@);
            let slot: i32 = one_less(plugin_slot);
            let mut counted: usize = 0;
            let mut place: Option<usize> = None;
            let mut i: usize = 0;
            assert(view.take(0) =~= Seq::<EntryView>::empty());
            while i < list.len()
                invariant
                    i <= list.len(),
                    counted <= i,
                    view == entries_view(list@),
                    counted == enabled_count(view.take(i as int)),
                    match place {
                        Some(p) => p < i && enabled_place(view.take(i as int), slot) == Some(
                            p as nat,
                        ),
                        None => enabled_place(view.take(i as int), slot) is None,
                    },
                decreases list.len() - i,
            {
                proof {
                    assert(view.take(i + 1).drop_last() =~= view.take(i as int));
                    assert(view.take(i + 1).last() == list@[i as int]@);
                }
                if list[i].enabled {
                    if place.is_none() && list[i].slot == slot {
                        place = Some(counted);
                    }
                    counted = counted + 1;
                }
                i = i + 1;
            }
            assert(view.take(i as int) =~= view);
            match place {
                Some(p) => (p + 1) as i32,
                None => plugin_slot,
            }
        },
    }
}

/// Whether no two entries are for the same slot.
pub open spec fn slots_differ(list: Seq<EntryView>) -> bool {
    forall|i: int, j: int|
        0 <= i < j < list.len() ==> (#[trigger] list[i]).slot != (#[trigger] list[j]).slot
}

/// Putting entries in order adds none and loses none.
proof fn lemma_by_slot_contains(list: Seq<EntryView>)
    ensures
        forall|e: EntryView| #[trigger] by_slot(list).contains(e) <==> list.contains(e),
        forall|slot: i32| #[trigger] has_slot(by_slot(list), slot) <==> has_slot(list, slot),
        ascends(by_slot(list), |e: EntryView| e.slot as int),
{
    broadcast use vstd::seq_lib::group_to_multiset_ensures;

    let sorted = by_slot(list);
    lemma_ordered(list, |e: EntryView| e.slot as int, 0);
    assert forall|e: EntryView| #[trigger] sorted.contains(e) <==> list.contains(e) by {
        assert(sorted.to_multiset().count(e) == list.to_multiset().count(e));
    }
    assert forall|slot: i32| #[trigger] has_slot(sorted, slot) <==> has_slot(list, slot) by {
        if has_slot(sorted, slot) {
            let i = choose|i: int| slot_at(sorted, slot, i);
            assert(sorted.contains(sorted[i]));
            let j = choose|j: int| 0 <= j < list.len() && list[j] == sorted[i];
            assert(slot_at(list, slot, j));
        }
        if has_slot(list, slot) {
            let i = choose|i: int| slot_at(list, slot, i);
            assert(sorted.contains(list[i]));
            let j = choose|j: int| 0 <= j < sorted.len() && sorted[j] == list[i];
            assert(slot_at(sorted, slot, j));
        }
    }
}

/// The slots of a merged list are those that were known and those that arrived.
proof fn lemma_merged_slots(known: Seq<EntryView>, arrived: Seq<EntryView>)
    ensures
        forall|slot: i32| #[trigger]
            has_slot(merged(known, arrived), slot) <==> has_slot(known, slot) || has_slot(
                arrived,
                slot,
            ),
    decreases arrived.len(),
{
    let all = merged(known, arrived);
    if arrived.len() == 0 {
        assert forall|slot: i32| #[trigger] has_slot(all, slot) <==> has_slot(known, slot)
            || has_slot(arrived, slot) by {
            assert(forall|i: int| !slot_at(arrived, slot, i));
        }
    } else {
        let head = arrived.drop_last();
        let e = arrived.last();
        let list = merged(known, head);
        lemma_merged_slots(known, head);
        lemma_merged_keeps(known, head);
        lemma_first_for(list, e.slot);
        lemma_first_for(known, e.slot);
        assert forall|slot: i32| #[trigger] has_slot(all, slot) <==> has_slot(known, slot)
            || has_slot(arrived, slot) by {
            assert(has_slot(list, slot) <==> has_slot(known, slot) || has_slot(head, slot));
            if has_slot(head, slot) {
                let i = choose|i: int| slot_at(head, slot, i);
                assert(slot_at(arrived, slot, i));
            }
            if has_slot(arrived, slot) {
                let i = choose|i: int| slot_at(arrived, slot, i);
                if i < head.len() {
                    assert(slot_at(head, slot, i));
                }
            }
            if slot == e.slot {
                assert(slot_at(arrived, slot, head.len() as int));
            }
            if has_slot(list, slot) {
                let i = choose|i: int| slot_at(list, slot, i);
                assert(slot_at(all, slot, i));
            }
            if has_slot(all, slot) {
                let i = choose|i: int| slot_at(all, slot, i);
                if i < list.len() {
                    assert(slot_at(list, slot, i));
                }
            }
            if slot == e.slot && !has_slot(known, slot) {
                assert(slot_at(all, slot, list.len() as int));
            }
        }
    }
}

/// What a merged list says of an entry that arrived, where no slot arrived twice.
proof fn lemma_merged_entry(known: Seq<EntryView>, arrived: Seq<EntryView>, i: int) -> (k: int)
    requires
        0 <= i < arrived.len(),
        slots_differ(arrived),
    ensures
        0 <= k < merged(known, arrived).len(),
        merged(known, arrived)[k].slot == arrived[i].slot,
        merged(known, arrived)[k].enabled == arrived[i].enabled,
        !has_slot(known, arrived[i].slot) ==> merged(known, arrived)[k].name == arrived[i].name,
    decreases arrived.len(),
{
    let head = arrived.drop_last();
    let last = arrived.last();
    let list = merged(known, head);
    lemma_merged_keeps(known, head);
    lemma_first_for(list, last.slot);
    lemma_first_for(known, last.slot);
    if i == arrived.len() - 1 {
        if has_slot(known, last.slot) {
            first_for(list, last.slot) as int
        } else {
            list.len() as int
        }
    } else {
        assert(arrived[i].slot != arrived[arrived.len() - 1].slot);
        assert(slots_differ(head)) by {
            assert forall|a: int, b: int| 0 <= a < b < head.len() implies (
            #[trigger] head[a]).slot != (#[trigger] head[b]).slot by {
                assert(arrived[a].slot != arrived[b].slot);
            }
        }
        lemma_merged_entry(known, head, i)
    }
}

/// An entry for a new slot, filed into a list, does not make a slot occur twice.
proof fn lemma_filed_differ(list: Seq<EntryView>, e: EntryView, key: spec_fn(EntryView) -> int)
    requires
        key == (|e: EntryView| e.slot as int),
        slots_differ(list),
        !has_slot(list, e.slot),
    ensures
        slots_differ(filed(list, e, key)),
        forall|i: int|
            0 <= i < filed(list, e, key).len() ==> #[trigger] filed(list, e, key)[i] == e
                || list.contains(filed(list, e, key)[i]),
    decreases list.len(),
{
    let all = filed(list, e, key);
    assert forall|i: int| 0 <= i < list.len() implies (#[trigger] list[i]).slot != e.slot by {
        assert(!slot_at(list, e.slot, i));
    }
    if list.len() == 0 || key(list.last()) <= key(e) {
        assert forall|i: int| 0 <= i < all.len() implies #[trigger] all[i] == e || list.contains(
            all[i],
        ) by {
            if i < list.len() {
                assert(all[i] == list[i]);
            }
        }
    } else {
        let head = list.drop_last();
        assert(!has_slot(head, e.slot)) by {
            assert forall|i: int| !slot_at(head, e.slot, i) by {
                assert(!slot_at(list, e.slot, i));
            }
        }
        assert(slots_differ(head)) by {
            assert forall|i: int, j: int| 0 <= i < j < head.len() implies (
            #[trigger] head[i]).slot != (#[trigger] head[j]).slot by {
                assert(list[i].slot != list[j].slot);
            }
        }
        lemma_filed_differ(head, e, key);
        let rest = filed(head, e, key);
        assert forall|i: int| 0 <= i < rest.len() implies (#[trigger] rest[i]) == e
            || exists|k: int| 0 <= k < head.len() && list[k] == rest[i] by {
            let x = rest[i];
            if x != e {
                assert(head.contains(x));
                let k = choose|k: int| 0 <= k < head.len() && head[k] == x;
                assert(list[k] == x);
            }
        }
        let last = list.len() - 1;
        assert forall|i: int, j: int| 0 <= i < j < all.len() implies (#[trigger] all[i]).slot != (
        #[trigger] all[j]).slot by {
            assert(all[i] == rest[i]);
            if j < rest.len() {
                assert(all[j] == rest[j]);
            } else if rest[i] != e {
                let k = choose|k: int| 0 <= k < head.len() && list[k] == rest[i];
                assert(list[k].slot != list[last].slot);
            } else {
                assert(list[last].slot != e.slot);
            }
        }
        assert forall|i: int| 0 <= i < all.len() implies #[trigger] all[i] == e || list.contains(
            all[i],
        ) by {
            if i < rest.len() {
                assert(all[i] == rest[i]);
            } else {
                assert(all[i] == list[last]);
            }
        }
    }
}

/// Putting entries in order does not make a slot occur twice.
proof fn lemma_by_slot_differ(list: Seq<EntryView>)
    requires
        slots_differ(list),
    ensures
        slots_differ(by_slot(list)),
    decreases list.len(),
{
    if list.len() > 0 {
        let head = list.drop_last();
        let last = list.len() - 1;
        assert(slots_differ(head)) by {
            assert forall|i: int, j: int| 0 <= i < j < head.len() implies (
            #[trigger] head[i]).slot != (#[trigger] head[j]).slot by {
                assert(list[i].slot != list[j].slot);
            }
        }
        lemma_by_slot_differ(head);
        lemma_by_slot_contains(head);
        assert(!has_slot(head, list[last].slot)) by {
            assert forall|i: int| !slot_at(head, list[last].slot, i) by {
                if 0 <= i < head.len() {
                    assert(list[i].slot != list[last].slot);
                }
            }
        }
        assert(!has_slot(by_slot(head), list[last].slot));
        lemma_filed_differ(by_slot(head), list.last(), |e: EntryView| e.slot as int);
    }
}

/// Merging does not make a slot occur twice.
proof fn lemma_merged_differ(known: Seq<EntryView>, arrived: Seq<EntryView>)
    requires
        slots_differ(known),
        slots_differ(arrived),
    ensures
        slots_differ(merged(known, arrived)),
    decreases arrived.len(),
{
    if arrived.len() > 0 {
        let head = arrived.drop_last();
        let e = arrived.last();
        let list = merged(known, head);
        let all = merged(known, arrived);
        assert(slots_differ(head)) by {
            assert forall|i: int, j: int| 0 <= i < j < head.len() implies (
            #[trigger] head[i]).slot != (#[trigger] head[j]).slot by {
                assert(arrived[i].slot != arrived[j].slot);
            }
        }
        lemma_merged_differ(known, head);
        lemma_merged_slots(known, head);
        lemma_first_for(list, e.slot);
        assert(!has_slot(head, e.slot)) by {
            assert forall|i: int| !slot_at(head, e.slot, i) by {
                if 0 <= i < head.len() {
                    assert(arrived[i].slot != arrived[arrived.len() - 1].slot);
                }
            }
        }
        assert(has_slot(list, e.slot) <==> has_slot(known, e.slot));
        assert forall|i: int, j: int| 0 <= i < j < all.len() implies (#[trigger] all[i]).slot != (
        #[trigger] all[j]).slot by {
            if j < list.len() {
                assert(list[i].slot != list[j].slot);
            } else {
                assert(!slot_at(list, e.slot, i));
            }
        }
    }
}

/// A known entry whose slot did not arrive stays as it is.
proof fn lemma_merged_leaves(known: Seq<EntryView>, arrived: Seq<EntryView>, i: int)
    requires
        0 <= i < known.len(),
        !has_slot(arrived, known[i].slot),
    ensures
        i < merged(known, arrived).len(),
        merged(known, arrived)[i] == known[i],
    decreases arrived.len(),
{
    if arrived.len() > 0 {
        let head = arrived.drop_last();
        let slot = known[i].slot;
        assert(!has_slot(head, slot)) by {
            assert forall|j: int| !slot_at(head, slot, j) by {
                assert(!slot_at(arrived, slot, j));
            }
        }
        lemma_merged_leaves(known, head, i);
        assert(!slot_at(arrived, slot, arrived.len() - 1));
        lemma_merged_keeps(known, head);
        lemma_first_for(merged(known, head), arrived.last().slot);
        lemma_first_for(known, arrived.last().slot);
    }
}

/// An entry for a slot that was not known is there as it arrived.
proof fn lemma_merged_takes(known: Seq<EntryView>, arrived: Seq<EntryView>, i: int)
    requires
        0 <= i < arrived.len(),
        !has_slot(known, arrived[i].slot),
    ensures
        merged(known, arrived).contains(arrived[i]),
    decreases arrived.len(),
{
    let head = arrived.drop_last();
    let e = arrived.last();
    let list = merged(known, head);
    let all = merged(known, arrived);
    if i < head.len() {
        lemma_merged_takes(known, head, i);
        let k = choose|k: int| 0 <= k < list.len() && list[k] == arrived[i];
        lemma_merged_keeps(known, head);
        lemma_first_for(list, e.slot);
        lemma_first_for(known, e.slot);
        assert(all[k] == arrived[i]);
    } else {
        assert(all[list.len() as int] == e);
    }
}

/// A report of the plugins on a strip, merged with what is known: no plugin is lost, all
/// that are reported are there, known ones keep their names, and slots ascend. A plugin
/// in a slot that was not reported stays as it was, and one in a slot that was not known
/// is there as it was reported. Where no slot is reported twice, each reported plugin is
/// enabled or not as reported. Where no slot was known twice either, each slot is there
/// once, and a plugin that was both known and reported has the known name and is enabled
/// or not as reported.
pub proof fn lemma_merge(known: Seq<EntryView>, arrived: Seq<EntryView>)
    ensures
        ({
            let all = by_slot(merged(known, arrived));
            &&& ascends(all, |e: EntryView| e.slot as int)
            &&& forall|slot: i32| #[trigger]
                has_slot(all, slot) <==> has_slot(known, slot) || has_slot(arrived, slot)
            &&& forall|i: int|
                0 <= i < known.len() ==> exists|j: int|
                    0 <= j < all.len() && all[j].slot == (#[trigger] known[i]).slot && (
                    #[trigger] all[j]).name == known[i].name
            &&& forall|i: int|
                0 <= i < known.len() && !has_slot(arrived, (#[trigger] known[i]).slot)
                    ==> all.contains(known[i])
            &&& forall|i: int|
                0 <= i < arrived.len() && !has_slot(known, (#[trigger] arrived[i]).slot)
                    ==> all.contains(arrived[i])
            &&& slots_differ(arrived) ==> forall|i: int|
                0 <= i < arrived.len() ==> exists|j: int|
                    0 <= j < all.len() && all[j].slot == (#[trigger] arrived[i]).slot && (
                    #[trigger] all[j]).enabled == arrived[i].enabled
            &&& slots_differ(known) && slots_differ(arrived) ==> slots_differ(all)
            &&& slots_differ(known) && slots_differ(arrived) ==> forall|i: int, j: int|
                0 <= i < known.len() && 0 <= j < arrived.len() && (#[trigger] known[i]).slot == (
                #[trigger] arrived[j]).slot ==> all.contains(
                    EntryView { enabled: arrived[j].enabled, ..known[i] },
                )
        }),
{
    let m = merged(known, arrived);
    let all = by_slot(m);
    lemma_by_slot_contains(m);
    lemma_merged_slots(known, arrived);
    lemma_merged_keeps(known, arrived);
    assert forall|slot: i32| #[trigger] has_slot(all, slot) <==> has_slot(known, slot) || has_slot(
        arrived,
        slot,
    ) by {
        assert(has_slot(m, slot) <==> has_slot(known, slot) || has_slot(arrived, slot));
    }
    assert forall|i: int| 0 <= i < known.len() implies exists|j: int|
        0 <= j < all.len() && all[j].slot == (#[trigger] known[i]).slot && (#[trigger] all[j]).name
            == known[i].name by {
        assert(m[i].slot == known[i].slot && m[i].name == known[i].name);
        assert(m.contains(m[i]));
        assert(all.contains(m[i]));
    }
    assert forall|i: int|
        0 <= i < known.len() && !has_slot(arrived, (#[trigger] known[i]).slot) implies all.contains(
        known[i],
    ) by {
        lemma_merged_leaves(known, arrived, i);
        assert(m.contains(m[i]));
    }
    assert forall|i: int|
        0 <= i < arrived.len() && !has_slot(known, (#[trigger] arrived[i]).slot) implies all.contains(
        arrived[i],
    ) by {
        lemma_merged_takes(known, arrived, i);
    }
    if slots_differ(arrived) {
        assert forall|i: int| 0 <= i < arrived.len() implies exists|j: int|
            0 <= j < all.len() && all[j].slot == (#[trigger] arrived[i]).slot && (
            #[trigger] all[j]).enabled == arrived[i].enabled by {
            let k = lemma_merged_entry(known, arrived, i);
            assert(m.contains(m[k]));
            assert(all.contains(m[k]));
        }
    }
    if slots_differ(known) && slots_differ(arrived) {
        lemma_merged_differ(known, arrived);
        lemma_by_slot_differ(m);
        assert forall|i: int, j: int|
            0 <= i < known.len() && 0 <= j < arrived.len() && (#[trigger] known[i]).slot == (
            #[trigger] arrived[j]).slot implies all.contains(
            EntryView { enabled: arrived[j].enabled, ..known[i] },
        ) by {
            let k = lemma_merged_entry(known, arrived, j);
            assert(m[i].slot == known[i].slot && m[i].name == known[i].name);
            assert(k == i);
            assert(m[i] == EntryView { enabled: arrived[j].enabled, ..known[i] });
            assert(m.contains(m[i]));
        }
    }
}

/// A plugin that was inserted is on the list, and all plugins in other slots stay on it.
/// Where slots ascend and none occurs twice, it stays so.
pub proof fn lemma_inserted(list: Seq<EntryView>, e: EntryView)
    ensures
        inserted(list, e).contains(e),
        forall|x: EntryView| #[trigger]
            list.contains(x) && x.slot != e.slot ==> inserted(list, e).contains(x),
        forall|x: EntryView| #[trigger]
            inserted(list, e).contains(x) ==> x == e || list.contains(x),
        slots_differ(list) ==> slots_differ(inserted(list, e)),
        ascends(list, |e: EntryView| e.slot as int) ==> ascends(
            inserted(list, e),
            |e: EntryView| e.slot as int,
        ),
{
    let all = inserted(list, e);
    let key = |e: EntryView| e.slot as int;
    lemma_first_for(list, e.slot);
    if has_slot(list, e.slot) {
        let at = first_for(list, e.slot) as int;
        assert(all[at] == e);
        assert forall|i: int| 0 <= i < all.len() implies (#[trigger] all[i]).slot
            == list[i].slot by {}
        if ascends(list, key) {
            assert forall|i: int, j: int| 0 <= i < j < all.len() implies key(#[trigger] all[i])
                <= key(#[trigger] all[j]) by {
                assert(key(list[i]) <= key(list[j]));
            }
        }
        assert forall|x: EntryView| #[trigger]
            list.contains(x) && x.slot != e.slot implies all.contains(x) by {
            let i = choose|i: int| 0 <= i < list.len() && list[i] == x;
            assert(all[i] == x);
        }
        assert forall|x: EntryView| #[trigger] all.contains(x) implies x == e || list.contains(
            x,
        ) by {
            let i = choose|i: int| 0 <= i < all.len() && all[i] == x;
            if i != at {
                assert(list[i] == x);
            }
        }
    } else {
        let longer = list.push(e);
        lemma_by_slot_contains(longer);
        if slots_differ(list) {
            assert forall|i: int, j: int| 0 <= i < j < longer.len() implies (
            #[trigger] longer[i]).slot != (#[trigger] longer[j]).slot by {
                assert(!slot_at(list, e.slot, i));
            }
            lemma_by_slot_differ(longer);
        }
        assert(longer[list.len() as int] == e);
        assert(longer.contains(e));
        assert forall|x: EntryView| #[trigger]
            list.contains(x) && x.slot != e.slot implies all.contains(x) by {
            let i = choose|i: int| 0 <= i < list.len() && list[i] == x;
            assert(longer[i] == x);
            assert(longer.contains(x));
        }
        assert forall|x: EntryView| #[trigger] all.contains(x) implies x == e || list.contains(
            x,
        ) by {
            assert(longer.contains(x));
            let i = choose|i: int| 0 <= i < longer.len() && longer[i] == x;
            if i < list.len() {
                assert(list[i] == x);
            }
        }
    }
}

/// How the counts of enabled entries relate.
proof fn lemma_enabled_counts(list: Seq<EntryView>, a: i32, b: i32)
    requires
        a < b,
    ensures
        enabled_below(list, a) <= enabled_below(list, b) <= enabled_count(list) <= list.len(),
        has_enabled_slot(list, a) ==> enabled_below(list, a) < enabled_below(list, b),
        has_enabled_slot(list, b) ==> enabled_below(list, b) < enabled_count(list),
    decreases list.len(),
{
    if list.len() > 0 {
        let head = list.drop_last();
        lemma_enabled_counts(head, a, b);
        if has_enabled_slot(list, a) {
            let i = choose|i: int| slot_at(list, a, i) && list[i].enabled;
            if i < head.len() {
                assert(slot_at(head, a, i) && head[i].enabled);
            }
        }
        if has_enabled_slot(list, b) {
            let i = choose|i: int| slot_at(list, b, i) && list[i].enabled;
            if i < head.len() {
                assert(slot_at(head, b, i) && head[i].enabled);
            }
        }
    }
}

/// Plugins are selected by their place among the enabled ones: the number of an enabled
/// plugin is between one and how many are enabled, and plugins in higher slots have higher
/// numbers.
pub proof fn lemma_selectable_index(list: Seq<EntryView>, a: i32, b: i32)
    requires
        list.len() < i32::MAX,
        i32::MIN < a < b,
        has_enabled_slot(list, before(a)),
        has_enabled_slot(list, before(b)),
    ensures
        ({
            let first = selectable_index(Some(list), a);
            let second = selectable_index(Some(list), b);
            first is Some && second is Some && 1 <= first->0 < second->0 <= enabled_count(list)
        }),
{
    lemma_enabled_counts(list, before(a), before(b));
}

/// A plugin that is known not to be enabled cannot be selected; a slot of which nothing is
/// known counts as its own number.
pub proof fn lemma_selectable_index_of_others(list: Seq<EntryView>, plugin_slot: i32)
    requires
        !has_enabled_slot(list, before(plugin_slot)),
    ensures
        has_slot(list, before(plugin_slot)) ==> selectable_index(Some(list), plugin_slot) is None,
        !has_slot(list, before(plugin_slot)) ==> selectable_index(Some(list), plugin_slot) == Some(
            plugin_slot,
        ),
        selectable_index(None, plugin_slot) == Some(plugin_slot),
{
}

/// Where no enabled entry is for `slot` and no slot is higher, all enabled ones are below.
proof fn lemma_all_enabled_below(list: Seq<EntryView>, slot: i32)
    requires
        enabled_place(list, slot) is None,
        forall|i: int| 0 <= i < list.len() ==> (#[trigger] list[i]).slot <= slot,
    ensures
        enabled_count(list) == enabled_below(list, slot),
    decreases list.len(),
{
    if list.len() > 0 {
        let head = list.drop_last();
        assert forall|i: int| 0 <= i < head.len() implies (#[trigger] head[i]).slot <= slot by {
            assert(list[i].slot <= slot);
        }
        assert(list[list.len() - 1].slot <= slot);
        lemma_all_enabled_below(head, slot);
    }
}

/// The place of an enabled entry in a list whose slots ascend.
proof fn lemma_place_in_order(list: Seq<EntryView>, slot: i32)
    requires
        ascends(list, |e: EntryView| e.slot as int),
    ensures
        has_enabled_slot(list, slot) <==> enabled_place(list, slot) is Some,
        enabled_place(list, slot) matches Some(p) ==> p == enabled_below(list, slot),
    decreases list.len(),
{
    let key = |e: EntryView| e.slot as int;
    if list.len() > 0 {
        let head = list.drop_last();
        assert(ascends(head, key)) by {
            assert forall|i: int, j: int| 0 <= i < j < head.len() implies key(
                #[trigger] head[i],
            ) <= key(#[trigger] head[j]) by {
                assert(key(list[i]) <= key(list[j]));
            }
        }
        lemma_place_in_order(head, slot);
        if has_enabled_slot(list, slot) {
            let i = choose|i: int| slot_at(list, slot, i) && list[i].enabled;
            if i < head.len() {
                assert(slot_at(head, slot, i) && head[i].enabled);
            }
        }
        if has_enabled_slot(head, slot) {
            let i = choose|i: int| slot_at(head, slot, i) && head[i].enabled;
            assert(slot_at(list, slot, i) && list[i].enabled);
            assert(key(list[i]) <= key(list[list.len() - 1]));
        } else if list.last().enabled && list.last().slot == slot {
            assert(slot_at(list, slot, list.len() - 1) && list[list.len() - 1].enabled);
            assert forall|i: int| 0 <= i < head.len() implies (#[trigger] head[i]).slot
                <= slot by {
                assert(key(list[i]) <= key(list[list.len() - 1]));
            }
            lemma_all_enabled_below(head, slot);
        }
    } else {
        assert(!has_enabled_slot(list, slot)) by {
            assert(forall|i: int| !slot_at(list, slot, i));
        }
    }
}

/// Where slots ascend, an enabled plugin goes by the same number whether it is selected by
/// itself or for a change of a parameter.
pub proof fn lemma_indices_agree(list: Seq<EntryView>, plugin_slot: i32)
    requires
        ascends(list, |e: EntryView| e.slot as int),
        has_enabled_slot(list, before(plugin_slot)),
    ensures
        selectable_index(Some(list), plugin_slot) == Some(
            settable_index(Some(list), plugin_slot),
        ),
{
    lemma_place_in_order(list, before(plugin_slot));
}

/// How many plugins are enabled, and how many of them are in lower slots, is how many are
/// left of the list.
pub proof fn lemma_counts(list: Seq<EntryView>, slot: i32)
    ensures
        enabled_count(list) == list.filter(|e: EntryView| e.enabled).len(),
        enabled_below(list, slot) == list.filter(
            |e: EntryView| e.enabled && e.slot < slot,
        ).len(),
    decreases list.len(),
{
    reveal(Seq::filter);
    if list.len() > 0 {
        lemma_counts(list.drop_last(), slot);
    }
}

/// An enabled plugin is selected by one more than how many enabled ones are in lower slots.
pub proof fn lemma_selected_by_place(list: Seq<EntryView>, plugin_slot: i32, i: int)
    requires
        list.len() < i32::MAX,
        plugin_slot > i32::MIN,
        0 <= i < list.len(),
        list[i].enabled,
        list[i].slot == plugin_slot - 1,
    ensures
        selectable_index(Some(list), plugin_slot) == Some(
            (list.filter(|e: EntryView| e.enabled && e.slot < plugin_slot - 1).len() + 1) as i32,
        ),
{
    let slot = before(plugin_slot);
    assert(slot_at(list, slot, i) && list[i].enabled);
    lemma_counts(list, slot);
    assert((|e: EntryView| e.enabled && e.slot < slot) =~= (|e: EntryView|
        e.enabled && e.slot < plugin_slot - 1));
}

/// For a change of a parameter, an enabled plugin is selected by its place among the
/// enabled ones as they are listed; where it is not among them, by its slot.
pub proof fn lemma_set_by_place(list: Seq<EntryView>, plugin_slot: i32, i: int)
    requires
        list.len() < i32::MAX,
        plugin_slot > i32::MIN,
        0 <= i < list.len(),
        list[i].enabled,
        list[i].slot == plugin_slot - 1,
        forall|j: int| 0 <= j < i ==> !((#[trigger] list[j]).enabled && list[j].slot
            == plugin_slot - 1),
    ensures
        settable_index(Some(list), plugin_slot) == (list.take(i).filter(
            |e: EntryView| e.enabled,
        ).len() + 1) as i32,
{
    lemma_place(list, before(plugin_slot), i);
    lemma_counts(list.take(i), 0);
}

/// The place of the first enabled entry for a slot.
proof fn lemma_place(list: Seq<EntryView>, slot: i32, i: int)
    requires
        0 <= i < list.len(),
        list[i].enabled,
        list[i].slot == slot,
        forall|j: int| 0 <= j < i ==> !((#[trigger] list[j]).enabled && list[j].slot == slot),
    ensures
        enabled_place(list, slot) == Some(enabled_count(list.take(i))),
    decreases list.len(),
{
    let head = list.drop_last();
    if i < head.len() {
        assert forall|j: int| 0 <= j < i implies !((#[trigger] head[j]).enabled && head[j].slot
            == slot) by {
            assert(list[j] == head[j]);
        }
        lemma_place(head, slot, i);
        assert(head.take(i) =~= list.take(i));
    } else {
        assert(list.take(i) =~= head);
        lemma_no_place(head, slot);
    }
}

/// Where no enabled entry is for a slot, there is no place.
pub proof fn lemma_no_place(list: Seq<EntryView>, slot: i32)
    requires
        forall|j: int|
            0 <= j < list.len() ==> !((#[trigger] list[j]).enabled && list[j].slot == slot),
    ensures
        enabled_place(list, slot) is None,
    decreases list.len(),
{
    if list.len() > 0 {
        let head = list.drop_last();
        assert forall|j: int| 0 <= j < head.len() implies !((#[trigger] head[j]).enabled
            && head[j].slot == slot) by {
            assert(list[j] == head[j]);
        }
        assert(!(list[list.len() - 1].enabled && list[list.len() - 1].slot == slot));
        lemma_no_place(head, slot);
    }
}

} // verus!
