//! What the counters of a document say in plain numbers: how many attempts were merged, and how
//! many of them succeeded.

use crate::document::{
    attempts, counter_of, event_updates, lemma_merged_family_empty, lemma_merged_family_push,
    merged, slot_name, successes, DocumentView, SlotCounter, SlotFamily, SlotUpdate,
    StatsDocument,
};
use crate::merge_laws::{
    event_slot, law_empty_delta_changes_nothing, law_event_counts_once_in_each_family,
    law_every_family_counts_every_event, law_merge_is_associative, law_slot_names_are_distinct,
    lemma_total_insert, series_updates, total_attempts, EventView,
};
use vstd::prelude::*;

verus! {

/// The families of a document are its three maps, and a cluster without events has nothing in any
/// of them.
pub proof fn law_families_are_the_maps_of_a_document(document: DocumentView, stored: StatsDocument)
    ensures
        document.family(SlotFamily::Dow) == document.dow,
        document.family(SlotFamily::Dom) == document.dom,
        document.family(SlotFamily::Hod) == document.hod,
        stored@.dow == stored.dow@,
        stored@.dom == stored.dom@,
        stored@.hod == stored.hod@,
        stored.last_event_at is None ==> stored@.last_event_at is None,
        stored.last_event_at matches Some(at) ==> stored@.last_event_at == Some(at@),
        DocumentView::empty().dow == Map::<Seq<char>, SlotCounter>::empty(),
        DocumentView::empty().dom == Map::<Seq<char>, SlotCounter>::empty(),
        DocumentView::empty().hod == Map::<Seq<char>, SlotCounter>::empty(),
        DocumentView::empty().last_event_at is None,
{
}

/// A slot is named by its number in decimal, with no zero before it.
pub proof fn law_slot_names_are_decimal(slot: u8)
    ensures
        ({
            let name = slot_name(slot);
            let value = |i: int| name[i] as u32 - 48;
            &&& 1 <= name.len() <= 3
            &&& forall|i: int| 0 <= i < name.len() ==> '0' <= #[trigger] name[i] <= '9'
            &&& name.len() > 1 ==> name[0] != '0'
            &&& name.len() == 1 ==> slot == value(0)
            &&& name.len() == 2 ==> slot == 10 * value(0) + value(1)
            &&& name.len() == 3 ==> slot == 100 * value(0) + 10 * value(1) + value(2)
        }),
{
}

/// How often the slot of that name was attempted, as a family has it: zero where it is absent.
pub open spec fn tries(map: Map<Seq<char>, SlotCounter>, name: Seq<char>) -> int {
    if map.contains_key(name) {
        map[name].n as int
    } else {
        0
    }
}

/// How often the slot of that name succeeded, as a family has it: zero where it is absent.
pub open spec fn wins(map: Map<Seq<char>, SlotCounter>, name: Seq<char>) -> int {
    if map.contains_key(name) {
        map[name].k as int
    } else {
        0
    }
}

/// Whether a family has one more attempt in one slot, and is otherwise as before: the attempts go up
/// by one, and the successes by one if it succeeded, each unless it has reached the largest number
/// there is.
pub open spec fn has_one_more(
    before: Map<Seq<char>, SlotCounter>,
    after: Map<Seq<char>, SlotCounter>,
    name: Seq<char>,
    success: bool,
) -> bool {
    &&& after.contains_key(name)
    &&& tries(before, name) < u64::MAX ==> after[name].n == tries(before, name) + 1
    &&& tries(before, name) == u64::MAX ==> after[name].n == u64::MAX
    &&& success && wins(before, name) < u64::MAX ==> after[name].k == wins(before, name) + 1
    &&& success && wins(before, name) == u64::MAX ==> after[name].k == u64::MAX
    &&& !success ==> after[name].k == wins(before, name)
    &&& forall|other: Seq<char>|
        other != name ==> {
            &&& #[trigger] after.contains_key(other) <==> before.contains_key(other)
            &&& before.contains_key(other) ==> after[other] == before[other]
        }
}

/// One attempt counts once in its slot, and changes nothing else of the document.
pub proof fn law_one_attempt_counts_once(
    document: DocumentView,
    family: SlotFamily,
    slot: u8,
    success: bool,
    other: SlotFamily,
)
    ensures
        ({
            let after = merged(document, seq![(family, SlotUpdate { slot, success })]);
            &&& has_one_more(
                document.family(family),
                after.family(family),
                slot_name(slot),
                success,
            )
            &&& other != family ==> after.family(other) == document.family(other)
            &&& after.last_event_at == document.last_event_at
        }),
{
    let update = (family, SlotUpdate { slot, success });
    let none = Seq::<(SlotFamily, SlotUpdate)>::empty();
    assert(none.push(update) =~= seq![update]);
    lemma_merged_family_empty(document.family(family), family);
    lemma_merged_family_empty(document.family(other), other);
    lemma_merged_family_push(document.family(family), none, update, family);
    lemma_merged_family_push(document.family(other), none, update, other);
}

/// An event counts once in each family: in the slot of its day of the week, of its day of the month
/// and of its hour.
pub proof fn law_one_event_counts_once(
    document: DocumentView,
    dow: u8,
    dom: u8,
    hod: u8,
    success: bool,
)
    ensures
        ({
            let after = merged(document, event_updates(dow, dom, hod, success));
            &&& has_one_more(document.dow, after.dow, slot_name(dow), success)
            &&& has_one_more(document.dom, after.dom, slot_name(dom), success)
            &&& has_one_more(document.hod, after.hod, slot_name(hod), success)
            &&& after.last_event_at == document.last_event_at
        }),
{
    law_event_counts_once_in_each_family(document, dow, dom, hod, success, SlotFamily::Dow);
    law_event_counts_once_in_each_family(document, dow, dom, hod, success, SlotFamily::Dom);
    law_event_counts_once_in_each_family(document, dow, dom, hod, success, SlotFamily::Hod);
}

/// The attempts on one slot of a family.
pub open spec fn on_slot(family: SlotFamily, slot: u8) -> spec_fn((SlotFamily, SlotUpdate)) -> bool {
    |update: (SlotFamily, SlotUpdate)| update.0 == family && update.1.slot == slot
}

/// The successful attempts on one slot of a family.
pub open spec fn won_on_slot(family: SlotFamily, slot: u8) -> spec_fn(
    (SlotFamily, SlotUpdate),
) -> bool {
    |update: (SlotFamily, SlotUpdate)|
        update.0 == family && update.1.slot == slot && update.1.success
}

proof fn lemma_counts_are_lengths(
    updates: Seq<(SlotFamily, SlotUpdate)>,
    family: SlotFamily,
    slot: u8,
)
    ensures
        attempts(updates, family, slot_name(slot)) == updates.filter(on_slot(family, slot)).len(),
        successes(updates, family, slot_name(slot)) == updates.filter(
            won_on_slot(family, slot),
        ).len(),
    decreases updates.len(),
{
    reveal(Seq::filter);
    if updates.len() > 0 {
        lemma_counts_are_lengths(updates.drop_last(), family, slot);
        let last = updates.last();
        if slot_name(last.1.slot) == slot_name(slot) {
            law_slot_names_are_distinct(last.1.slot, slot);
        }
    }
}

/// Attempts and successes add up: a slot has as many more attempts as the delta holds for it, and as
/// many more successes as it holds successful ones, up to the largest number there is. It is there
/// if it was before or if the delta holds an attempt for it.
pub proof fn law_attempts_and_successes_add_up(
    document: DocumentView,
    updates: Seq<(SlotFamily, SlotUpdate)>,
    family: SlotFamily,
    slot: u8,
)
    ensures
        ({
            let before = document.family(family);
            let after = merged(document, updates).family(family);
            let name = slot_name(slot);
            let n = tries(before, name) + updates.filter(on_slot(family, slot)).len();
            let k = wins(before, name) + updates.filter(won_on_slot(family, slot)).len();
            &&& after.contains_key(name) <==> before.contains_key(name) || updates.filter(
                on_slot(family, slot),
            ).len() > 0
            &&& n <= u64::MAX ==> tries(after, name) == n
            &&& n > u64::MAX ==> tries(after, name) == u64::MAX
            &&& k <= u64::MAX ==> wins(after, name) == k
            &&& k > u64::MAX ==> wins(after, name) == u64::MAX
        }),
{
    lemma_counts_are_lengths(updates, family, slot);
    crate::document::lemma_successes_within_attempts(updates, family, slot_name(slot));
}

/// Starting from nothing, a slot counts the attempts on it and the successes among them.
pub proof fn law_counters_count_from_nothing(
    updates: Seq<(SlotFamily, SlotUpdate)>,
    family: SlotFamily,
    slot: u8,
)
    requires
        updates.len() <= u64::MAX,
    ensures
        ({
            let after = merged(DocumentView::empty(), updates).family(family);
            &&& tries(after, slot_name(slot)) == updates.filter(on_slot(family, slot)).len()
            &&& wins(after, slot_name(slot)) == updates.filter(won_on_slot(family, slot)).len()
        }),
{
    law_attempts_and_successes_add_up(DocumentView::empty(), updates, family, slot);
    lemma_counts_are_lengths(updates, family, slot);
    crate::document::lemma_successes_within_attempts(updates, family, slot_name(slot));
    updates.lemma_filter_len(on_slot(family, slot));
}

/// A slot that no `u8` names never comes into a document, and one that is there stays as it is.
pub proof fn law_other_names_are_left_alone(
    document: DocumentView,
    updates: Seq<(SlotFamily, SlotUpdate)>,
    family: SlotFamily,
    name: Seq<char>,
)
    requires
        forall|slot: u8| #[trigger] slot_name(slot) != name,
    ensures
        merged(document, updates).family(family).get(name) == document.family(family).get(name),
{
    crate::merge_laws::law_untouched_slots_stay(document, updates, family, name);
}

/// The number of successes that a family counts over all its slots.
pub open spec fn total_successes(map: Map<Seq<char>, SlotCounter>) -> nat
    decreases map.dom().len(),
    when map.dom().finite()
{
    if map.dom().len() == 0 {
        0
    } else {
        let name = map.dom().choose();
        map[name].k as nat + total_successes(map.remove(name))
    }
}

proof fn lemma_successes_remove(map: Map<Seq<char>, SlotCounter>, name: Seq<char>)
    requires
        map.dom().finite(),
        map.contains_key(name),
    ensures
        total_successes(map) == map[name].k + total_successes(map.remove(name)),
    decreases map.dom().len(),
{
    let first = map.dom().choose();
    assert(map.dom().contains(name));
    assert(map.dom().len() > 0);
    if first != name {
        lemma_successes_remove(map.remove(first), name);
        assert(map.remove(first).remove(name) =~= map.remove(name).remove(first));
        lemma_successes_remove(map.remove(name), first);
    }
}

/// The totals of a family are sums over its slots: nothing for no slot, and with a slot put in, what
/// that slot has in place of what it had before.
pub proof fn law_totals_are_sums(
    map: Map<Seq<char>, SlotCounter>,
    name: Seq<char>,
    counter: SlotCounter,
)
    requires
        map.dom().finite(),
    ensures
        total_attempts(Map::<Seq<char>, SlotCounter>::empty()) == 0,
        total_successes(Map::<Seq<char>, SlotCounter>::empty()) == 0,
        map.insert(name, counter).dom().finite(),
        total_attempts(map.insert(name, counter)) == total_attempts(map) - tries(map, name)
            + counter.n,
        total_successes(map.insert(name, counter)) == total_successes(map) - wins(map, name)
            + counter.k,
{
    lemma_total_insert(map, name, counter);
    let after = map.insert(name, counter);
    lemma_successes_remove(after, name);
    if map.contains_key(name) {
        lemma_successes_remove(map, name);
        assert(after.remove(name) =~= map.remove(name));
    } else {
        assert(after.remove(name) =~= map);
    }
}

/// A series of events holds the three attempts of each, one event after the other.
pub proof fn law_series_hold_three_attempts_per_event(events: Seq<EventView>, event: EventView)
    ensures
        series_updates(Seq::<EventView>::empty()).len() == 0,
        series_updates(events.push(event)) == series_updates(events) + seq![
            (SlotFamily::Dow, SlotUpdate { slot: event.dow, success: event.success }),
            (SlotFamily::Dom, SlotUpdate { slot: event.dom, success: event.success }),
            (SlotFamily::Hod, SlotUpdate { slot: event.hod, success: event.success }),
        ],
{
    assert(events.push(event).drop_last() =~= events);
}

/// The successful events.
pub open spec fn succeeded() -> spec_fn(EventView) -> bool {
    |event: EventView| event.success
}

/// Every family counts every success: in a document that starts empty and takes in a series of
/// events, the successes over each family's slots add up to the number of successful events, as the
/// attempts add up to the number of events.
pub proof fn law_every_family_counts_every_success(events: Seq<EventView>)
    requires
        events.len() <= u64::MAX,
    ensures
        ({
            let document = merged(DocumentView::empty(), series_updates(events));
            let count = events.filter(succeeded()).len();
            &&& total_successes(document.dow) == count
            &&& total_successes(document.dom) == count
            &&& total_successes(document.hod) == count
            &&& total_attempts(document.dow) == events.len()
            &&& total_attempts(document.dom) == events.len()
            &&& total_attempts(document.hod) == events.len()
        }),
    decreases events.len(),
{
    reveal(Seq::filter);
    let empty = DocumentView::empty();
    law_every_family_counts_every_event(events);
    if events.len() == 0 {
        law_empty_delta_changes_nothing(empty);
    } else {
        let last = events.last();
        let rest = events.drop_last();
        law_every_family_counts_every_success(rest);
        law_every_family_counts_every_event(rest);
        law_merge_is_associative(
            empty,
            series_updates(rest),
            event_updates(last.dow, last.dom, last.hod, last.success),
        );
        rest.lemma_filter_len(succeeded());
        let before = merged(empty, series_updates(rest));
        lemma_event_successes(before, last, SlotFamily::Dow);
        lemma_event_successes(before, last, SlotFamily::Dom);
        lemma_event_successes(before, last, SlotFamily::Hod);
    }
}

proof fn lemma_event_successes(before: DocumentView, event: EventView, family: SlotFamily)
    requires
        before.family(family).dom().finite(),
        total_successes(before.family(family)) < u64::MAX,
    ensures
        ({
            let after = merged(
                before,
                event_updates(event.dow, event.dom, event.hod, event.success),
            ).family(family);
            total_successes(after) == total_successes(before.family(family)) + if event.success {
                1int
            } else {
                0int
            }
        }),
{
    let map = before.family(family);
    let name = slot_name(event_slot(event.dow, event.dom, event.hod, family));
    law_event_counts_once_in_each_family(
        before,
        event.dow,
        event.dom,
        event.hod,
        event.success,
        family,
    );
    let counter = counter_of(map, name).counted(
        1,
        if event.success {
            1
        } else {
            0
        },
    );
    if map.contains_key(name) {
        lemma_successes_remove(map, name);
    }
    law_totals_are_sums(map, name, counter);
}

} // verus!
