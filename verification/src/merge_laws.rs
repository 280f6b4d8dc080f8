//! What holds of merging as a whole: the order in which attempts arrive does not matter, nothing
//! that was counted is lost, and every family counts every event.

use crate::document::{
    attempts, counter_of, event_updates, family_name, hits, lemma_successes_within_attempts, merged,
    merged_family, slot_name, successes, DocumentView, SlotCounter, SlotFamily, SlotUpdate,
};
use vstd::multiset::Multiset;
use vstd::prelude::*;

verus! {

/// Distinct slots have distinct names.
pub proof fn law_slot_names_are_distinct(left: u8, right: u8)
    requires
        slot_name(left) == slot_name(right),
    ensures
        left == right,
{
    let (a, b) = (slot_name(left), slot_name(right));
    assert(a.len() == b.len());
    assert(a[0] == b[0]);
    if a.len() > 1 {
        assert(a[1] == b[1]);
    }
    if a.len() > 2 {
        assert(a[2] == b[2]);
    }
}

/// Distinct families have distinct names.
pub proof fn law_family_names_are_distinct(left: SlotFamily, right: SlotFamily)
    requires
        family_name(left) == family_name(right),
    ensures
        left == right,
{
    reveal_strlit("dow");
    reveal_strlit("dom");
    reveal_strlit("hod");
    assert("dow"@[0] == 'd' && "dow"@[2] == 'w');
    assert("dom"@[0] == 'd' && "dom"@[2] == 'm');
    assert("hod"@[0] == 'h');
}

proof fn lemma_counts_concat(
    left: Seq<(SlotFamily, SlotUpdate)>,
    right: Seq<(SlotFamily, SlotUpdate)>,
    family: SlotFamily,
    name: Seq<char>,
)
    ensures
        attempts(left + right, family, name) == attempts(left, family, name) + attempts(
            right,
            family,
            name,
        ),
        successes(left + right, family, name) == successes(left, family, name) + successes(
            right,
            family,
            name,
        ),
    decreases right.len(),
{
    if right.len() == 0 {
        assert(left + right =~= left);
    } else {
        lemma_counts_concat(left, right.drop_last(), family, name);
        assert((left + right).drop_last() =~= left + right.drop_last());
    }
}

proof fn lemma_family_associative(
    map: Map<Seq<char>, SlotCounter>,
    left: Seq<(SlotFamily, SlotUpdate)>,
    right: Seq<(SlotFamily, SlotUpdate)>,
    family: SlotFamily,
)
    ensures
        merged_family(merged_family(map, left, family), right, family) == merged_family(
            map,
            left + right,
            family,
        ),
{
    let first = merged_family(map, left, family);
    let twice = merged_family(first, right, family);
    let once = merged_family(map, left + right, family);
    assert forall|name: Seq<char>|
        #![trigger twice.dom().contains(name)]
        twice.dom().contains(name) == once.dom().contains(name) && (once.dom().contains(name)
            ==> twice[name] == once[name]) by {
        lemma_counts_concat(left, right, family, name);
        lemma_successes_within_attempts(left, family, name);
        lemma_successes_within_attempts(right, family, name);
    }
    assert(twice =~= once);
}

/// Merging two deltas one after the other is merging their attempts at once.
pub proof fn law_merge_is_associative(
    document: DocumentView,
    left: Seq<(SlotFamily, SlotUpdate)>,
    right: Seq<(SlotFamily, SlotUpdate)>,
)
    ensures
        merged(merged(document, left), right) == merged(document, left + right),
{
    lemma_family_associative(document.dow, left, right, SlotFamily::Dow);
    lemma_family_associative(document.dom, left, right, SlotFamily::Dom);
    lemma_family_associative(document.hod, left, right, SlotFamily::Hod);
}

/// The updates that count in a slot, or the successes among them.
spec fn counting(family: SlotFamily, name: Seq<char>, wins: bool) -> spec_fn(
    (SlotFamily, SlotUpdate),
) -> bool {
    |update: (SlotFamily, SlotUpdate)|
        hits(update, family, name) && (wins ==> update.1.success)
}

proof fn lemma_counts_as_bag(
    updates: Seq<(SlotFamily, SlotUpdate)>,
    family: SlotFamily,
    name: Seq<char>,
)
    ensures
        attempts(updates, family, name) == updates.to_multiset().filter(
            counting(family, name, false),
        ).len(),
        successes(updates, family, name) == updates.to_multiset().filter(
            counting(family, name, true),
        ).len(),
    decreases updates.len(),
{
    broadcast use vstd::multiset::group_multiset_axioms, vstd::seq_lib::group_to_multiset_ensures;

    let any = counting(family, name, false);
    let won = counting(family, name, true);
    let bag = updates.to_multiset();
    if updates.len() == 0 {
        assert(bag =~= Multiset::empty());
        assert(bag.filter(any) =~= Multiset::empty());
        assert(bag.filter(won) =~= Multiset::empty());
    } else {
        let last = updates.last();
        let rest = updates.drop_last();
        lemma_counts_as_bag(rest, family, name);
        assert(updates =~= rest.push(last));
        assert(bag =~= rest.to_multiset().insert(last));
        assert(bag.filter(any) =~= if any(last) {
            rest.to_multiset().filter(any).insert(last)
        } else {
            rest.to_multiset().filter(any)
        });
        assert(bag.filter(won) =~= if won(last) {
            rest.to_multiset().filter(won).insert(last)
        } else {
            rest.to_multiset().filter(won)
        });
    }
}

proof fn lemma_family_order(
    map: Map<Seq<char>, SlotCounter>,
    left: Seq<(SlotFamily, SlotUpdate)>,
    right: Seq<(SlotFamily, SlotUpdate)>,
    family: SlotFamily,
)
    requires
        left.to_multiset() == right.to_multiset(),
    ensures
        merged_family(map, left, family) == merged_family(map, right, family),
{
    assert forall|name: Seq<char>|
        #![trigger attempts(left, family, name)]
        attempts(left, family, name) == attempts(right, family, name) && successes(
            left,
            family,
            name,
        ) == successes(right, family, name) by {
        lemma_counts_as_bag(left, family, name);
        lemma_counts_as_bag(right, family, name);
    }
    assert(merged_family(map, left, family) =~= merged_family(map, right, family));
}

/// The order of the attempts does not matter: two lists with the same attempts, each as often,
/// give the same document.
pub proof fn law_order_of_attempts_is_irrelevant(
    document: DocumentView,
    left: Seq<(SlotFamily, SlotUpdate)>,
    right: Seq<(SlotFamily, SlotUpdate)>,
)
    requires
        left.to_multiset() == right.to_multiset(),
    ensures
        merged(document, left) == merged(document, right),
{
    lemma_family_order(document.dow, left, right, SlotFamily::Dow);
    lemma_family_order(document.dom, left, right, SlotFamily::Dom);
    lemma_family_order(document.hod, left, right, SlotFamily::Hod);
}

/// Two deltas may be merged in either order.
pub proof fn law_merge_is_commutative(
    document: DocumentView,
    left: Seq<(SlotFamily, SlotUpdate)>,
    right: Seq<(SlotFamily, SlotUpdate)>,
)
    ensures
        merged(merged(document, left), right) == merged(merged(document, right), left),
{
    law_merge_is_associative(document, left, right);
    law_merge_is_associative(document, right, left);
    vstd::seq_lib::lemma_multiset_commutative(left, right);
    vstd::seq_lib::lemma_multiset_commutative(right, left);
    assert((left + right).to_multiset() =~= (right + left).to_multiset());
    law_order_of_attempts_is_irrelevant(document, left + right, right + left);
}

/// A delta without attempts changes nothing.
pub proof fn law_empty_delta_changes_nothing(document: DocumentView)
    ensures
        merged(document, seq![]) == document,
{
    assert(merged(document, seq![]) =~= document);
}

/// The slots that no attempt counts in stay as they are, present or absent, and so does the rest
/// of the document.
pub proof fn law_untouched_slots_stay(
    document: DocumentView,
    updates: Seq<(SlotFamily, SlotUpdate)>,
    family: SlotFamily,
    name: Seq<char>,
)
    requires
        forall|i: int| 0 <= i < updates.len() ==> !hits(#[trigger] updates[i], family, name),
    ensures
        merged(document, updates).family(family).get(name) == document.family(family).get(name),
        merged(document, updates).last_event_at == document.last_event_at,
{
    lemma_no_hits(updates, family, name);
    lemma_successes_within_attempts(updates, family, name);
}

proof fn lemma_no_hits(
    updates: Seq<(SlotFamily, SlotUpdate)>,
    family: SlotFamily,
    name: Seq<char>,
)
    requires
        forall|i: int| 0 <= i < updates.len() ==> !hits(#[trigger] updates[i], family, name),
    ensures
        attempts(updates, family, name) == 0,
    decreases updates.len(),
{
    if updates.len() > 0 {
        lemma_no_hits(updates.drop_last(), family, name);
    }
}

/// Absence means never attempted: starting from nothing, a slot is present just if an attempt counts
/// in it, and then it counts that attempt.
pub proof fn law_absent_slots_were_never_attempted(
    updates: Seq<(SlotFamily, SlotUpdate)>,
    family: SlotFamily,
    name: Seq<char>,
)
    ensures
        merged(DocumentView::empty(), updates).family(family).contains_key(name) <==> (exists|
            i: int,
        | 0 <= i < updates.len() && hits(#[trigger] updates[i], family, name)),
        merged(DocumentView::empty(), updates).family(family).contains_key(name) ==> merged(
            DocumentView::empty(),
            updates,
        ).family(family)[name].n > 0,
{
    if forall|i: int| 0 <= i < updates.len() ==> !hits(#[trigger] updates[i], family, name) {
        lemma_no_hits(updates, family, name);
    } else {
        let i = choose|i: int| 0 <= i < updates.len() && hits(#[trigger] updates[i], family, name);
        lemma_some_hit(updates, family, name, i);
    }
}

proof fn lemma_some_hit(
    updates: Seq<(SlotFamily, SlotUpdate)>,
    family: SlotFamily,
    name: Seq<char>,
    i: int,
)
    requires
        0 <= i < updates.len(),
        hits(updates[i], family, name),
    ensures
        attempts(updates, family, name) > 0,
    decreases updates.len(),
{
    if i < updates.len() - 1 {
        lemma_some_hit(updates.drop_last(), family, name, i);
    }
}

/// One attempt on its own fills its own family and no other.
pub proof fn law_one_attempt_fills_one_family(
    update: (SlotFamily, SlotUpdate),
    family: SlotFamily,
)
    ensures
        (merged(DocumentView::empty(), seq![update]).family(family) == Map::<
            Seq<char>,
            SlotCounter,
        >::empty()) <==> update.0 != family,
{
    let filled = merged(DocumentView::empty(), seq![update]).family(family);
    if update.0 == family {
        let name = slot_name(update.1.slot);
        assert(hits(seq![update][0], family, name));
        law_absent_slots_were_never_attempted(seq![update], family, name);
        assert(filled.contains_key(name));
    } else {
        assert forall|name: Seq<char>| !filled.contains_key(name) by {
            law_absent_slots_were_never_attempted(seq![update], family, name);
        }
        assert(filled =~= Map::<Seq<char>, SlotCounter>::empty());
    }
}

/// Counters are lifetime totals: no slot disappears and no count goes down.
pub proof fn law_counters_never_decrease(
    document: DocumentView,
    updates: Seq<(SlotFamily, SlotUpdate)>,
    family: SlotFamily,
    name: Seq<char>,
)
    ensures
        document.family(family).contains_key(name) ==> merged(document, updates).family(
            family,
        ).contains_key(name),
        counter_of(document.family(family), name).n <= counter_of(
            merged(document, updates).family(family),
            name,
        ).n,
        counter_of(document.family(family), name).k <= counter_of(
            merged(document, updates).family(family),
            name,
        ).k,
{
}

/// Successes are among the attempts: where no slot had more successes than attempts, none has
/// after a merge.
pub proof fn law_successes_stay_within_attempts(
    document: DocumentView,
    updates: Seq<(SlotFamily, SlotUpdate)>,
    family: SlotFamily,
    name: Seq<char>,
)
    requires
        counter_of(document.family(family), name).k <= counter_of(document.family(family), name).n,
    ensures
        counter_of(merged(document, updates).family(family), name).k <= counter_of(
            merged(document, updates).family(family),
            name,
        ).n,
{
    lemma_successes_within_attempts(updates, family, name);
}

/// Documents add up: what the attempts of two clusters count together in a slot is the sum of what
/// they count apart.
pub proof fn law_pooled_counters_are_sums(
    left: Seq<(SlotFamily, SlotUpdate)>,
    right: Seq<(SlotFamily, SlotUpdate)>,
    family: SlotFamily,
    name: Seq<char>,
)
    ensures
        ({
            let apart = counter_of(merged(DocumentView::empty(), right).family(family), name);
            counter_of(merged(DocumentView::empty(), left + right).family(family), name)
                == counter_of(merged(DocumentView::empty(), left).family(family), name).counted(
                apart.n as nat,
                apart.k as nat,
            )
        }),
{
    lemma_counts_concat(left, right, family, name);
    lemma_successes_within_attempts(left, family, name);
    lemma_successes_within_attempts(right, family, name);
}

impl DocumentView {
    /// Whether every family holds finitely many slots, as in every document there is.
    pub open spec fn is_finite(self) -> bool {
        self.dow.dom().finite() && self.dom.dom().finite() && self.hod.dom().finite()
    }

    /// Whether the families count the same number of attempts.
    pub open spec fn is_marginally_consistent(self) -> bool {
        total_attempts(self.dow) == total_attempts(self.dom) && total_attempts(self.dom)
            == total_attempts(self.hod)
    }
}

/// The number of attempts that a family counts over all its slots.
pub open spec fn total_attempts(map: Map<Seq<char>, SlotCounter>) -> nat
    decreases map.dom().len(),
    when map.dom().finite()
{
    if map.dom().len() == 0 {
        0
    } else {
        let name = map.dom().choose();
        map[name].n as nat + total_attempts(map.remove(name))
    }
}

proof fn lemma_total_remove(map: Map<Seq<char>, SlotCounter>, name: Seq<char>)
    requires
        map.dom().finite(),
        map.contains_key(name),
    ensures
        total_attempts(map) == map[name].n + total_attempts(map.remove(name)),
    decreases map.dom().len(),
{
    let first = map.dom().choose();
    assert(map.dom().contains(name));
    assert(map.dom().len() > 0);
    if first != name {
        lemma_total_remove(map.remove(first), name);
        assert(map.remove(first).remove(name) =~= map.remove(name).remove(first));
        lemma_total_remove(map.remove(name), first);
    }
}

pub(crate) proof fn lemma_total_insert(map: Map<Seq<char>, SlotCounter>, name: Seq<char>, counter: SlotCounter)
    requires
        map.dom().finite(),
    ensures
        map.insert(name, counter).dom().finite(),
        total_attempts(map.insert(name, counter)) + counter_of(map, name).n == total_attempts(map)
            + counter.n,
{
    let after = map.insert(name, counter);
    lemma_total_remove(after, name);
    if map.contains_key(name) {
        lemma_total_remove(map, name);
        assert(after.remove(name) =~= map.remove(name));
    } else {
        assert(after.remove(name) =~= map);
    }
}

/// The slot of an event in one of the families.
pub open spec fn event_slot(dow: u8, dom: u8, hod: u8, family: SlotFamily) -> u8 {
    match family {
        SlotFamily::Dow => dow,
        SlotFamily::Dom => dom,
        SlotFamily::Hod => hod,
    }
}

proof fn lemma_event_counts(
    dow: u8,
    dom: u8,
    hod: u8,
    success: bool,
    family: SlotFamily,
    name: Seq<char>,
)
    ensures
        attempts(event_updates(dow, dom, hod, success), family, name) == if name == slot_name(
            event_slot(dow, dom, hod, family),
        ) {
            1nat
        } else {
            0nat
        },
        successes(event_updates(dow, dom, hod, success), family, name) == if name == slot_name(
            event_slot(dow, dom, hod, family),
        ) && success {
            1nat
        } else {
            0nat
        },
{
    reveal_with_fuel(attempts, 4);
    reveal_with_fuel(successes, 4);
    let updates = event_updates(dow, dom, hod, success);
    assert(updates.drop_last() =~= seq![updates[0], updates[1]]);
    assert(updates.drop_last().drop_last() =~= seq![updates[0]]);
    assert(updates.drop_last().drop_last().drop_last() =~= seq![]);
}

/// An event counts one attempt in each family, in the slot it falls in and in no other.
pub proof fn law_event_counts_once_in_each_family(
    document: DocumentView,
    dow: u8,
    dom: u8,
    hod: u8,
    success: bool,
    family: SlotFamily,
)
    ensures
        ({
            let name = slot_name(event_slot(dow, dom, hod, family));
            merged(document, event_updates(dow, dom, hod, success)).family(family)
                == document.family(family).insert(
                name,
                counter_of(document.family(family), name).counted(
                    1,
                    if success {
                        1
                    } else {
                        0
                    },
                ),
            )
        }),
{
    let name = slot_name(event_slot(dow, dom, hod, family));
    let updates = event_updates(dow, dom, hod, success);
    assert forall|other: Seq<char>|
        #![trigger attempts(updates, family, other)]
        attempts(updates, family, other) == (if other == name {
            1nat
        } else {
            0nat
        }) && successes(updates, family, other) == (if other == name && success {
            1nat
        } else {
            0nat
        }) by {
        lemma_event_counts(dow, dom, hod, success, family, other);
    }
    let counter = counter_of(document.family(family), name).counted(
        1,
        if success {
            1
        } else {
            0
        },
    );
    assert(merged(document, updates).family(family) =~= document.family(family).insert(
        name,
        counter,
    ));
}

/// Families stay in step: after one more event they count the same number of attempts if they did
/// before, as long as none of its three counters is full.
pub proof fn law_events_keep_marginal_consistency(
    document: DocumentView,
    dow: u8,
    dom: u8,
    hod: u8,
    success: bool,
)
    requires
        document.is_finite(),
        document.is_marginally_consistent(),
        counter_of(document.dow, slot_name(dow)).n < u64::MAX,
        counter_of(document.dom, slot_name(dom)).n < u64::MAX,
        counter_of(document.hod, slot_name(hod)).n < u64::MAX,
    ensures
        merged(document, event_updates(dow, dom, hod, success)).is_finite(),
        merged(document, event_updates(dow, dom, hod, success)).is_marginally_consistent(),
        total_attempts(merged(document, event_updates(dow, dom, hod, success)).dow)
            == total_attempts(document.dow) + 1,
{
    lemma_event_total(document, dow, dom, hod, success, SlotFamily::Dow);
    lemma_event_total(document, dow, dom, hod, success, SlotFamily::Dom);
    lemma_event_total(document, dow, dom, hod, success, SlotFamily::Hod);
}

proof fn lemma_event_total(
    document: DocumentView,
    dow: u8,
    dom: u8,
    hod: u8,
    success: bool,
    family: SlotFamily,
)
    requires
        document.family(family).dom().finite(),
        counter_of(document.family(family), slot_name(event_slot(dow, dom, hod, family))).n
            < u64::MAX,
    ensures
        ({
            let after = merged(document, event_updates(dow, dom, hod, success)).family(family);
            &&& after.dom().finite()
            &&& total_attempts(after) == total_attempts(document.family(family)) + 1
        }),
{
    let name = slot_name(event_slot(dow, dom, hod, family));
    let before = counter_of(document.family(family), name);
    law_event_counts_once_in_each_family(document, dow, dom, hod, success, family);
    lemma_total_insert(
        document.family(family),
        name,
        before.counted(
            1,
            if success {
                1
            } else {
                0
            },
        ),
    );
}

/// What happened in one event: its slots in the three families, and its outcome.
pub struct EventView {
    pub dow: u8,
    pub dom: u8,
    pub hod: u8,
    pub success: bool,
}

/// The updates of a series of events.
pub open spec fn series_updates(events: Seq<EventView>) -> Seq<(SlotFamily, SlotUpdate)>
    decreases events.len(),
{
    if events.len() == 0 {
        seq![]
    } else {
        let last = events.last();
        series_updates(events.drop_last()) + event_updates(last.dow, last.dom, last.hod, last.success)
    }
}

/// Families stay in step over a coalesced write: after a whole series of events they count the same
/// number of attempts if they did before, as long as no counter runs full.
pub proof fn law_series_keep_marginal_consistency(document: DocumentView, events: Seq<EventView>)
    requires
        document.is_finite(),
        document.is_marginally_consistent(),
        forall|family: SlotFamily, name: Seq<char>|
            counter_of(document.family(family), name).n + #[trigger] attempts(
                series_updates(events),
                family,
                name,
            ) <= u64::MAX,
    ensures
        ({
            let after = merged(document, series_updates(events));
            &&& after.is_finite()
            &&& after.is_marginally_consistent()
            &&& total_attempts(after.dow) == total_attempts(document.dow) + events.len()
        }),
    decreases events.len(),
{
    if events.len() == 0 {
        law_empty_delta_changes_nothing(document);
    } else {
        let last = events.last();
        let rest = series_updates(events.drop_last());
        let more = event_updates(last.dow, last.dom, last.hod, last.success);
        assert forall|family: SlotFamily, name: Seq<char>|
            counter_of(document.family(family), name).n + #[trigger] attempts(rest, family, name)
                <= u64::MAX by {
            lemma_counts_concat(rest, more, family, name);
            assert(counter_of(document.family(family), name).n + attempts(
                series_updates(events),
                family,
                name,
            ) <= u64::MAX);
        }
        law_series_keep_marginal_consistency(document, events.drop_last());
        law_merge_is_associative(document, rest, more);
        lemma_room_for_event(document, events, SlotFamily::Dow);
        lemma_room_for_event(document, events, SlotFamily::Dom);
        lemma_room_for_event(document, events, SlotFamily::Hod);
        law_events_keep_marginal_consistency(
            merged(document, rest),
            last.dow,
            last.dom,
            last.hod,
            last.success,
        );
    }
}

/// Where no counter runs full over a series, the last event finds room.
proof fn lemma_room_for_event(document: DocumentView, events: Seq<EventView>, family: SlotFamily)
    requires
        events.len() > 0,
        forall|name: Seq<char>|
            counter_of(document.family(family), name).n + #[trigger] attempts(
                series_updates(events),
                family,
                name,
            ) <= u64::MAX,
    ensures
        ({
            let last = events.last();
            let before = merged(document, series_updates(events.drop_last())).family(family);
            counter_of(before, slot_name(event_slot(last.dow, last.dom, last.hod, family))).n
                < u64::MAX
        }),
{
    let last = events.last();
    let rest = series_updates(events.drop_last());
    let more = event_updates(last.dow, last.dom, last.hod, last.success);
    let name = slot_name(event_slot(last.dow, last.dom, last.hod, family));
    lemma_counts_concat(rest, more, family, name);
    lemma_event_counts(last.dow, last.dom, last.hod, last.success, family, name);
    assert(counter_of(document.family(family), name).n + attempts(
        series_updates(events),
        family,
        name,
    ) <= u64::MAX);
}

/// Every family counts every event: in a document that starts empty and takes in a series of
/// events, the attempts over each family's slots add up to the number of events.
pub proof fn law_every_family_counts_every_event(events: Seq<EventView>)
    requires
        events.len() <= u64::MAX,
    ensures
        ({
            let document = merged(DocumentView::empty(), series_updates(events));
            &&& document.is_finite()
            &&& document.is_marginally_consistent()
            &&& total_attempts(document.dow) == events.len()
            &&& total_attempts(document.dom) == events.len()
            &&& total_attempts(document.hod) == events.len()
        }),
    decreases events.len(),
{
    let empty = DocumentView::empty();
    if events.len() == 0 {
        law_empty_delta_changes_nothing(empty);
    } else {
        let last = events.last();
        let rest = events.drop_last();
        let before = merged(empty, series_updates(rest));
        law_every_family_counts_every_event(rest);
        law_merge_is_associative(
            empty,
            series_updates(rest),
            event_updates(last.dow, last.dom, last.hod, last.success),
        );
        lemma_counter_within_total(before.dow, slot_name(last.dow));
        lemma_counter_within_total(before.dom, slot_name(last.dom));
        lemma_counter_within_total(before.hod, slot_name(last.hod));
        law_events_keep_marginal_consistency(before, last.dow, last.dom, last.hod, last.success);
    }
}

proof fn lemma_counter_within_total(map: Map<Seq<char>, SlotCounter>, name: Seq<char>)
    requires
        map.dom().finite(),
    ensures
        counter_of(map, name).n <= total_attempts(map),
{
    if map.contains_key(name) {
        lemma_total_remove(map, name);
    }
}

} // verus!
