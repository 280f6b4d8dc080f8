//! The counters of one slot family, by the name of the slot.

use crate::document::SlotCounter;
use crate::text::{comes_before, same_text};
use vstd::prelude::*;

verus! {

/// The counters of one slot family. A slot that was never attempted is absent.
#[derive(Debug, PartialEq, Eq)]
pub struct SlotMap {
    entries: Vec<(String, SlotCounter)>,
}

/// Whether the names ascend, so that none occurs twice.
pub open spec fn names_ascend(entries: Seq<(String, SlotCounter)>) -> bool {
    forall|i: int, j: int|
        0 <= i < j < entries.len() ==> crate::text::precedes(
            (#[trigger] entries[i]).0@,
            (#[trigger] entries[j]).0@,
        )
}

/// Whether an entry has the given name.
pub open spec fn has_name(entries: Seq<(String, SlotCounter)>, name: Seq<char>) -> bool {
    exists|i: int| 0 <= i < entries.len() && (#[trigger] entries[i]).0@ == name
}

/// The position of an entry with the given name.
pub open spec fn position_of(entries: Seq<(String, SlotCounter)>, name: Seq<char>) -> int {
    choose|i: int| 0 <= i < entries.len() && (#[trigger] entries[i]).0@ == name
}

/// The counters of a list of entries, by name.
pub open spec fn by_name(entries: Seq<(String, SlotCounter)>) -> Map<Seq<char>, SlotCounter> {
    Map::new(
        |name: Seq<char>| has_name(entries, name),
        |name: Seq<char>| entries[position_of(entries, name)].1,
    )
}

/// Each entry is what its name leads to.
proof fn lemma_by_name(entries: Seq<(String, SlotCounter)>, i: int)
    requires
        names_ascend(entries),
        0 <= i < entries.len(),
    ensures
        by_name(entries).contains_pair(entries[i].0@, entries[i].1),
{
    let name = entries[i].0@;
    let at = position_of(entries, name);
    assert(has_name(entries, name));
    crate::text::lemma_precedes_total(name, name);
    if at < i {
        assert(crate::text::precedes(entries[at].0@, entries[i].0@));
    } else if i < at {
        assert(crate::text::precedes(entries[i].0@, entries[at].0@));
    }
}

/// A family holds the names of its entries and no others, each with the counter of its entry.
pub proof fn law_names_lead_to_their_entries(
    entries: Seq<(String, SlotCounter)>,
    i: int,
    name: Seq<char>,
)
    requires
        names_ascend(entries),
    ensures
        by_name(entries).contains_key(name) <==> (exists|j: int|
            0 <= j < entries.len() && (#[trigger] entries[j]).0@ == name),
        0 <= i < entries.len() && entries[i].0@ == name ==> by_name(entries)[name] == entries[i].1,
{
    if 0 <= i < entries.len() {
        lemma_by_name(entries, i);
    }
}

/// Entries stand in the order of their names: of two, the earlier has the lesser name.
pub proof fn law_entries_stand_in_order(entries: Seq<(String, SlotCounter)>)
    ensures
        names_ascend(entries) <==> (forall|i: int, j: int|
            0 <= i < j < entries.len() ==> crate::text::precedes(
                (#[trigger] entries[i]).0@,
                (#[trigger] entries[j]).0@,
            )),
{
}

/// A list of entries has finitely many names.
proof fn lemma_by_name_finite(entries: Seq<(String, SlotCounter)>)
    ensures
        by_name(entries).dom().finite(),
{
    let names = entries.map_values(|entry: (String, SlotCounter)| entry.0@);
    vstd::seq_lib::seq_to_set_is_finite(names);
    assert forall|name: Seq<char>| has_name(entries, name) implies names.to_set().contains(
        name,
    ) by {
        let i = position_of(entries, name);
        assert(names[i] == name);
    }
    assert(by_name(entries).dom().subset_of(names.to_set()));
    vstd::set_lib::lemma_len_subset(by_name(entries).dom(), names.to_set());
}

/// The order leaves one list of entries for given counters by name.
pub proof fn law_entries_are_determined_by_names(
    left: Seq<(String, SlotCounter)>,
    right: Seq<(String, SlotCounter)>,
)
    requires
        names_ascend(left),
        names_ascend(right),
        by_name(left) == by_name(right),
    ensures
        left.len() == right.len(),
        forall|i: int|
            0 <= i < left.len() ==> (#[trigger] left[i]).0@ == right[i].0@ && left[i].1
                == right[i].1,
    decreases left.len(),
{
    if left.len() == 0 {
        if right.len() > 0 {
            lemma_by_name(right, 0);
        }
    } else {
        lemma_by_name(left, left.len() - 1);
        let found = position_of(right, left.last().0@);
        assert(has_name(right, left.last().0@));
        lemma_by_name(right, right.len() - 1);
        let back = position_of(left, right.last().0@);
        assert(has_name(left, right.last().0@));
        crate::text::lemma_precedes_total(left.last().0@, right.last().0@);
        assert(left.last().0@ == right.last().0@);
        lemma_by_name_drop_last(left);
        lemma_by_name_drop_last(right);
        law_entries_are_determined_by_names(left.drop_last(), right.drop_last());
        assert forall|i: int| 0 <= i < left.len() implies (#[trigger] left[i]).0@ == right[i].0@
            && left[i].1 == right[i].1 by {
            if i < left.len() - 1 {
                assert(left.drop_last()[i].0@ == right.drop_last()[i].0@);
            }
        }
    }
}

proof fn lemma_by_name_drop_last(entries: Seq<(String, SlotCounter)>)
    requires
        names_ascend(entries),
        entries.len() > 0,
    ensures
        names_ascend(entries.drop_last()),
        by_name(entries.drop_last()) == by_name(entries).remove(entries.last().0@),
{
    let rest = entries.drop_last();
    let last = entries.last().0@;
    assert forall|name: Seq<char>|
        has_name(rest, name) <==> (has_name(entries, name) && name != last) by {
        if has_name(rest, name) {
            let i = position_of(rest, name);
            assert(entries[i].0@ == name);
            assert(crate::text::precedes(entries[i].0@, last));
            crate::text::lemma_precedes_total(name, last);
        }
        if has_name(entries, name) && name != last {
            let i = position_of(entries, name);
            assert(rest[i].0@ == name);
        }
    }
    assert forall|name: Seq<char>| has_name(rest, name) implies by_name(rest)[name] == by_name(
        entries,
    )[name] by {
        let i = position_of(rest, name);
        assert(rest[i] == entries[i]);
        lemma_by_name(entries, i);
    }
    assert(by_name(rest) =~= by_name(entries).remove(last));
}

impl View for SlotMap {
    type V = Map<Seq<char>, SlotCounter>;

    closed spec fn view(&self) -> Map<Seq<char>, SlotCounter> {
        by_name(self.entries@)
    }
}

impl SlotMap {
    #[verifier::type_invariant]
    spec fn is_ordered(self) -> bool {
        names_ascend(self.entries@)
    }

    /// A family without any slot.
    pub fn new() -> (map: Self)
        ensures
            map@ == Map::<Seq<char>, SlotCounter>::empty(),
    {
        let map = SlotMap { entries: Vec::new() };
        proof {
            assert(map@ =~= Map::<Seq<char>, SlotCounter>::empty());
        }
        map
    }

    /// Whether no slot is present.
    pub fn is_empty(&self) -> (empty: bool)
        ensures
            empty == (self@ == Map::<Seq<char>, SlotCounter>::empty()),
    {
        proof {
            use_type_invariant(self);
            if self.entries@.len() > 0 {
                lemma_by_name(self.entries@, 0);
            } else {
                assert(self@ =~= Map::<Seq<char>, SlotCounter>::empty());
            }
        }
        self.entries.len() == 0
    }

    /// The counters of the slot with the given name.
    pub fn get(&self, name: &str) -> (counter: Option<SlotCounter>)
        ensures
            counter == self@.get(name@),
    {
        proof {
            use_type_invariant(self);
        }
        for i in 0..self.entries.len()
            invariant
                names_ascend(self.entries@),
                forall|j: int| 0 <= j < i ==> (#[trigger] self.entries[j]).0@ != name@,
        {
            if same_text(self.entries[i].0.as_str(), name) {
                proof {
                    lemma_by_name(self.entries@, i as int);
                }
                return Some(self.entries[i].1);
            }
        }
        None
    }

    /// Sets the counters of the slot with the given name.
    pub fn insert(&mut self, name: String, counter: SlotCounter)
        ensures
            final(self)@ == old(self)@.insert(name@, counter),
    {
        proof {
            use_type_invariant(&*self);
        }
        let mut entries: Vec<(String, SlotCounter)> = Vec::new();
        std::mem::swap(&mut entries, &mut self.entries);
        let ghost before = entries@;
        let ghost key = name@;
        let mut at: usize = 0;
        while at < entries.len() && comes_before(entries[at].0.as_str(), name.as_str())
            invariant
                entries@ == before,
                name@ == key,
                at <= entries.len(),
                forall|j: int|
                    0 <= j < at ==> crate::text::precedes((#[trigger] before[j]).0@, key),
            decreases entries.len() - at,
        {
            at += 1;
        }
        if at < entries.len() && same_text(entries[at].0.as_str(), name.as_str()) {
            entries.set(at, (name, counter));
        } else {
            entries.insert(at, (name, counter));
        }
        proof {
            lemma_insert(before, entries@, at as int, key, counter);
        }
        self.entries = entries;
    }

    /// The slots with their counters, in the order of their names.
    pub fn entries(&self) -> (entries: &Vec<(String, SlotCounter)>)
        ensures
            names_ascend(entries@),
            self@ == by_name(entries@),
    {
        proof {
            use_type_invariant(self);
        }
        &self.entries
    }
}

/// A family holds finitely many slots.
pub proof fn law_slots_are_finite(map: SlotMap)
    ensures
        map@.dom().finite(),
{
    lemma_by_name_finite(map.entries@);
}

/// Replacing the entry of a name, or putting one where the name belongs, sets what the name leads
/// to and keeps the order.
proof fn lemma_insert(
    before: Seq<(String, SlotCounter)>,
    after: Seq<(String, SlotCounter)>,
    at: int,
    name: Seq<char>,
    counter: SlotCounter,
)
    requires
        names_ascend(before),
        0 <= at <= before.len(),
        forall|j: int| 0 <= j < at ==> crate::text::precedes((#[trigger] before[j]).0@, name),
        at < before.len() ==> !crate::text::precedes(before[at].0@, name),
        ({
            let replaced = at < before.len() && before[at].0@ == name;
            &&& after.len() == before.len() + if replaced { 0int } else { 1int }
            &&& forall|j: int| 0 <= j < at ==> after[j] == before[j]
            &&& after[at].0@ == name && after[at].1 == counter
            &&& forall|j: int|
                at < j < after.len() ==> after[j] == before[if replaced { j } else { j - 1 }]
        }),
    ensures
        names_ascend(after),
        by_name(after) == by_name(before).insert(name, counter),
{
    let replaced = at < before.len() && before[at].0@ == name;
    assert forall|j: int| at < j < after.len() implies crate::text::precedes(
        name,
        (#[trigger] after[j]).0@,
    ) by {
        if replaced {
            assert(crate::text::precedes(before[at].0@, before[j].0@));
        } else {
            crate::text::lemma_precedes_total(before[at].0@, name);
            if at < j - 1 {
                assert(crate::text::precedes(before[at].0@, before[j - 1].0@));
                crate::text::lemma_precedes_transitive(name, before[at].0@, before[j - 1].0@);
            }
        }
    }
    assert(names_ascend(after));
    let want = by_name(before).insert(name, counter);
    assert forall|key: Seq<char>| has_name(after, key) <==> want.dom().contains(key) by {
        if has_name(after, key) {
            let i = position_of(after, key);
            if i < at {
                assert(before[i].0@ == key);
            } else if i > at {
                let j = if replaced { i } else { i - 1 };
                assert(before[j].0@ == key);
            }
        }
        if key == name {
            assert(after[at].0@ == key);
        } else if has_name(before, key) {
            let i = position_of(before, key);
            let j = if i < at || replaced { i } else { i + 1 };
            assert(after[j].0@ == key);
        }
    }
    assert forall|key: Seq<char>| has_name(after, key) implies by_name(after)[key] == want[key] by {
        let i = position_of(after, key);
        if i == at {
        } else {
            let j = if i < at || replaced { i } else { i - 1 };
            assert(after[i] == before[j]);
            lemma_by_name(before, j);
            crate::text::lemma_precedes_total(key, name);
            crate::text::lemma_precedes_total(name, name);
        }
    }
    assert(by_name(after) =~= want);
}

impl Clone for SlotMap {
    fn clone(&self) -> (copy: Self)
        ensures
            copy@ == self@,
    {
        proof {
            use_type_invariant(self);
        }
        let mut entries: Vec<(String, SlotCounter)> = Vec::new();
        for i in 0..self.entries.len()
            invariant
                entries@ == self.entries@.take(i as int),
        {
            let entry = &self.entries[i];
            entries.push((entry.0.clone(), entry.1));
        }
        proof {
            assert(entries@ =~= self.entries@);
        }
        SlotMap { entries }
    }
}

impl Default for SlotMap {
    fn default() -> (map: Self)
        ensures
            map@ == Map::<Seq<char>, SlotCounter>::empty(),
    {
        SlotMap::new()
    }
}

} // verus!
