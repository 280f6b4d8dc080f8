//! The statistics document of a cluster, and how the outcome of an event is merged into it.

use crate::calendar::CivilDateTime;
use crate::slot_map::SlotMap;
use vstd::prelude::*;

verus! {

/// The retries attempted in one slot, and how many of them succeeded.
#[derive(Clone, Copy, Debug, PartialEq, Eq, Structural)]
pub struct SlotCounter {
    pub n: u64,
    pub k: u64,
}

/// The number that a counter holds for `count` events: it stays at its largest value.
pub open spec fn saturated(count: int) -> u64 {
    if count > u64::MAX {
        u64::MAX
    } else {
        count as u64
    }
}

impl SlotCounter {
    /// The counter after more attempts, some of them successful.
    pub open spec fn counted(self, attempts: nat, successes: nat) -> SlotCounter {
        SlotCounter { n: saturated(self.n + attempts), k: saturated(self.k + successes) }
    }

    /// Counts one attempt.
    pub fn record(&mut self, success: bool)
        ensures
            *final(self) == old(self).counted(
                1,
                if success {
                    1
                } else {
                    0
                },
            ),
            old(self).n < u64::MAX ==> final(self).n == old(self).n + 1,
            old(self).n == u64::MAX ==> final(self).n == u64::MAX,
            success && old(self).k < u64::MAX ==> final(self).k == old(self).k + 1,
            !success || old(self).k == u64::MAX ==> final(self).k == old(self).k,
    {
        self.n = self.n.saturating_add(1);
        if success {
            self.k = self.k.saturating_add(1);
        }
    }
}

impl Default for SlotCounter {
    fn default() -> (counter: Self)
        ensures
            counter == (SlotCounter { n: 0, k: 0 }),
    {
        SlotCounter { n: 0, k: 0 }
    }
}

/// One of the independent marginals that every event is counted in.
#[derive(Clone, Copy, Debug, PartialEq, Eq, Hash, Structural)]
pub enum SlotFamily {
    /// Day of the week, 0 for Monday.
    Dow,
    /// Day of the month, 0 for the first.
    Dom,
    /// Hour of the day.
    Hod,
}

/// The key of a family in a stored document.
pub open spec fn family_name(family: SlotFamily) -> Seq<char> {
    match family {
        SlotFamily::Dow => "dow"@,
        SlotFamily::Dom => "dom"@,
        SlotFamily::Hod => "hod"@,
    }
}

impl SlotFamily {
    /// The key of the family in a stored document.
    pub fn name(&self) -> (name: &'static str)
        ensures
            name@ == family_name(*self),
            *self is Dow ==> name@ == "dow"@,
            *self is Dom ==> name@ == "dom"@,
            *self is Hod ==> name@ == "hod"@,
    {
        match self {
            Self::Dow => "dow",
            Self::Dom => "dom",
            Self::Hod => "hod",
        }
    }
}

/// The slots that an event falls in, one of each family.
#[derive(Debug, PartialEq, Eq, Structural)]
pub struct EventSlots {
    pub dow: u8,
    pub dom: u8,
    pub hod: u8,
}

impl Clone for EventSlots {
    fn clone(&self) -> (copy: Self)
        ensures
            copy == *self,
    {
        EventSlots { dow: self.dow, dom: self.dom, hod: self.hod }
    }
}

/// The slots of a point in time: the day of the week from Monday on, the day of the month counted
/// from zero, and the hour.
pub open spec fn slots_at(ts: crate::calendar::CivilView) -> (int, int, int) {
    (crate::calendar::weekday(ts.year, ts.month, ts.day), ts.day - 1, ts.hour)
}

impl EventSlots {
    /// The slots of the point in time at which an event happened.
    pub fn from_primitive(ts: CivilDateTime) -> (slots: Self)
        ensures
            (slots.dow as int, slots.dom as int, slots.hod as int) == slots_at(ts@),
            slots.dow == crate::calendar::weekday(ts@.year, ts@.month, ts@.day),
            slots.dom + 1 == ts@.day,
            slots.hod == ts@.hour,
            slots.dow < 7,
            slots.dom < 31,
            slots.hod < 24,
    {
        Self { dow: ts.weekday_from_monday(), dom: ts.day().saturating_sub(1), hod: ts.hour() }
    }
}

/// One attempt in one slot.
#[derive(Clone, Copy, Debug)]
pub struct SlotUpdate {
    pub slot: u8,
    pub success: bool,
}

/// The attempts to merge into a document.
#[derive(Debug)]
pub struct StatsDelta {
    pub updates: Vec<(SlotFamily, SlotUpdate)>,
}

/// The updates of one event: one in each family, all with the event's outcome.
pub open spec fn event_updates(
    dow: u8,
    dom: u8,
    hod: u8,
    success: bool,
) -> Seq<(SlotFamily, SlotUpdate)> {
    seq![
        (SlotFamily::Dow, SlotUpdate { slot: dow, success }),
        (SlotFamily::Dom, SlotUpdate { slot: dom, success }),
        (SlotFamily::Hod, SlotUpdate { slot: hod, success }),
    ]
}

impl StatsDelta {
    /// The attempt of one event, counted once in each family.
    pub fn for_event(slots: EventSlots, success: bool) -> (delta: Self)
        ensures
            delta.updates@ == event_updates(slots.dow, slots.dom, slots.hod, success),
            delta.updates@.len() == 3,
            delta.updates@[0] == (SlotFamily::Dow, SlotUpdate { slot: slots.dow, success }),
            delta.updates@[1] == (SlotFamily::Dom, SlotUpdate { slot: slots.dom, success }),
            delta.updates@[2] == (SlotFamily::Hod, SlotUpdate { slot: slots.hod, success }),
    {
        let updates = vec![
            (SlotFamily::Dow, SlotUpdate { slot: slots.dow, success }),
            (SlotFamily::Dom, SlotUpdate { slot: slots.dom, success }),
            (SlotFamily::Hod, SlotUpdate { slot: slots.hod, success }),
        ];
        proof {
            assert(updates@ =~= event_updates(slots.dow, slots.dom, slots.hod, success));
        }
        Self { updates }
    }
}

impl Clone for StatsDelta {
    fn clone(&self) -> (copy: Self)
        ensures
            copy.updates@ == self.updates@,
    {
        let mut updates: Vec<(SlotFamily, SlotUpdate)> = Vec::new();
        for i in 0..self.updates.len()
            invariant
                updates@ == self.updates@.take(i as int),
        {
            updates.push(self.updates[i]);
        }
        proof {
            assert(updates@ =~= self.updates@);
        }
        StatsDelta { updates }
    }
}

/// The counters of a cluster, family by family.
#[derive(Debug, PartialEq, Eq)]
pub struct StatsDocument {
    pub dow: SlotMap,
    pub dom: SlotMap,
    pub hod: SlotMap,
    pub last_event_at: Option<String>,
}

/// What a [`StatsDocument`] stands for.
#[verifier::ext_equal]
pub struct DocumentView {
    pub dow: Map<Seq<char>, SlotCounter>,
    pub dom: Map<Seq<char>, SlotCounter>,
    pub hod: Map<Seq<char>, SlotCounter>,
    pub last_event_at: Option<Seq<char>>,
}

impl DocumentView {
    /// The document of a cluster without events.
    pub open spec fn empty() -> DocumentView {
        DocumentView { dow: Map::empty(), dom: Map::empty(), hod: Map::empty(), last_event_at: None }
    }

    /// The counters of one family.
    pub open spec fn family(self, family: SlotFamily) -> Map<Seq<char>, SlotCounter> {
        match family {
            SlotFamily::Dow => self.dow,
            SlotFamily::Dom => self.dom,
            SlotFamily::Hod => self.hod,
        }
    }
}

impl View for StatsDocument {
    type V = DocumentView;

    open spec fn view(&self) -> DocumentView {
        DocumentView {
            dow: self.dow@,
            dom: self.dom@,
            hod: self.hod@,
            last_event_at: crate::text::string_view(self.last_event_at),
        }
    }
}

impl Clone for StatsDocument {
    fn clone(&self) -> (copy: Self)
        ensures
            copy@ == self@,
    {
        StatsDocument {
            dow: self.dow.clone(),
            dom: self.dom.clone(),
            hod: self.hod.clone(),
            last_event_at: match &self.last_event_at {
                Some(at) => Some(at.clone()),
                None => None,
            },
        }
    }
}

impl Default for StatsDocument {
    fn default() -> (document: Self)
        ensures
            document@ == DocumentView::empty(),
    {
        StatsDocument {
            dow: SlotMap::new(),
            dom: SlotMap::new(),
            hod: SlotMap::new(),
            last_event_at: None,
        }
    }
}

/// The decimal digit for a number below ten.
pub open spec fn digit(value: int) -> char {
    (('0' as u8 + value) as u8) as char
}

/// The name of a slot in a document: its number in decimal.
pub open spec fn slot_name(slot: u8) -> Seq<char> {
    if slot < 10 {
        seq![digit(slot as int)]
    } else if slot < 100 {
        seq![digit(slot as int / 10), digit(slot as int % 10)]
    } else {
        seq![digit(slot as int / 100), digit(slot as int / 10 % 10), digit(slot as int % 10)]
    }
}

/// Whether an update counts in the slot with the given name.
pub open spec fn hits(
    update: (SlotFamily, SlotUpdate),
    family: SlotFamily,
    name: Seq<char>,
) -> bool {
    update.0 == family && slot_name(update.1.slot) == name
}

/// How many updates count in the slot with the given name.
pub open spec fn attempts(
    updates: Seq<(SlotFamily, SlotUpdate)>,
    family: SlotFamily,
    name: Seq<char>,
) -> nat
    decreases updates.len(),
{
    if updates.len() == 0 {
        0
    } else {
        attempts(updates.drop_last(), family, name) + if hits(updates.last(), family, name) {
            1nat
        } else {
            0nat
        }
    }
}

/// How many of the updates that count in the slot with the given name are successes.
pub open spec fn successes(
    updates: Seq<(SlotFamily, SlotUpdate)>,
    family: SlotFamily,
    name: Seq<char>,
) -> nat
    decreases updates.len(),
{
    if updates.len() == 0 {
        0
    } else {
        successes(updates.drop_last(), family, name) + if hits(updates.last(), family, name)
            && updates.last().1.success {
            1nat
        } else {
            0nat
        }
    }
}

/// The counter of a slot: an absent slot was never attempted.
pub open spec fn counter_of(map: Map<Seq<char>, SlotCounter>, name: Seq<char>) -> SlotCounter {
    if map.contains_key(name) {
        map[name]
    } else {
        SlotCounter { n: 0, k: 0 }
    }
}

/// A family after the given updates: a slot is present if it was or if an update counts in it.
pub open spec fn merged_family(
    map: Map<Seq<char>, SlotCounter>,
    updates: Seq<(SlotFamily, SlotUpdate)>,
    family: SlotFamily,
) -> Map<Seq<char>, SlotCounter> {
    Map::new(
        |name: Seq<char>| map.contains_key(name) || attempts(updates, family, name) > 0,
        |name: Seq<char>|
            counter_of(map, name).counted(
                attempts(updates, family, name),
                successes(updates, family, name),
            ),
    )
}

/// A document after the given updates.
pub open spec fn merged(
    document: DocumentView,
    updates: Seq<(SlotFamily, SlotUpdate)>,
) -> DocumentView {
    DocumentView {
        dow: merged_family(document.dow, updates, SlotFamily::Dow),
        dom: merged_family(document.dom, updates, SlotFamily::Dom),
        hod: merged_family(document.hod, updates, SlotFamily::Hod),
        last_event_at: document.last_event_at,
    }
}

/// Without updates a family stays as it is.
pub(crate) proof fn lemma_merged_family_empty(map: Map<Seq<char>, SlotCounter>, family: SlotFamily)
    ensures
        merged_family(map, seq![], family) == map,
{
    assert(merged_family(map, seq![], family) =~= map);
}

/// One more update touches its own slot, in its own family, and nothing else.
pub(crate) proof fn lemma_merged_family_push(
    map: Map<Seq<char>, SlotCounter>,
    updates: Seq<(SlotFamily, SlotUpdate)>,
    update: (SlotFamily, SlotUpdate),
    family: SlotFamily,
)
    ensures
        merged_family(map, updates.push(update), family) == if update.0 == family {
            let name = slot_name(update.1.slot);
            let so_far = merged_family(map, updates, family);
            so_far.insert(
                name,
                counter_of(so_far, name).counted(
                    1,
                    if update.1.success {
                        1
                    } else {
                        0
                    },
                ),
            )
        } else {
            merged_family(map, updates, family)
        },
{
    let name = slot_name(update.1.slot);
    let so_far = merged_family(map, updates, family);
    let after = merged_family(map, updates.push(update), family);
    assert(updates.push(update).drop_last() =~= updates);
    assert forall|other: Seq<char>| true implies successes(updates, family, other) <= attempts(
        updates,
        family,
        other,
    ) by {
        lemma_successes_within_attempts(updates, family, other);
    }
    if update.0 == family {
        let counter = counter_of(so_far, name).counted(
            1,
            if update.1.success {
                1
            } else {
                0
            },
        );
        assert(after =~= so_far.insert(name, counter));
    } else {
        assert(after =~= so_far);
    }
}

/// No slot has more successes than attempts.
pub(crate) proof fn lemma_successes_within_attempts(
    updates: Seq<(SlotFamily, SlotUpdate)>,
    family: SlotFamily,
    name: Seq<char>,
)
    ensures
        successes(updates, family, name) <= attempts(updates, family, name),
    decreases updates.len(),
{
    if updates.len() > 0 {
        lemma_successes_within_attempts(updates.drop_last(), family, name);
    }
}

/// The name of a slot in a document.
fn name_of_slot(slot: u8) -> (name: String)
    ensures
        name@ == slot_name(slot),
{
    let mut name = String::new();
    if slot >= 100 {
        name.push(('0' as u8 + slot / 100) as char);
    }
    if slot >= 10 {
        name.push(('0' as u8 + slot / 10 % 10) as char);
    }
    name.push(('0' as u8 + slot % 10) as char);
    proof {
        assert(name@ =~= slot_name(slot));
    }
    name
}

/// Counts one attempt in a slot, which starts at zero where it is absent.
fn count_attempt(map: &mut SlotMap, update: SlotUpdate)
    ensures
        final(map)@ == old(map)@.insert(
            slot_name(update.slot),
            counter_of(old(map)@, slot_name(update.slot)).counted(
                1,
                if update.success {
                    1
                } else {
                    0
                },
            ),
        ),
{
    let name = name_of_slot(update.slot);
    let mut counter = match map.get(name.as_str()) {
        Some(present) => present,
        None => SlotCounter::default(),
    };
    counter.record(update.success);
    map.insert(name, counter);
}

/// Folds the attempts of a delta into a document, or into an empty one where there is none.
/// Absent slots start at zero; the slots that no attempt touches stay as they are.
pub fn merge_stats(current: Option<&StatsDocument>, delta: &StatsDelta) -> (document: StatsDocument)
    ensures
        document@ == merged(
            match current {
                Some(present) => present@,
                None => DocumentView::empty(),
            },
            delta.updates@,
        ),
{
    let mut document = match current {
        Some(present) => present.clone(),
        None => StatsDocument::default(),
    };
    let ghost start = document@;
    proof {
        lemma_merged_family_empty(start.dow, SlotFamily::Dow);
        lemma_merged_family_empty(start.dom, SlotFamily::Dom);
        lemma_merged_family_empty(start.hod, SlotFamily::Hod);
        assert(delta.updates@.take(0) =~= seq![]);
    }
    for i in 0..delta.updates.len()
        invariant
            document@ == merged(start, delta.updates@.take(i as int)),
    {
        let (family, update) = delta.updates[i];
        proof {
            let so_far = delta.updates@.take(i as int);
            assert(delta.updates@.take(i + 1) =~= so_far.push((family, update)));
            lemma_merged_family_push(start.dow, so_far, (family, update), SlotFamily::Dow);
            lemma_merged_family_push(start.dom, so_far, (family, update), SlotFamily::Dom);
            lemma_merged_family_push(start.hod, so_far, (family, update), SlotFamily::Hod);
        }
        match family {
            SlotFamily::Dow => count_attempt(&mut document.dow, update),
            SlotFamily::Dom => count_attempt(&mut document.dom, update),
            SlotFamily::Hod => count_attempt(&mut document.hod, update),
        }
    }
    proof {
        assert(delta.updates@.take(delta.updates@.len() as int) =~= delta.updates@);
    }
    document
}

} // verus!
