use cluster_stats::calendar::CivilDateTime;
use cluster_stats::document::{
    merge_stats, EventSlots, SlotCounter, SlotFamily, SlotUpdate, StatsDelta, StatsDocument,
};
use cluster_stats::slot_map::SlotMap;

fn delta(slots: &[(SlotFamily, u8, bool)]) -> StatsDelta {
    StatsDelta {
        updates: slots
            .iter()
            .map(|(f, s, ok)| (*f, SlotUpdate { slot: *s, success: *ok }))
            .collect(),
    }
}

/// The attempts that a document counts, one by one.
fn replayed(document: &StatsDocument) -> StatsDelta {
    let families = [
        (SlotFamily::Dow, &document.dow),
        (SlotFamily::Dom, &document.dom),
        (SlotFamily::Hod, &document.hod),
    ];
    let mut updates = Vec::new();
    for (family, map) in families {
        for (name, counter) in map.entries() {
            let slot: u8 = name.parse().unwrap();
            for attempt in 0..counter.n {
                updates.push((family, SlotUpdate { slot, success: attempt < counter.k }));
            }
        }
    }
    StatsDelta { updates }
}

fn sum(map: &SlotMap) -> u64 {
    map.entries().iter().map(|(_, c)| c.n).sum::<u64>()
}

fn names(map: &SlotMap) -> Vec<String> {
    map.entries().iter().map(|(name, _)| name.clone()).collect()
}

#[test]
fn merge_into_empty_creates_entries() {
    let doc = merge_stats(None, &delta(&[(SlotFamily::Dow, 3, true)]));
    assert_eq!(doc.dow.get("3"), Some(SlotCounter { n: 1, k: 1 }));
    assert!(doc.dom.is_empty());
    assert!(doc.hod.is_empty());
}

#[test]
fn merge_accumulates_across_calls() {
    let d1 = delta(&[(SlotFamily::Hod, 9, true)]);
    let d2 = delta(&[(SlotFamily::Hod, 9, false)]);
    let d3 = delta(&[(SlotFamily::Hod, 10, true)]);
    let doc = merge_stats(Some(&merge_stats(None, &d1)), &d2);
    let doc = merge_stats(Some(&doc), &d3);
    assert_eq!(doc.hod.get("9"), Some(SlotCounter { n: 2, k: 1 }));
    assert_eq!(doc.hod.get("10"), Some(SlotCounter { n: 1, k: 1 }));
}

#[test]
fn merge_is_associative_over_deltas() {
    let d1 = delta(&[(SlotFamily::Dom, 9, true)]);
    let d2 = delta(&[(SlotFamily::Dom, 9, false)]);
    let d3 = delta(&[(SlotFamily::Dom, 9, true)]);
    let left = merge_stats(Some(&merge_stats(Some(&merge_stats(None, &d1)), &d2)), &d3);
    let right = merge_stats(
        Some(&merge_stats(None, &d1)),
        &replayed(&merge_stats(Some(&StatsDocument::default()), &d2)),
    );
    assert_eq!(right, merge_stats(Some(&merge_stats(None, &d1)), &d2));
    let mut combined = StatsDelta { updates: vec![] };
    combined.updates.extend(d2.updates.clone());
    combined.updates.extend(d3.updates.clone());
    let right = merge_stats(Some(&merge_stats(None, &d1)), &combined);
    assert_eq!(left.dom.get("9"), right.dom.get("9"));
    assert_eq!(left.dom.get("9"), Some(SlotCounter { n: 3, k: 2 }));
}

#[test]
fn marginal_consistency_holds() {
    let d = delta(&[
        (SlotFamily::Dow, 1, true),
        (SlotFamily::Dom, 5, true),
        (SlotFamily::Hod, 9, true),
    ]);
    let doc = merge_stats(None, &d);
    assert_eq!(sum(&doc.dow), sum(&doc.dom));
    assert_eq!(sum(&doc.dom), sum(&doc.hod));
}

#[test]
fn deltas_commute() {
    let d1 = delta(&[(SlotFamily::Dow, 0, true), (SlotFamily::Hod, 23, false)]);
    let d2 = delta(&[(SlotFamily::Hod, 23, true), (SlotFamily::Dow, 6, false)]);
    let one = merge_stats(Some(&merge_stats(None, &d1)), &d2);
    let other = merge_stats(Some(&merge_stats(None, &d2)), &d1);
    assert_eq!(one, other);
    assert_eq!(one.hod.get("23"), Some(SlotCounter { n: 2, k: 1 }));
    assert_eq!(names(&one.dow), vec!["0".to_string(), "6".to_string()]);
}

#[test]
fn empty_delta_changes_nothing() {
    let doc = merge_stats(None, &delta(&[(SlotFamily::Dom, 30, false)]));
    assert_eq!(merge_stats(Some(&doc), &delta(&[])), doc);
    assert_eq!(merge_stats(None, &delta(&[])), StatsDocument::default());
}

#[test]
fn untouched_slots_stay() {
    let mut doc = StatsDocument::default();
    doc.dow.insert("4".to_string(), SlotCounter { n: 1998, k: 671 });
    doc.dow.insert("legacy".to_string(), SlotCounter { n: 5, k: 2 });
    doc.last_event_at = Some("2026-08-13".to_string());
    let after = merge_stats(Some(&doc), &delta(&[(SlotFamily::Dow, 5, false)]));
    assert_eq!(after.dow.get("4"), Some(SlotCounter { n: 1998, k: 671 }));
    assert_eq!(after.dow.get("legacy"), Some(SlotCounter { n: 5, k: 2 }));
    assert_eq!(after.dow.get("5"), Some(SlotCounter { n: 1, k: 0 }));
    assert_eq!(after.dow.get("6"), None);
    assert_eq!(after.last_event_at.as_deref(), Some("2026-08-13"));
    assert_eq!(doc.dow.get("5"), None);
}

#[test]
fn counters_saturate() {
    let mut counter = SlotCounter { n: u64::MAX, k: u64::MAX - 1 };
    counter.record(true);
    assert_eq!(counter, SlotCounter { n: u64::MAX, k: u64::MAX });
    counter.record(true);
    counter.record(false);
    assert_eq!(counter, SlotCounter { n: u64::MAX, k: u64::MAX });
    let mut fresh = SlotCounter::default();
    fresh.record(false);
    assert_eq!(fresh, SlotCounter { n: 1, k: 0 });
    fresh.record(true);
    assert_eq!(fresh, SlotCounter { n: 2, k: 1 });
}

#[test]
fn slot_names_are_decimal() {
    let all: Vec<(SlotFamily, u8, bool)> = (0..=255u8).map(|s| (SlotFamily::Dom, s, true)).collect();
    let doc = merge_stats(None, &delta(&all));
    for slot in 0..=255u8 {
        let name = slot.to_string();
        assert_eq!(doc.dom.get(&name), Some(SlotCounter { n: 1, k: 1 }));
    }
    assert_eq!(doc.dom.entries().len(), 256);
}

#[test]
fn entries_come_in_order_of_names() {
    let mut map = SlotMap::new();
    for name in ["9", "10", "1", "", "22", "9", "\u{e9}", "a"] {
        map.insert(name.to_string(), SlotCounter { n: 1, k: 0 });
    }
    map.insert("10".to_string(), SlotCounter { n: 7, k: 3 });
    let sorted: std::collections::BTreeMap<String, u64> = ["9", "10", "1", "", "22", "\u{e9}", "a"]
        .iter()
        .map(|n| (n.to_string(), if *n == "10" { 7 } else { 1 }))
        .collect();
    let listed: Vec<(String, u64)> =
        map.entries().iter().map(|(name, c)| (name.clone(), c.n)).collect();
    assert_eq!(listed, sorted.into_iter().collect::<Vec<_>>());
    assert_eq!(map.get("10"), Some(SlotCounter { n: 7, k: 3 }));
    assert_eq!(map.get("1 0"), None);
    assert_eq!(map.clone(), map);
}

#[test]
fn family_names() {
    assert_eq!(SlotFamily::Dow.name(), "dow");
    assert_eq!(SlotFamily::Dom.name(), "dom");
    assert_eq!(SlotFamily::Hod.name(), "hod");
}

#[test]
fn slots_of_a_point_in_time() {
    let at = |y, m, d, h| EventSlots::from_primitive(CivilDateTime::new(y, m, d, h).unwrap());
    assert_eq!(at(2026, 8, 13, 10), EventSlots { dow: 3, dom: 12, hod: 10 });
    assert_eq!(at(2024, 2, 29, 0), EventSlots { dow: 3, dom: 28, hod: 0 });
    assert_eq!(at(2023, 12, 31, 23), EventSlots { dow: 6, dom: 30, hod: 23 });
    assert_eq!(at(1, 1, 1, 0), EventSlots { dow: 0, dom: 0, hod: 0 });
    assert_eq!(at(2000, 1, 1, 5), EventSlots { dow: 5, dom: 0, hod: 5 });
}

#[test]
fn only_calendar_dates_and_hours_exist() {
    assert!(CivilDateTime::new(2023, 2, 29, 0).is_none());
    assert!(CivilDateTime::new(1900, 2, 29, 0).is_none());
    assert!(CivilDateTime::new(2000, 2, 29, 0).is_some());
    assert!(CivilDateTime::new(2023, 4, 31, 0).is_none());
    assert!(CivilDateTime::new(2023, 0, 1, 0).is_none());
    assert!(CivilDateTime::new(2023, 13, 1, 0).is_none());
    assert!(CivilDateTime::new(2023, 1, 0, 0).is_none());
    assert!(CivilDateTime::new(2023, 1, 1, 24).is_none());
    assert!(CivilDateTime::new(9999, 12, 31, 23).is_some());
    assert!(CivilDateTime::new(10000, 1, 1, 0).is_none());
    assert!(CivilDateTime::new(-9999, 1, 1, 0).is_some());
    assert!(CivilDateTime::new(-10000, 1, 1, 0).is_none());
}

#[test]
fn weekdays_follow_one_another() {
    // 400 years hold whole weeks, so the years -9999 and 1 start on the same day of the week.
    let mut expected = EventSlots::from_primitive(CivilDateTime::new(-9999, 1, 1, 0).unwrap()).dow;
    assert_eq!(expected, EventSlots::from_primitive(CivilDateTime::new(1, 1, 1, 0).unwrap()).dow);
    for year in [-9999, -401, -400, -4, -1, 0, 1, 1899, 1900, 2000, 2023, 2024, 9999] {
        let mut first = true;
        for month in 1..=12u8 {
            for day in 1..=31u8 {
                if let Some(ts) = CivilDateTime::new(year, month, day, 12) {
                    let dow = EventSlots::from_primitive(ts).dow;
                    if first {
                        let past = i64::from(year) - 1;
                        let days = 365 * past + past.div_euclid(4) - past.div_euclid(100)
                            + past.div_euclid(400);
                        expected = days.rem_euclid(7) as u8;
                        first = false;
                    }
                    assert_eq!(dow, expected);
                    expected = (expected + 1) % 7;
                }
            }
        }
    }
}

#[test]
fn an_event_counts_once_in_each_family() {
    let d = StatsDelta::for_event(EventSlots { dow: 4, dom: 0, hod: 10 }, true);
    let doc = merge_stats(None, &d);
    assert_eq!(doc.dow.get("4"), Some(SlotCounter { n: 1, k: 1 }));
    assert_eq!(doc.dom.get("0"), Some(SlotCounter { n: 1, k: 1 }));
    assert_eq!(doc.hod.get("10"), Some(SlotCounter { n: 1, k: 1 }));
    let doc = merge_stats(
        Some(&doc),
        &StatsDelta::for_event(EventSlots { dow: 4, dom: 7, hod: 10 }, false),
    );
    assert_eq!(doc.dow.get("4"), Some(SlotCounter { n: 2, k: 1 }));
    assert_eq!(doc.dom.get("7"), Some(SlotCounter { n: 1, k: 0 }));
    assert_eq!(sum(&doc.dow), 2);
    assert_eq!(sum(&doc.dom), 2);
    assert_eq!(sum(&doc.hod), 2);
}

#[test]
fn a_coalesced_write_keeps_families_in_step() {
    let event = |dow, dom, hod, ok| StatsDelta::for_event(EventSlots { dow, dom, hod }, ok);
    let mut doc = merge_stats(None, &event(6, 30, 23, true));
    assert_eq!((sum(&doc.dow), sum(&doc.dom), sum(&doc.hod)), (1, 1, 1));
    let mut batch = event(0, 0, 0, true);
    batch.updates.extend(event(0, 1, 0, false).updates);
    batch.updates.extend(event(6, 30, 2, true).updates);
    doc = merge_stats(Some(&doc), &batch);
    assert_eq!((sum(&doc.dow), sum(&doc.dom), sum(&doc.hod)), (4, 4, 4));
    assert_eq!(doc.dow.get("6"), Some(SlotCounter { n: 2, k: 2 }));
}

#[test]
fn one_attempt_fills_one_family() {
    for family in [SlotFamily::Dow, SlotFamily::Dom, SlotFamily::Hod] {
        let doc = merge_stats(None, &delta(&[(family, 5, true)]));
        assert_eq!(doc.dow.is_empty(), family != SlotFamily::Dow);
        assert_eq!(doc.dom.is_empty(), family != SlotFamily::Dom);
        assert_eq!(doc.hod.is_empty(), family != SlotFamily::Hod);
    }
}

#[test]
fn pooled_documents_are_sums() {
    let a = delta(&[(SlotFamily::Hod, 9, true), (SlotFamily::Hod, 9, false)]);
    let b = delta(&[(SlotFamily::Hod, 9, true), (SlotFamily::Hod, 3, false)]);
    let pooled = merge_stats(Some(&merge_stats(None, &a)), &b);
    assert_eq!(pooled.hod.get("9"), Some(SlotCounter { n: 3, k: 2 }));
    assert_eq!(pooled.hod.get("3"), Some(SlotCounter { n: 1, k: 0 }));
}
