use cluster_stats::calendar::CivilDateTime;
use cluster_stats::document::{SlotFamily, SlotUpdate, StatsDelta, StatsDocument};
use cluster_stats::events::{
    build_outcome_event, BillingConnectorCardInfo, ErrorDetails, PaymentAttempt,
    PaymentRevenueRecoveryMetadata, RetryOutcomeEvent,
};
use cluster_stats::keys::{ClusterKey, Dim, NodeDepth};
use cluster_stats::mathmodel::{compute_mathmodel_retry_time, RetryWindow};
use cluster_stats::record::{record_outcome, record_outcome_from_attempt, OutcomeRecord};


fn attempt(error: Option<(&str, Option<&str>)>) -> PaymentAttempt {
    PaymentAttempt {
        error: error.map(|(code, unified)| ErrorDetails {
            code: code.to_string(),
            unified_code: unified.map(str::to_string),
        }),
        created_at: CivilDateTime::new(2026, 8, 13, 22).unwrap(),
    }
}

fn card(network: Option<&str>, issuer: Option<&str>) -> PaymentRevenueRecoveryMetadata {
    PaymentRevenueRecoveryMetadata {
        billing_connector_card_info: Some(BillingConnectorCardInfo {
            card_network: network.map(str::to_string),
            card_issuer: issuer.map(str::to_string),
        }),
    }
}

#[test]
fn unified_code_wins_over_the_connectors() {
    let metadata = card(Some("Visa"), Some("HDFC"));
    let event = build_outcome_event(&attempt(Some(("05", Some("card_declined")))), &metadata, true);
    assert_eq!(event.key.as_db(), "v1|card_declined/Visa/HDFC");
    assert!(event.success);
    let event = build_outcome_event(&attempt(Some(("05", None))), &metadata, false);
    assert_eq!(event.key.as_db(), "v1|05/Visa/HDFC");
    assert!(!event.success);
    let event = build_outcome_event(&attempt(Some(("05", Some(" ")))), &metadata, false);
    assert_eq!(event.key.as_db(), "v1|UNK/Visa/HDFC");
}

#[test]
fn missing_data_is_unknown() {
    let none = PaymentRevenueRecoveryMetadata { billing_connector_card_info: None };
    let event = build_outcome_event(&attempt(None), &none, true);
    assert_eq!(event.key, ClusterKey::leaf(Dim::Unknown, Dim::Unknown, Dim::Unknown));
    assert_eq!(event.key.as_db(), "v1|UNK/UNK/UNK");
    assert_eq!(event.key.depth(), NodeDepth::Leaf);
    let event = build_outcome_event(&attempt(Some(("*", None))), &card(None, Some("*")), true);
    assert_eq!(event.key.as_db(), "v1|UNK/UNK/UNK");
}

#[test]
fn event_keys_read_back() {
    let metadata = card(Some("pre*paid"), Some("  H|D/F%C "));
    let event = build_outcome_event(&attempt(Some(("a/b", None))), &metadata, true);
    assert_eq!(event.key.as_db(), "v1|a%2Fb/pre%2Apaid/H%7CD%2FF%25C");
    assert_eq!(ClusterKey::from_db(&event.key.as_db()), Some(event.key.clone()));
}

#[test]
fn one_set_of_slots_drives_all_families() {
    let event = build_outcome_event(&attempt(None), &card(None, None), true);
    let slots: Vec<(SlotFamily, u8, bool)> =
        event.delta.updates.iter().map(|(f, u)| (*f, u.slot, u.success)).collect();
    assert_eq!(
        slots,
        vec![(SlotFamily::Dow, 3, true), (SlotFamily::Dom, 12, true), (SlotFamily::Hod, 22, true)]
    );
}

#[test]
fn record_of_an_attempt() {
    let metadata = card(Some("Visa"), None);
    let record = record_outcome_from_attempt(true, &attempt(Some(("05", None))), &metadata, false);
    assert_eq!(
        record,
        Some(OutcomeRecord {
            cluster_key: "v1|05/Visa/UNK".to_string(),
            depth: NodeDepth::Leaf,
            dow_slot: Some(3),
            dom_slot: Some(12),
            hod_slot: Some(22),
            success: false,
        })
    );
    assert_eq!(record_outcome_from_attempt(false, &attempt(None), &metadata, false), None);
}

#[test]
fn last_update_of_a_family_is_recorded() {
    let up = |family, slot| (family, SlotUpdate { slot, success: true });
    let event = RetryOutcomeEvent {
        key: ClusterKey::leaf(Dim::Val("IF".to_string()), Dim::Any, Dim::Any),
        delta: StatsDelta {
            updates: vec![up(SlotFamily::Hod, 1), up(SlotFamily::Dow, 2), up(SlotFamily::Hod, 5)],
        },
        success: true,
    };
    let record = record_outcome(&event);
    assert_eq!(record.cluster_key, "v1|IF/*/*");
    assert_eq!(record.depth, NodeDepth::Root);
    assert_eq!(record.dow_slot, Some(2));
    assert_eq!(record.dom_slot, None);
    assert_eq!(record.hod_slot, Some(5));
    assert!(record.success);
}

#[test]
fn model_has_no_opinion_yet() {
    let window = RetryWindow {
        earliest: time::OffsetDateTime::UNIX_EPOCH,
        latest: time::OffsetDateTime::UNIX_EPOCH,
        remaining_today: 1,
        remaining_month: 2,
    };
    let key = ClusterKey::leaf(Dim::Unknown, Dim::Unknown, Dim::Unknown);
    let window = window.clone();
    assert_eq!(compute_mathmodel_retry_time(&key, &StatsDocument::default(), &window), None);
}
