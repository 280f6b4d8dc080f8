//! What a finished retry says about its cluster.

use crate::calendar::CivilDateTime;
use crate::document::{EventSlots, StatsDelta};
use crate::keys::{ClusterKey, Dim};
use vstd::prelude::*;

verus! {

/// The error of a failed attempt.
#[derive(Debug)]
pub struct ErrorDetails {
    /// The code that the connector gave.
    pub code: String,
    /// The code that is the same for all connectors, where there is one.
    pub unified_code: Option<String>,
}

/// An attempt to charge a payment.
#[derive(Debug)]
pub struct PaymentAttempt {
    pub error: Option<ErrorDetails>,
    pub created_at: CivilDateTime,
}

/// What the billing connector knows about the card.
#[derive(Debug)]
pub struct BillingConnectorCardInfo {
    /// The name of the card network.
    pub card_network: Option<String>,
    pub card_issuer: Option<String>,
}

/// What revenue recovery keeps with a payment.
#[derive(Debug)]
pub struct PaymentRevenueRecoveryMetadata {
    /// The card, where the payment method is one.
    pub billing_connector_card_info: Option<BillingConnectorCardInfo>,
}

/// The outcome of a retry: the cluster it belongs to, and the counts to merge there.
#[derive(Debug)]
pub struct RetryOutcomeEvent {
    pub key: ClusterKey,
    pub delta: StatsDelta,
    pub success: bool,
}

/// The text by which an attempt's error is told from others: the unified code, or the connector's
/// where the unified one is absent.
pub open spec fn error_text(attempt: PaymentAttempt) -> Option<Seq<char>> {
    match attempt.error {
        None => None,
        Some(details) => match details.unified_code {
            Some(unified) => Some(unified@),
            None => Some(details.code@),
        },
    }
}

/// The name of the card network, where it is known.
pub open spec fn network_text(metadata: PaymentRevenueRecoveryMetadata) -> Option<Seq<char>> {
    match metadata.billing_connector_card_info {
        None => None,
        Some(card) => crate::text::string_view(card.card_network),
    }
}

/// The name of the card's issuer, where it is known.
pub open spec fn issuer_text(metadata: PaymentRevenueRecoveryMetadata) -> Option<Seq<char>> {
    match metadata.billing_connector_card_info {
        None => None,
        Some(card) => crate::text::string_view(card.card_issuer),
    }
}

/// The cluster that an attempt belongs to.
pub open spec fn event_key(
    attempt: PaymentAttempt,
    metadata: PaymentRevenueRecoveryMetadata,
) -> crate::keys::KeyView {
    crate::keys::KeyView {
        error_code: crate::keys::event_dim(error_text(attempt)),
        card_type: crate::keys::event_dim(network_text(metadata)),
        issuer: crate::keys::event_dim(issuer_text(metadata)),
    }
}

/// The dimension for the error of an attempt.
fn error_code_dim(payment_attempt: &PaymentAttempt) -> (dim: Dim)
    ensures
        dim@ == crate::keys::event_dim(error_text(*payment_attempt)),
        payment_attempt.error is None ==> dim is Unknown,
        payment_attempt.error matches Some(details) ==> {
            &&& details.unified_code matches Some(unified) ==> dim@ == crate::keys::event_dim(
                Some(unified@),
            )
            &&& details.unified_code is None ==> dim@ == crate::keys::event_dim(Some(details.code@))
        },
        !(dim is Any),
{
    match &payment_attempt.error {
        None => Dim::Unknown,
        Some(details) => match &details.unified_code {
            Some(unified) => Dim::from_event_value(Some(unified.as_str())),
            None => Dim::from_event_value(Some(details.code.as_str())),
        },
    }
}

/// The dimension for a value that may be missing.
fn optional_dim(value: &Option<String>) -> (dim: Dim)
    ensures
        dim@ == crate::keys::event_dim(crate::text::string_view(*value)),
        value is None ==> dim is Unknown,
        value matches Some(text) ==> dim@ == crate::keys::event_dim(Some(text@)),
        !(dim is Any),
{
    match value {
        Some(text) => Dim::from_event_value(Some(text.as_str())),
        None => Dim::from_event_value(None),
    }
}

/// The event of a finished attempt. It lands in exactly one leaf, whose stored key reads back as
/// that leaf, and one set of slots drives the counts of all families.
pub fn build_outcome_event(
    payment_attempt: &PaymentAttempt,
    revenue_recovery_metadata: &PaymentRevenueRecoveryMetadata,
    success: bool,
) -> (event: RetryOutcomeEvent)
    ensures
        event.key@ == event_key(*payment_attempt, *revenue_recovery_metadata),
        ({
            let (dow, dom, hod) = crate::document::slots_at(payment_attempt.created_at@);
            &&& 0 <= dow < 7 && 0 <= dom < 31 && 0 <= hod < 24
            &&& event.delta.updates@ == crate::document::event_updates(
                dow as u8,
                dom as u8,
                hod as u8,
                success,
            )
        }),
        event.delta.updates@.len() == 3,
        event.delta.updates@[0].0 is Dow && event.delta.updates@[0].1.slot
            == crate::calendar::weekday(
            payment_attempt.created_at@.year,
            payment_attempt.created_at@.month,
            payment_attempt.created_at@.day,
        ),
        event.delta.updates@[1].0 is Dom && event.delta.updates@[1].1.slot + 1
            == payment_attempt.created_at@.day,
        event.delta.updates@[2].0 is Hod && event.delta.updates@[2].1.slot
            == payment_attempt.created_at@.hour,
        forall|i: int| 0 <= i < 3 ==> (#[trigger] event.delta.updates@[i]).1.success == success,
        payment_attempt.error is None ==> event.key.error_code is Unknown,
        payment_attempt.error matches Some(details) ==> {
            &&& details.unified_code matches Some(unified) ==> event.key.error_code@
                == crate::keys::event_dim(Some(unified@))
            &&& details.unified_code is None ==> event.key.error_code@ == crate::keys::event_dim(
                Some(details.code@),
            )
        },
        revenue_recovery_metadata.billing_connector_card_info is None ==> event.key.card_type
            is Unknown && event.key.issuer is Unknown,
        revenue_recovery_metadata.billing_connector_card_info matches Some(card) ==> {
            &&& card.card_network is None ==> event.key.card_type is Unknown
            &&& card.card_network matches Some(network) ==> event.key.card_type@
                == crate::keys::event_dim(Some(network@))
            &&& card.card_issuer is None ==> event.key.issuer is Unknown
            &&& card.card_issuer matches Some(issuer) ==> event.key.issuer@
                == crate::keys::event_dim(Some(issuer@))
        },
        event.success == success,
        !(event.key.error_code is Any) && !(event.key.card_type is Any) && !(event.key.issuer is Any),
        event.key@.depth() == crate::keys::NodeDepth::Leaf,
        crate::keys::decoded(event.key@.encoded()) == Some(event.key@),
{
    let error_code = error_code_dim(payment_attempt);
    let (card_type, issuer) = match &revenue_recovery_metadata.billing_connector_card_info {
        Some(card) => (optional_dim(&card.card_network), optional_dim(&card.card_issuer)),
        None => (Dim::from_event_value(None), Dim::from_event_value(None)),
    };
    let slots = EventSlots::from_primitive(payment_attempt.created_at);
    let delta = StatsDelta::for_event(slots, success);
    let key = ClusterKey::leaf(error_code, card_type, issuer);
    proof {
        crate::key_laws::law_event_values_avoid_reserved_segments(error_text(*payment_attempt));
        crate::key_laws::law_event_values_avoid_reserved_segments(
            network_text(*revenue_recovery_metadata),
        );
        crate::key_laws::law_event_values_avoid_reserved_segments(
            issuer_text(*revenue_recovery_metadata),
        );
        crate::key_laws::law_keys_round_trip(key@);
    }
    RetryOutcomeEvent { key, delta, success }
}

} // verus!
