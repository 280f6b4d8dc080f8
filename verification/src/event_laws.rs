//! What the cluster of an attempt depends on, and what it does not depend on.

use crate::document::{SlotFamily, SlotUpdate};
use crate::events::{event_key, PaymentAttempt, PaymentRevenueRecoveryMetadata};
use crate::keys::{event_dim, DimView};
use crate::record::last_slot;
use vstd::prelude::*;

verus! {

/// A unified code decides the error of an attempt on its own: two attempts with the same one have
/// the same error, whatever codes their connectors gave and whenever they were made.
pub proof fn law_unified_codes_decide(
    left: PaymentAttempt,
    right: PaymentAttempt,
    metadata: PaymentRevenueRecoveryMetadata,
    other: PaymentRevenueRecoveryMetadata,
)
    requires
        left.error is Some && right.error is Some,
        left.error->0.unified_code is Some && right.error->0.unified_code is Some,
        left.error->0.unified_code->0@ == right.error->0.unified_code->0@,
    ensures
        event_key(left, metadata).error_code == event_key(right, other).error_code,
        event_key(left, metadata).error_code == event_dim(Some(left.error->0.unified_code->0@)),
{
}

/// The connector's code decides only where there is no unified one, and an attempt without an error
/// has none to tell.
pub proof fn law_connector_codes_stand_in(
    attempt: PaymentAttempt,
    metadata: PaymentRevenueRecoveryMetadata,
)
    ensures
        attempt.error is None ==> event_key(attempt, metadata).error_code == DimView::Unknown,
        attempt.error is Some && attempt.error->0.unified_code is None ==> event_key(
            attempt,
            metadata,
        ).error_code == event_dim(Some(attempt.error->0.code@)),
{
}

/// The card type comes from the card network alone, whatever the issuer: it is unknown without a
/// card and where the card's network is missing.
pub proof fn law_networks_decide_card_types(
    attempt: PaymentAttempt,
    metadata: PaymentRevenueRecoveryMetadata,
)
    ensures
        metadata.billing_connector_card_info is None ==> event_key(attempt, metadata).card_type
            == DimView::Unknown,
        metadata.billing_connector_card_info matches Some(card) ==> {
            &&& card.card_network is None ==> event_key(attempt, metadata).card_type
                == DimView::Unknown
            &&& card.card_network matches Some(network) ==> event_key(attempt, metadata).card_type
                == event_dim(Some(network@))
        },
{
}

/// The issuer comes from the card's issuer alone, whatever the network: it is unknown without a card
/// and where the card's issuer is missing.
pub proof fn law_card_issuers_decide_issuers(
    attempt: PaymentAttempt,
    metadata: PaymentRevenueRecoveryMetadata,
)
    ensures
        metadata.billing_connector_card_info is None ==> event_key(attempt, metadata).issuer
            == DimView::Unknown,
        metadata.billing_connector_card_info matches Some(card) ==> {
            &&& card.card_issuer is None ==> event_key(attempt, metadata).issuer == DimView::Unknown
            &&& card.card_issuer matches Some(issuer) ==> event_key(attempt, metadata).issuer
                == event_dim(Some(issuer@))
        },
{
}

/// Two cards that differ only in their issuers have the same card type, and two that differ only in
/// their networks have the same issuer.
pub proof fn law_network_and_issuer_are_independent(
    attempt: PaymentAttempt,
    left: PaymentRevenueRecoveryMetadata,
    right: PaymentRevenueRecoveryMetadata,
)
    requires
        left.billing_connector_card_info is Some && right.billing_connector_card_info is Some,
    ensures
        left.billing_connector_card_info->0.card_network
            == right.billing_connector_card_info->0.card_network ==> event_key(
            attempt,
            left,
        ).card_type == event_key(attempt, right).card_type,
        left.billing_connector_card_info->0.card_issuer
            == right.billing_connector_card_info->0.card_issuer ==> event_key(attempt, left).issuer
            == event_key(attempt, right).issuer,
{
}

/// The slot recorded of a family is that of an update in it with none of the family after it, and
/// there is one just if an update is in the family.
pub proof fn law_recorded_slots_are_the_last(
    updates: Seq<(SlotFamily, SlotUpdate)>,
    family: SlotFamily,
    at: int,
)
    ensures
        (forall|i: int| 0 <= i < updates.len() ==> (#[trigger] updates[i]).0 != family)
            ==> last_slot(updates, family) is None,
        0 <= at < updates.len() && updates[at].0 == family && (forall|i: int|
            at < i < updates.len() ==> (#[trigger] updates[i]).0 != family) ==> last_slot(
            updates,
            family,
        ) == Some(updates[at].1.slot),
    decreases updates.len(),
{
    if updates.len() > 0 && updates.last().0 != family {
        law_recorded_slots_are_the_last(updates.drop_last(), family, at);
        assert forall|i: int| 0 <= i < updates.len() - 1 implies updates.drop_last()[i]
            == updates[i] by {}
    }
}

} // verus!
