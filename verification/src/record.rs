//! What is recorded of the outcome of a retry.

use crate::document::SlotFamily;
use crate::events::{
    build_outcome_event, PaymentAttempt, PaymentRevenueRecoveryMetadata, RetryOutcomeEvent,
};
use crate::keys::NodeDepth;
use vstd::prelude::*;

verus! {

/// The record of one outcome.
#[derive(Debug, PartialEq, Eq)]
pub struct OutcomeRecord {
    pub cluster_key: String,
    pub depth: NodeDepth,
    pub dow_slot: Option<u8>,
    pub dom_slot: Option<u8>,
    pub hod_slot: Option<u8>,
    pub success: bool,
}

/// The slot of the last update in a family, if there is one.
pub open spec fn last_slot(
    updates: Seq<(SlotFamily, crate::document::SlotUpdate)>,
    family: SlotFamily,
) -> Option<u8>
    decreases updates.len(),
{
    if updates.len() == 0 {
        None
    } else if updates.last().0 == family {
        Some(updates.last().1.slot)
    } else {
        last_slot(updates.drop_last(), family)
    }
}

/// The record of an event: its stored key, the depth of its node, the slot of the last update in
/// each family, and whether the retry succeeded.
pub fn record_outcome(event: &RetryOutcomeEvent) -> (record: OutcomeRecord)
    ensures
        record.cluster_key@ == event.key@.encoded(),
        record.depth == event.key@.depth(),
        record.dow_slot == last_slot(event.delta.updates@, SlotFamily::Dow),
        record.dom_slot == last_slot(event.delta.updates@, SlotFamily::Dom),
        record.hod_slot == last_slot(event.delta.updates@, SlotFamily::Hod),
        record.success == event.success,
{
    let mut dow: Option<u8> = None;
    let mut dom: Option<u8> = None;
    let mut hod: Option<u8> = None;
    let updates = &event.delta.updates;
    for i in 0..updates.len()
        invariant
            dow == last_slot(updates@.take(i as int), SlotFamily::Dow),
            dom == last_slot(updates@.take(i as int), SlotFamily::Dom),
            hod == last_slot(updates@.take(i as int), SlotFamily::Hod),
    {
        let (family, update) = updates[i];
        proof {
            assert(updates@.take(i + 1).drop_last() =~= updates@.take(i as int));
        }
        match family {
            SlotFamily::Dow => dow = Some(update.slot),
            SlotFamily::Dom => dom = Some(update.slot),
            SlotFamily::Hod => hod = Some(update.slot),
        }
    }
    proof {
        assert(updates@.take(updates@.len() as int) =~= updates@);
    }
    OutcomeRecord {
        cluster_key: event.key.as_db(),
        depth: event.key.depth(),
        dow_slot: dow,
        dom_slot: dom,
        hod_slot: hod,
        success: event.success,
    }
}

/// The record of a finished attempt, where recording is switched on.
pub fn record_outcome_from_attempt(
    enable_retry_stats_logging: bool,
    payment_attempt: &PaymentAttempt,
    revenue_recovery_metadata: &PaymentRevenueRecoveryMetadata,
    success: bool,
) -> (record: Option<OutcomeRecord>)
    ensures
        record is Some <==> enable_retry_stats_logging,
        record matches Some(found) ==> {
            let (dow, dom, hod) = crate::document::slots_at(payment_attempt.created_at@);
            &&& found.cluster_key@ == crate::events::event_key(
                *payment_attempt,
                *revenue_recovery_metadata,
            ).encoded()
            &&& found.depth == NodeDepth::Leaf
            &&& 0 <= dow < 7 && 0 <= dom < 31 && 0 <= hod < 24
            &&& found.dow_slot == Some(dow as u8)
            &&& found.dom_slot == Some(dom as u8)
            &&& found.hod_slot == Some(hod as u8)
            &&& found.dow_slot matches Some(slot) && slot == crate::calendar::weekday(
                payment_attempt.created_at@.year,
                payment_attempt.created_at@.month,
                payment_attempt.created_at@.day,
            )
            &&& found.dom_slot matches Some(slot) && slot + 1 == payment_attempt.created_at@.day
            &&& found.hod_slot matches Some(slot) && slot == payment_attempt.created_at@.hour
            &&& found.success == success
        },
{
    if !enable_retry_stats_logging {
        return None;
    }
    let event = build_outcome_event(payment_attempt, revenue_recovery_metadata, success);
    proof {
        reveal_with_fuel(last_slot, 4);
    }
    Some(record_outcome(&event))
}

} // verus!
