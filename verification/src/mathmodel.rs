//! When the statistics of a cluster suggest to retry.

use crate::document::StatsDocument;
use crate::keys::ClusterKey;
use vstd::prelude::*;

verus! {

/// `time::OffsetDateTime`, a point in time with its offset from UTC. It is only handed on.
#[verifier::external_type_specification]
#[verifier::external_body]
pub struct ExOffsetDateTime(time::OffsetDateTime);

/// Within which bounds a retry may be placed.
#[derive(Debug)]
pub struct RetryWindow {
    pub earliest: time::OffsetDateTime,
    pub latest: time::OffsetDateTime,
    pub remaining_today: u32,
    pub remaining_month: u32,
}

impl Clone for RetryWindow {
    fn clone(&self) -> (copy: Self)
        ensures
            copy == *self,
    {
        RetryWindow {
            earliest: self.earliest,
            latest: self.latest,
            remaining_today: self.remaining_today,
            remaining_month: self.remaining_month,
        }
    }
}

/// The time at which the model would retry, if it has an opinion. It has none yet.
pub fn compute_mathmodel_retry_time(
    _key: &ClusterKey,
    _doc: &StatsDocument,
    _window: &RetryWindow,
) -> (time: Option<time::OffsetDateTime>)
    ensures
        time is None,
{
    None
}

} // verus!
