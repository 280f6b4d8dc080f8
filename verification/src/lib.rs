//! Statistics on retries of failed payments, by cluster.
//!
//! A payment belongs to a fixed chain of clusters: its error code, the error code with the card
//! type, and both with the issuer. [`keys`] holds the chain and the text under which each cluster
//! is stored; [`key_laws`] and [`codec_laws`] prove what holds of them. A cluster's document counts
//! attempts and successes per slot in three families; [`document`] merges the outcome of an event
//! into it, and [`merge_laws`] and [`count_laws`] prove what holds of merging. [`events`] turns a
//! finished attempt into an event, and [`record`] says what is recorded of it; [`event_laws`] proves
//! what they depend on. [`calendar_laws`] and [`text_laws`] do the same for dates and for texts.

pub mod calendar;
pub mod calendar_laws;
pub mod codec_laws;
pub mod count_laws;
pub mod document;
pub mod event_laws;
pub mod events;
pub mod key_laws;
pub mod keys;
pub mod mathmodel;
pub mod merge_laws;
pub mod record;
pub mod slot_map;
pub mod storage;
pub mod text;
pub mod text_laws;
