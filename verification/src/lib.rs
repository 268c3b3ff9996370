//! Ticketing for events: organisers create events with priced tiers, buyers
//! purchase (singly, in groups, or with discount codes), return tickets to a
//! first-come waitlist, and claim refunds when an event is cancelled; the
//! organiser withdraws the proceeds once the event has ended.
//!
//! The state machine lives in [`manager`]; its abstract model and the laws
//! proved about it live in [`model`] and [`laws`].

pub mod types;
pub mod mock;
pub mod model;
pub mod lemmas;
pub mod laws;
pub mod pricing;
pub mod record;
pub mod manager;
