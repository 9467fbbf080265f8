//! Roster, group-membership and presence tracking engine.
//!
//! The library owns the pure logic of the application: the ordering policy
//! for person lists, the membership filter for "available to add" pickers,
//! the time-bucketed activity-log aggregator, and the state-synchronization
//! controller that rebuilds every derived view from a store snapshot and
//! validates user mutations before any write reaches the store.
//!
//! The persistent store itself and the presentation layer live outside the
//! library; they exchange plain values with it. [`store`] states what a
//! correct store does with each write the handlers produce.

pub mod clock;
pub mod controller;
pub mod filter;
pub mod logview;
pub mod order;
pub mod store;
pub mod types;

pub use controller::Controller;
pub use types::{
    DatabaseRecord, Group, GroupWithMembers, LocalEvent, LocalStamp, Log, Methodology, Person,
    Presence, RankLevel, UtcStamp,
};
