//! A retained-mode element tree.
//!
//! A [`Snapshot`] records the elements of one build pass in a flat arena. The
//! builder never names a parent: `push` opens an element, what is inserted
//! while it is open becomes its child, and `pop` closes it again. Elements are
//! addressed by [`ElementId`], their position in the arena.
//!
//! - [`element`]: elements and their identifiers.
//! - [`snapshot`]: the arena and the calls that build it.
//! - [`forest`]: the mathematical model of a snapshot and its invariant.
//! - [`pass`]: build passes as sequences of calls, and what holds of all of them.
//! - [`lists`]: lists of arena positions.
//! - [`text`] and [`listing`]: the diagnostic listing of a snapshot.

pub mod element;
pub mod forest;
pub mod listing;
pub mod lists;
pub mod pass;
pub mod snapshot;
pub mod text;

pub use element::{Element, ElementId};
pub use snapshot::{Snapshot, StackViolation};
