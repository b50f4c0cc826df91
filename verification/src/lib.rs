//! One-way-biased synchronisation of Asana tasks with a Google Tasks list:
//! the reconciliation rules, stated and proved over plain snapshots.

pub mod asana;
pub mod error;
pub mod google;
pub mod notes;
pub mod sync;
pub mod text;
