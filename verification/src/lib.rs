//! Verified core of an observer-based input manager: context activity and
//! priority, per-schedule context registration, the evaluation order of
//! context instances, the per-frame action evaluation decisions, and the
//! synchronisation of contexts with application states.

pub mod context;
pub mod external;
pub mod registry;
pub mod instances;
pub mod evaluation;
pub mod state;
