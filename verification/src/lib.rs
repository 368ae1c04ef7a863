//! Roster normalizer: turns a hierarchical army-roster document (a nested
//! tree of named selections carrying cost, category, rule and stat-block
//! records) into a strongly-typed domain model of units, models, weapons and
//! abilities.
//!
//! The transform is pure and fail-fast: every compact stat token is parsed by
//! a small hand-written parser with an exact specification, and any
//! unrecognized key or token aborts the whole build with a descriptive error
//! rather than producing a partial army.

pub mod ability;
pub mod army;
pub mod error;
pub mod fold;
pub mod profile;
pub mod psyker;
pub mod ros_parser;
pub mod text;
pub mod unit;
pub mod weapon;
