//! A dynamically checked shared/exclusive access cell for objects that a
//! foreign host runtime may re-enter at arbitrary points.
//!
//! [`cell::AccessCell`] wraps a value and enforces the shared-xor-exclusive
//! discipline at runtime: any number of read-only accesses may be outstanding
//! at once, or exactly one read-write access, never both. A read-write access
//! torn down abnormally poisons the cell permanently. [`state::AccessState`]
//! is the underlying state machine, and [`debug_state::DebugState`] records
//! where each outstanding access was acquired so that a conflict can be
//! reported with enough context to debug it.

pub mod cell;
pub mod debug_state;
pub mod state;
