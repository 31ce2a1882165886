//! A registry that observes its members through caller-managed weak
//! references: members attach and detach themselves while other code
//! iterates over the registry, with stable positions and deferred
//! compaction keeping every in-flight cursor consistent.
//!
//! The registry never owns a member and a member never owns the registry;
//! payload lifetime and the sharing discipline (a lock, or single-owner
//! exclusive access) belong to the caller. Here a payload is represented
//! by a caller-chosen `u64` key, and a registry by a caller-chosen `u64`
//! tag, so that every decision the structure makes is a function of plain
//! values.

pub mod element;
pub mod iter;
pub mod laws;
pub mod list;
pub mod member_map;
pub mod slots;
