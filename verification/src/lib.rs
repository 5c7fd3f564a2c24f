//! A verified store for mod loadouts: named profiles hold ordered rows of
//! individual mods and named groups, the persisted document carries a schema
//! generation tag and migrates in one total chain to the current generation,
//! a traversal engine answers which mods are reachable, enabled, and at what
//! effective priority, and a pure comparator orders rows for display. Every
//! operation's behaviour is stated in its contract and proved; the laws of
//! the store (migration idempotence, the visit-count partition, the
//! effective-priority rule, clean group deletion, the rename round trip)
//! stand as proved lemmas beside the code.
//!
//! File I/O, JSON parsing and the interactive front end live outside this
//! crate; they hand plain values in and take plain values back.

pub mod config;
pub mod gui;
pub mod mutations;
pub mod smap;
pub mod versions;
pub mod queries;
pub mod state;
pub mod text;
pub mod updates;

pub use state::ModConfig;
pub use state::ModData;
pub use state::ModGroup;
pub use state::ModOrGroup;
pub use state::ModProfile;
pub use state::ModSpecification;
pub use state::StateError;
