//! Synchronizes a locally persisted trade order record with a relay-based
//! publish/subscribe event network. Each order transition is serialized into
//! canonical content bytes, signed as an immutable event, and published,
//! while the mutable authoritative state — status, event kind, latest event
//! id — lives in a local store that only advances on a confirmed publish.

pub mod codec;
pub mod dm;
pub mod events;
pub mod lifecycle;
pub mod order;
pub mod store;
