//! Offline card catalog synchronisation: version checks, payload parsing,
//! a binary cache format, relational write plans and an update protocol
//! that never leaves a half-written catalog behind.

pub mod banlist;
pub mod cache;
pub mod cardinfo;
pub mod cardsets;
pub mod codec;
pub mod error;
pub mod json;
pub mod model;
pub mod set_index;
pub mod store;
pub mod sync;
pub mod text;
pub mod version;
pub mod wire;
