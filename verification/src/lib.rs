//! An authoritative world core for a tile-based multiplayer game: the typed
//! world-state store with its type registries, the wire protocol used to
//! authorize players and stream their commands, and the declarative content
//! that populates the world at startup.

pub mod codec;
pub mod config;
pub mod connector;
pub mod content;
pub mod log;
pub mod signals;
pub mod state;
pub mod updater;
