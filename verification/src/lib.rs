//! Time-to-live enforcement for watched files.
//!
//! Each file's TTL is encoded in its path as a component of the form
//! `ttl=<duration>`. The library keeps a registry from canonical path to
//! expiration instant, updated from directory scans and filesystem mutation
//! events, and decides which files a periodic sweep must delete.

pub mod events;
pub mod path;
pub mod registry;
pub mod time;
pub mod ttl;
