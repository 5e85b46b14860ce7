//! A per-user record store: an in-memory cache of user partitions, each an
//! ordered sequence of records, mirroring a persistent backend. All reads are
//! served from the cache; every write is meant to reach the backend first and
//! the cache only after the backend accepted it, so the cache never runs ahead
//! of durable state. This crate holds the cache and all of its consistency
//! logic; connecting to the backend and the transport around it live with the
//! embedding program.

pub mod laws;
pub mod record;
pub mod store;
