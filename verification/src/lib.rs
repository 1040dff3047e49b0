//! Incremental synchronisation of a shared UI context between a host and
//! isolated guest modules.
//!
//! The host owns the authoritative [`context::Context`]; a guest works on a
//! local copy inside a transaction. Only the partitions whose version
//! counters differ cross the boundary, and large shared values travel once
//! and are named by small integer ids afterwards.
//!
//! - [`deltas`]: the version counters, one for each partition.
//! - [`arc_cache`]: the cache that names shared values, over the tables of
//!   [`fx_map`]; [`cache_state`] holds its model and its laws.
//! - [`codec`] and [`frame`]: the bytes of a partition.
//! - [`snapshot`]: the message that carries a state.
//! - [`context`]: one side's copy of the state, with `capture` and `apply`;
//!   [`state`] holds its model and the laws of the exchange.
//! - [`transaction`] and [`host`]: the two ends of a transaction.
//! - [`layers`]: the paint lists, whose texts are laid out again on arrival.
//!
//! A partition's content is bytes to this library: its owner writes and
//! reads them. The library decides what is sent, checks what arrives, and
//! overwrites a state entirely or not at all.

pub mod arc_cache;
pub mod cache_state;
pub mod codec;
pub mod context;
pub mod deltas;
pub mod error;
pub mod frame;
pub mod fx_map;
pub mod host;
pub mod layers;
pub mod snapshot;
pub mod state;
pub mod transaction;
