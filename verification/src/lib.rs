//! A small runtime for nodes that exchange typed, line-oriented messages,
//! a gossip broadcast engine built on top of it, and a few services that
//! use the same runtime.
//!
//! The crate is a pure state machine: handlers consume already-decoded
//! envelopes and queue their replies in the node's outbox. Reading lines,
//! decoding and encoding them, locking and timers are left to the caller.
//!
//! - [`messages`]: the envelope and the payloads shared by the services.
//! - [`node`]: identity, message ids, the handler and callback tables, and
//!   the outbox.
//! - [`broadcast`]: the gossip engine; [`broadcast::model`] holds the
//!   mathematical model it is specified against, [`broadcast::theorems`]
//!   what follows for one node, and [`broadcast::convergence`] what follows
//!   for a whole network.
//! - [`echo`], [`unique_ids`], [`grow_only_counter`], [`kafka`] with
//!   [`lin_kv`]: the other services.

pub mod broadcast;
pub mod echo;
pub mod grow_only_counter;
pub mod kafka;
pub mod lin_kv;
pub mod messages;
pub mod node;
pub mod unique_ids;
