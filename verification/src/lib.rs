//! Core logic of a peer-to-peer relay node: two peers that cannot reach each
//! other directly communicate through a third, reachable party that proxies a
//! metered byte stream between them.
//!
//! The crate holds the protocol core only. `reservations` tracks which peers
//! are reachable through the relay and until when; `circuits` tracks the
//! relayed sessions with their byte and duration budgets; `limiter` bounds
//! how often any one peer may ask for either; `codec` is the framed wire
//! format; `handler` is the per-stream state machine answering requests;
//! `service` composes them, queues events for the host, sweeps what expired,
//! and shuts down gracefully; `identity` derives deterministic key seed
//! material.
//!
//! The host supplies transport streams, a clock, and the event loop: every
//! time value here is a reading of that clock, in one unit the host chooses.
//! All shared state lives in one `service::RelayService` value mutated only
//! through `&mut`, so every invariant stated on the components holds at each
//! observation point.

pub mod types;

pub mod limiter;

pub mod reservations;

pub mod circuits;

pub mod codec;

pub mod handler;

pub mod service;

pub mod identity;
