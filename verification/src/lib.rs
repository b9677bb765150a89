//! A store-and-forward mail relay core: a delimiter-framed wire protocol
//! with an upgrade-negotiation handshake, an in-memory queue of pending
//! emails, a rate-limited, TTL-aware drain pass, a ledger of dispatch
//! failures, and the lifecycle rules that reload or wind the service down.
pub mod drain;
pub mod email;
pub mod frame;
pub mod handler;
pub mod ledger;
pub mod lifecycle;
pub mod queue;
pub mod settings;
