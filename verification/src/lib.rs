//! Verified core of a mail transfer agent: SMTP command framing, the
//! per-connection protocol state machine, recipient classification, the
//! message queue model, delivery retry policy, and DKIM verdict handling.

pub mod address;
pub mod classify;
pub mod codec;
pub mod command;
pub mod config;
pub mod context;
pub mod delivery;
pub mod dkim;
pub mod ids;
pub mod parser;
pub mod queue;
pub mod reply;
pub mod rules;
pub mod session;
pub mod transport;
