//! A log-event forwarding bridge: records captured from a native logging
//! facility are normalised, queued and handed, in order, to recipient
//! processes of a message-passing host runtime.
//!
//! The crate holds the decisions of that pipeline as sequential, verified
//! code. A host embeds a [`bridge::Bridge`] behind its own lock, feeds it
//! records and registrations, and runs the dispatcher loop by alternating
//! [`bridge::Bridge::poll`] and [`bridge::Bridge::report`].

pub mod attributes;
pub mod bridge;
pub mod channel;
pub mod decimal;
pub mod dispatcher;
pub mod event;
pub mod laws;
pub mod level;
pub mod registry;

