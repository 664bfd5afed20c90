//! A verified core for a streaming chat-completion client.
//!
//! The library decodes server-sent-event style byte streams into text
//! deltas ([`decoder`], with its mathematical model in [`sse`]), decides
//! bounded retries for transient transport failures ([`retry`]), renders
//! decoded deltas to an output sink ([`printer`]), and models the
//! request and its endpoint routing ([`request`]).  The surrounding
//! process — argument handling, configuration, the HTTP transport —
//! stays outside and hands the library plain bytes and strings.

pub mod decoder;
pub mod printer;
pub mod request;
pub mod retry;
pub mod sse;
