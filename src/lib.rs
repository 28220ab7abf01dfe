//! A streaming market-data client for an exchange's WebSocket feed: channel
//! specifications, the subscribe/unsubscribe wire envelopes, the handler
//! chain, and the worker's connect/stream/reconnect state machine.

pub mod channel;
pub mod client;
pub mod decode;
pub mod handler;
pub mod json;
pub mod request;
pub mod response;
pub mod subscriptions;
pub mod text;
pub mod worker;
