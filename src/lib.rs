//! A framed text chat protocol: the message codec, the incremental frame
//! reader, the server's name registry and broadcast bookkeeping, and the
//! client's input handling.
pub mod live_set;
pub mod client;
pub mod codec;
pub mod message;
pub mod registry;
