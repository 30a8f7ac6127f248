//! Media over QUIC Transport: the wire codec, the session rules and the relay
//! rules of a small publish/subscribe system, with machine-checked contracts.

pub mod buffer;
pub mod error;
pub mod fields;
pub mod http;
pub mod jpeg;
pub mod jpeg_laws;
pub mod laws;
pub mod layout;
pub mod message;
pub mod object;
pub mod publisher;
pub mod relay;
pub mod rewriting;
pub mod room;
pub mod session;
pub mod settings;
pub mod subscriber;
pub mod text;
pub mod text_laws;
pub mod varint;
pub mod video;
pub mod wire;
