//! Verified core of an RTMP chunk-stream engine: typed byte reader and
//! writer, chunk encoder and decoder, protocol-control messages, and the
//! session bookkeeping that drives acknowledgements.

pub mod bytesio;
pub mod control;
pub mod decoder;
pub mod encoder;
pub mod error;
pub mod laws;
pub mod message;
pub mod session;
pub mod wire;
