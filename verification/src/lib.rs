pub mod ack;
pub mod amf;
pub mod chunk;
pub mod command;
pub mod config;
pub mod demux;
pub mod error;
pub mod flv;
pub mod handshake;
pub mod server;
pub mod session;
pub mod wire;

pub use error::StreamError;
