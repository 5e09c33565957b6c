//! A client for RabbitMQ streams, written without input or output.

pub mod answers;
pub mod client;
pub mod client2;
pub mod codec;
pub mod connection;
pub mod error;
pub mod frames;
pub mod handshake;
pub mod layout;
pub mod message;
pub mod metadata;
pub mod options;
pub mod pending;
pub mod properties;
pub mod protocol;
pub mod publishing;
pub mod receive;
pub mod request;
pub mod response;
pub mod routing;
pub mod sections;
pub mod sizes;
pub mod stream_creator2;
pub mod text;
pub mod walk;
pub mod wire;
