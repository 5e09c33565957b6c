//! The errors of the client.

use crate::response::ResponseCode;
use vstd::prelude::*;

verus! {

/// Why a frame could not be read.
#[derive(Debug)]
pub enum DecodeFailure {
    /// More bytes are needed.
    Incomplete(usize),
    Utf8Error,
    UnknownResponseCode(u16),
    UnsupportedResponseType(u16),
    MismatchSize(usize),
    MessageParse(String),
    InvalidFormatCode(u8),
    Empty,
}

/// Why a frame could not be written.
#[derive(Clone, Copy, Debug, PartialEq, Eq, Structural)]
pub enum EncodeFailure {
    /// A reference of that many bytes is too long.
    MaxSizeError(usize),
}

/// Why an operation of the client failed.
#[derive(Debug)]
pub enum ClientError {
    /// The connection is closed, or was closed before the answer came.
    ConnectionClosed,
    /// The answer is not of the expected type.
    CastError(String),
    /// The server refused the request.
    RequestError(ResponseCode),
    /// The server does not offer the authentication mechanism; with those that it offers.
    UnsupportedAuthMechanism(String, Vec<String>),
    /// The answer can no longer arrive.
    GenericError,
    /// A frame could not be read.
    Decode(DecodeFailure),
    /// A frame could not be written.
    Encode(EncodeFailure),
    /// The transport failed.
    Io(String),
}

/// Why a stream was not created.
#[derive(Debug)]
pub enum StreamCreateError {
    /// The server refused to create the stream.
    Create { stream: String, status: ResponseCode },
    /// The client failed.
    Client(ClientError),
}

/// The result of an operation of the client.
pub type RabbitMQStreamResult<T> = Result<T, ClientError>;

} // verus!
