//! The failures that every layer of the client reports.

use vstd::prelude::*;

verus! {

/// Why a frame header could not be read.
#[derive(Debug, Clone, PartialEq, Eq)]
pub enum FramingError {
    /// A header line that is neither `Content-Length` nor `Content-Type`.
    UnknownHeader,
    /// A `Content-Length` value that is not a base-10 number fitting a `usize`.
    BadContentLength,
    /// A second `Content-Length` line in one header.
    DuplicateContentLength,
    /// The blank line came before any `Content-Length`.
    MissingContentLength,
}

/// A server answer that breaks the protocol or the negotiated capabilities.
#[derive(Debug, Clone, PartialEq, Eq)]
pub enum ProtocolError {
    /// The server answered with a JSON-RPC error object.
    Rpc { code: i64, message: String },
    /// A message with neither a method nor an id.
    MissingId,
    /// A payload that is not a JSON-RPC message of the expected shape.
    Malformed,
    /// A flat symbol list where a hierarchy was negotiated.
    FlatSymbols,
}

/// A server capability that the analysis needs.
#[derive(Debug, Clone, Copy, PartialEq, Eq)]
pub enum Capability {
    DocumentSymbol,
    References,
    Definition,
    CallHierarchy,
}

#[derive(Debug, Clone, PartialEq, Eq)]
pub enum Error {
    /// The byte channel to the server failed: spawn failure or broken pipe.
    Transport(String),
    /// A malformed or missing frame header; the peer is incompatible.
    Framing(FramingError),
    /// The stream ended before a frame was complete.
    ConnectionClosed,
    Protocol(ProtocolError),
    /// The server lacks a capability that the caller needs.
    Capability(Capability),
    /// A response for an id that no request is waiting for.
    Correlation(u64),
    /// Every request id has been handed out.
    IdsExhausted,
}

} // verus!
