//! JSON-RPC 2.0 envelopes, apart from their JSON text.
//!
//! Every envelope carries `"jsonrpc": "2.0"` on the wire; the version is a
//! constant of the protocol and is not stored.

use vstd::prelude::*;
use crate::error::{Error, ProtocolError};

verus! {

/// A call of `method` with `params`. One without an id expects no answer.
#[derive(Debug, Clone, PartialEq, Eq)]
pub struct Request<P> {
    pub method: String,
    pub params: P,
    pub id: Option<u64>,
}

impl<P> Request<P> {
    pub fn new(method: String, params: P, id: Option<u64>) -> (r: Request<P>)
        ensures
            r.method == method,
            r.params == params,
            r.id == id,
    {
        Request { method, params, id }
    }

    /// Whether the peer is to send no response.
    pub fn is_notification(&self) -> (r: bool)
        ensures
            r == self.id is None,
    {
        self.id.is_none()
    }
}

/// A one-way message: `method` with `params`, and no id.
#[derive(Debug, Clone, PartialEq, Eq)]
pub struct Notification<P> {
    pub method: String,
    pub params: P,
}

impl<P> Notification<P> {
    pub fn new(method: String, params: P) -> (r: Notification<P>)
        ensures
            r.method == method,
            r.params == params,
    {
        Notification { method, params }
    }
}

/// The outcome that a response reports.
#[derive(Debug, Clone, PartialEq, Eq)]
pub enum JsonRpcResult<T, E> {
    Result(T),
    Error { code: i64, message: String, data: Option<E> },
}

/// The answer to the request with the same id.
#[derive(Debug, Clone, PartialEq, Eq)]
pub struct Response<T, E> {
    pub result: JsonRpcResult<T, E>,
    pub id: Option<u64>,
}

/// What a response's outcome means to the caller.
pub open spec fn outcome<T, E>(result: JsonRpcResult<T, E>) -> Result<T, Error> {
    match result {
        JsonRpcResult::Result(t) => Ok(t),
        JsonRpcResult::Error { code, message, .. } => Err(
            Error::Protocol(ProtocolError::Rpc { code, message }),
        ),
    }
}

impl<T, E> Response<T, E> {
    /// The result, or the server's error object as a protocol error.
    pub fn into_result(self) -> (r: Result<T, Error>)
        ensures
            r == outcome(self.result),
    {
        match self.result {
            JsonRpcResult::Result(t) => Ok(t),
            JsonRpcResult::Error { code, message, .. } => Err(
                Error::Protocol(ProtocolError::Rpc { code, message }),
            ),
        }
    }
}

} // verus!
