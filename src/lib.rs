//! A client for language servers speaking JSON-RPC over a byte stream,
//! and the dependency graphs that are built from its answers.
//!
//! The verified core holds the message framing, the correlation of
//! responses with the requests that caused them, the normalisation of
//! server answers, and the graph algorithms. Spawning processes, moving
//! bytes and turning JSON text into values happen around it.

pub mod correlator;
pub mod decimal;
pub mod error;
pub mod framing;
pub mod graph;
pub mod jsonrpc;
pub mod protocol;
pub mod uri;
pub mod usage;

pub use correlator::PendingTable;
pub use error::{Capability, Error, FramingError, ProtocolError};
pub use framing::{decode_frame, encode_frame, HeaderLine, HeaderReader};
pub use graph::{GraphStep, GraphWalk, ReferenceGraph, WalkStage};
pub use jsonrpc::{JsonRpcResult, Notification, Request, Response};
pub use protocol::{
    CallHierarchyItem, DefinitionResponse, DocumentSymbol, Location, LocationLink, Position,
    ServerCapabilities, Symbol, SymbolInformation, SymbolResponse,
};
pub use usage::{calc_fn_usage, Usage, UsageStep, UsageWalk};
