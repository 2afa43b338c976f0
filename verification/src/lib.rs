//! Core of a synchronous SNMPv2c client: a BER codec for SNMP request and
//! response PDUs, the request builders, the response parser, and the session
//! bookkeeping (request-id assignment and reply validation).
//!
//! The network edge (UDP sockets) lives outside this crate; everything here
//! works on plain byte buffers and is verified.
use vstd::prelude::*;

pub mod ber;
pub mod pdu;
pub mod sync;
pub mod utils;

pub use pdu::{handle_response, SnmpPdu, Value, Varbind};
pub use sync::{ResponseItem, ResponseItemInt, SessionCore, SyncSessionBuilder};

verus! {

/// Size of the receive buffer for one UDP datagram.
pub const BUFFER_SIZE: usize = 4096;

/// Everything that can go wrong in the client, as a closed sum so callers can
/// match exhaustively.
#[derive(Clone, Copy, Debug, PartialEq, Eq, Structural)]
pub enum SnmpError {
    /// UDP send to the destination failed.
    SendError,
    /// Receive timed out or the socket errored.
    ReceiveError,
    /// Socket creation, binding or option setting failed.
    SocketError,
    /// The decoder ran out of bytes.
    AsnEof,
    /// A BER length header is malformed or overruns the datagram.
    AsnInvalidLen,
    /// A tag byte is not recognized in its position.
    AsnInvalidTag,
    /// Structurally valid but semantically wrong (e.g. the reply is not a
    /// response PDU, or the version is not SNMPv2c).
    AsnWrongType,
    /// Content bytes do not satisfy the type's constraints (e.g. a
    /// non-canonical integer).
    AsnParseError,
    /// The reply's request-id differs from the issued one.
    RequestIdMismatch,
    /// The reply's community differs from the session community.
    CommunityMismatch,
    /// `set` was called with a value kind that cannot go on the wire.
    UnsupportedValueType,
}

pub type SnmpResult<T> = Result<T, SnmpError>;

/// The PDU kinds of SNMPv2c that this client understands.
#[derive(Clone, Copy, Debug, PartialEq, Eq, Structural)]
pub enum SnmpMessageType {
    GetRequest,
    GetNextRequest,
    Response,
    SetRequest,
    GetBulkRequest,
}

} // verus!
