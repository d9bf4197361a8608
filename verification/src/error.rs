//! Errors of the transports.

use crate::addr::SocketAddr;
use crate::fec::encoder::MAX_SHARD_PAYLOAD;
use crate::text::{decimal, from_utf8_lossy, lossy_text, push_decimal};
use vstd::prelude::*;
use vstd::string::*;

verus! {

/// What can go wrong in a transport.
#[derive(Debug)]
pub enum TransportError {
    /// A datagram of this many bytes is too large for forward error correction.
    FecPayloadTooLarge(usize),
    /// Only IPv4 and only IPv6 were asked for.
    ExclusiveIpVersions,
    /// No host was given.
    NoHosts,
    /// The hosts resolve to no endpoint.
    Unresolved,
    /// The interface of this name has no address from which the target can be reached.
    NoInterfaceAddress(Vec<u8>),
    /// No interface has an address to listen on.
    NoLocalAddress,
    /// There is no interface of that name, or it has no number.
    NoInterfaceIndex,
    /// No fake-TCP connection to this endpoint could be established.
    PhantunRefused(SocketAddr),
    /// There is no fake-TCP connection to this endpoint.
    PhantunNotConnected(SocketAddr),
    /// A datagram could not be sent through a fake-TCP connection.
    PhantunSendFailed,
    /// A fake-TCP connection has ended.
    PhantunRecvFailed,
    /// The fake-TCP listener has ended.
    PhantunClosed,
    /// Nobody takes accepted connections any more.
    AcceptorClosed,
    /// The task that sends datagrams has ended.
    WriterEnded,
    /// The header of a data message was not followed by its payload.
    MissingPayload,
    /// A datagram is no link frame.
    InvalidFrame,
    /// A link frame with data is too short.
    FrameTooShort,
    /// There is no such kind of link frame.
    InvalidFrameKind(u8),
}

/// The kinds of errors.
#[derive(Debug, Clone, Copy, PartialEq, Eq, Structural)]
pub enum TransportErrorKind {
    /// The caller gave something that cannot be used.
    InvalidInput,
    /// Something does not exist.
    NotFound,
    /// There is no address to use.
    AddrNotAvailable,
    /// The other end does not want the connection.
    ConnectionRefused,
    /// There is no connection.
    NotConnected,
    /// The connection has ended.
    BrokenPipe,
    /// What is to be sent makes no sense.
    InvalidData,
    /// What was received makes no sense.
    Protocol,
}

/// The kind of an error.
pub open spec fn kind_of(e: TransportError) -> TransportErrorKind {
    match e {
        TransportError::FecPayloadTooLarge(_) => TransportErrorKind::InvalidInput,
        TransportError::ExclusiveIpVersions => TransportErrorKind::InvalidInput,
        TransportError::NoHosts => TransportErrorKind::InvalidInput,
        TransportError::Unresolved => TransportErrorKind::NotFound,
        TransportError::NoInterfaceAddress(_) => TransportErrorKind::AddrNotAvailable,
        TransportError::NoLocalAddress => TransportErrorKind::NotFound,
        TransportError::NoInterfaceIndex => TransportErrorKind::NotFound,
        TransportError::PhantunRefused(_) => TransportErrorKind::ConnectionRefused,
        TransportError::PhantunNotConnected(_) => TransportErrorKind::NotConnected,
        TransportError::PhantunSendFailed => TransportErrorKind::BrokenPipe,
        TransportError::PhantunRecvFailed => TransportErrorKind::BrokenPipe,
        TransportError::PhantunClosed => TransportErrorKind::BrokenPipe,
        TransportError::AcceptorClosed => TransportErrorKind::BrokenPipe,
        TransportError::WriterEnded => TransportErrorKind::BrokenPipe,
        TransportError::MissingPayload => TransportErrorKind::InvalidData,
        TransportError::InvalidFrame => TransportErrorKind::Protocol,
        TransportError::FrameTooShort => TransportErrorKind::Protocol,
        TransportError::InvalidFrameKind(_) => TransportErrorKind::Protocol,
    }
}

/// The text of an error, with `endpoint` for the text of the endpoint in it.
pub open spec fn message_of(e: TransportError, endpoint: Seq<char>) -> Seq<char> {
    match e {
        TransportError::FecPayloadTooLarge(len) => "FEC payload too large: "@ + decimal(len as nat)
            + " bytes exceeds maximum of "@ + decimal(MAX_SHARD_PAYLOAD as nat),
        TransportError::ExclusiveIpVersions => "IPv4 and IPv6 options are mutually exclusive"@,
        TransportError::NoHosts => "at least one host is required"@,
        TransportError::Unresolved => "cannot resolve IP address of host"@,
        TransportError::NoInterfaceAddress(name) => "no suitable address on interface "@
            + lossy_text(name@),
        TransportError::NoLocalAddress => "no local interface address found"@,
        TransportError::NoInterfaceIndex => "network interface index not found"@,
        TransportError::PhantunRefused(_) => "phantun fake-TCP connect to "@ + endpoint
            + " failed"@,
        TransportError::PhantunNotConnected(_) => "no phantun connection to "@ + endpoint,
        TransportError::PhantunSendFailed => "phantun send failed"@,
        TransportError::PhantunRecvFailed => "phantun recv failed"@,
        TransportError::PhantunClosed => "phantun accept loop closed"@,
        TransportError::AcceptorClosed => "acceptor was closed"@,
        TransportError::WriterEnded => "UDP writer task ended"@,
        TransportError::MissingPayload => "data message header was not followed by payload"@,
        TransportError::InvalidFrame => "invalid datagram link frame"@,
        TransportError::FrameTooShort => "data datagram link frame too short"@,
        TransportError::InvalidFrameKind(kind) => "invalid datagram link frame kind "@ + decimal(
            kind as nat,
        ),
    }
}

/// Says that an interface, whose name is given as a text, has no suitable address.
pub fn no_address_message(interface: &str) -> (out: String)
    ensures
        out@ == "no suitable address on interface "@ + interface@,
{
    let mut out: String = "no suitable address on interface ".to_owned();
    out.append(interface);
    out
}

impl TransportError {
    /// The kind of the error.
    pub fn kind(&self) -> (kind: TransportErrorKind)
        ensures
            kind == kind_of(*self),
    {
        match self {
            TransportError::FecPayloadTooLarge(_) => TransportErrorKind::InvalidInput,
            TransportError::ExclusiveIpVersions => TransportErrorKind::InvalidInput,
            TransportError::NoHosts => TransportErrorKind::InvalidInput,
            TransportError::Unresolved => TransportErrorKind::NotFound,
            TransportError::NoInterfaceAddress(_) => TransportErrorKind::AddrNotAvailable,
            TransportError::NoLocalAddress => TransportErrorKind::NotFound,
            TransportError::NoInterfaceIndex => TransportErrorKind::NotFound,
            TransportError::PhantunRefused(_) => TransportErrorKind::ConnectionRefused,
            TransportError::PhantunNotConnected(_) => TransportErrorKind::NotConnected,
            TransportError::PhantunSendFailed => TransportErrorKind::BrokenPipe,
            TransportError::PhantunRecvFailed => TransportErrorKind::BrokenPipe,
            TransportError::PhantunClosed => TransportErrorKind::BrokenPipe,
            TransportError::AcceptorClosed => TransportErrorKind::BrokenPipe,
            TransportError::WriterEnded => TransportErrorKind::BrokenPipe,
            TransportError::MissingPayload => TransportErrorKind::InvalidData,
            TransportError::InvalidFrame => TransportErrorKind::Protocol,
            TransportError::FrameTooShort => TransportErrorKind::Protocol,
            TransportError::InvalidFrameKind(_) => TransportErrorKind::Protocol,
        }
    }

    /// The text of the error, with `endpoint` for the text of the endpoint in it.
    pub fn message(&self, endpoint: &str) -> (out: String)
        ensures
            out@ == message_of(*self, endpoint@),
    {
        match self {
            TransportError::FecPayloadTooLarge(len) => {
                let mut out: String = "FEC payload too large: ".to_owned();
                push_decimal(&mut out, *len as u64);
                out.append(" bytes exceeds maximum of ");
                push_decimal(&mut out, MAX_SHARD_PAYLOAD as u64);
                out
            },
            TransportError::ExclusiveIpVersions => {
                "IPv4 and IPv6 options are mutually exclusive".to_owned()
            },
            TransportError::NoHosts => "at least one host is required".to_owned(),
            TransportError::Unresolved => "cannot resolve IP address of host".to_owned(),
            TransportError::NoInterfaceAddress(name) => {
                no_address_message(from_utf8_lossy(name).as_str())
            },
            TransportError::NoLocalAddress => "no local interface address found".to_owned(),
            TransportError::NoInterfaceIndex => "network interface index not found".to_owned(),
            TransportError::PhantunRefused(_) => {
                let mut out: String = "phantun fake-TCP connect to ".to_owned();
                out.append(endpoint);
                out.append(" failed");
                out
            },
            TransportError::PhantunNotConnected(_) => {
                let mut out: String = "no phantun connection to ".to_owned();
                out.append(endpoint);
                out
            },
            TransportError::PhantunSendFailed => "phantun send failed".to_owned(),
            TransportError::PhantunRecvFailed => "phantun recv failed".to_owned(),
            TransportError::PhantunClosed => "phantun accept loop closed".to_owned(),
            TransportError::AcceptorClosed => "acceptor was closed".to_owned(),
            TransportError::WriterEnded => "UDP writer task ended".to_owned(),
            TransportError::MissingPayload => {
                "data message header was not followed by payload".to_owned()
            },
            TransportError::InvalidFrame => "invalid datagram link frame".to_owned(),
            TransportError::FrameTooShort => "data datagram link frame too short".to_owned(),
            TransportError::InvalidFrameKind(kind) => {
                let mut out: String = "invalid datagram link frame kind ".to_owned();
                push_decimal(&mut out, *kind as u64);
                out
            },
        }
    }
}

/// Which errors are of which kind. What the caller got wrong is invalid input, what does not
/// exist is not found, and so on; each error is of one kind.
pub proof fn law_kinds_of_errors(e: TransportError)
    ensures
        kind_of(e) == TransportErrorKind::InvalidInput <==> e is FecPayloadTooLarge
            || e is ExclusiveIpVersions || e is NoHosts,
        kind_of(e) == TransportErrorKind::NotFound <==> e is Unresolved || e is NoLocalAddress
            || e is NoInterfaceIndex,
        kind_of(e) == TransportErrorKind::AddrNotAvailable <==> e is NoInterfaceAddress,
        kind_of(e) == TransportErrorKind::ConnectionRefused <==> e is PhantunRefused,
        kind_of(e) == TransportErrorKind::NotConnected <==> e is PhantunNotConnected,
        kind_of(e) == TransportErrorKind::BrokenPipe <==> e is PhantunSendFailed
            || e is PhantunRecvFailed || e is PhantunClosed || e is AcceptorClosed
            || e is WriterEnded,
        kind_of(e) == TransportErrorKind::InvalidData <==> e is MissingPayload,
        kind_of(e) == TransportErrorKind::Protocol <==> e is InvalidFrame || e is FrameTooShort
            || e is InvalidFrameKind,
{
}

/// A message names what went wrong: how many bytes were too many and how many can be, the
/// interface, the endpoint, or the kind of frame, in a fixed text.
pub proof fn law_messages_name_what_went_wrong(
    len: usize,
    name: Vec<u8>,
    addr: SocketAddr,
    kind: u8,
    endpoint: Seq<char>,
)
    ensures
        message_of(TransportError::FecPayloadTooLarge(len), endpoint) == "FEC payload too large: "@
            + decimal(len as nat) + " bytes exceeds maximum of "@ + decimal(1500),
        message_of(TransportError::NoInterfaceAddress(name), endpoint)
            == "no suitable address on interface "@ + lossy_text(name@),
        message_of(TransportError::PhantunRefused(addr), endpoint) == "phantun fake-TCP connect to "@
            + endpoint + " failed"@,
        message_of(TransportError::PhantunNotConnected(addr), endpoint)
            == "no phantun connection to "@ + endpoint,
        message_of(TransportError::InvalidFrameKind(kind), endpoint)
            == "invalid datagram link frame kind "@ + decimal(kind as nat),
        message_of(TransportError::ExclusiveIpVersions, endpoint)
            == "IPv4 and IPv6 options are mutually exclusive"@,
        message_of(TransportError::NoHosts, endpoint) == "at least one host is required"@,
        message_of(TransportError::Unresolved, endpoint) == "cannot resolve IP address of host"@,
        message_of(TransportError::NoLocalAddress, endpoint) == "no local interface address found"@,
        message_of(TransportError::NoInterfaceIndex, endpoint)
            == "network interface index not found"@,
        message_of(TransportError::PhantunSendFailed, endpoint) == "phantun send failed"@,
        message_of(TransportError::PhantunRecvFailed, endpoint) == "phantun recv failed"@,
        message_of(TransportError::PhantunClosed, endpoint) == "phantun accept loop closed"@,
        message_of(TransportError::AcceptorClosed, endpoint) == "acceptor was closed"@,
        message_of(TransportError::WriterEnded, endpoint) == "UDP writer task ended"@,
        message_of(TransportError::MissingPayload, endpoint)
            == "data message header was not followed by payload"@,
        message_of(TransportError::InvalidFrame, endpoint) == "invalid datagram link frame"@,
        message_of(TransportError::FrameTooShort, endpoint) == "data datagram link frame too short"@,
{
}

} // verus!
