//! The opening of a SOCKS5 connection, as the socks inbound reads it.
//!
//! A client first offers its methods of authentication; the inbound takes
//! the one without authentication. The client then sends its request: a
//! command and a destination. Datagrams of an association travel with a
//! small header of their own.

use crate::trojan::address_bytes;
use crate::trojan::copy_range;
use crate::trojan::decode_address;
use crate::trojan::encodable;
use crate::trojan::encode_address;
use crate::trojan::parse_address;
use crate::trojan::FrameError;
use crate::trojan::Host;
use crate::trojan::HostView;
use vstd::prelude::*;

verus! {

/// What a client asks for.
#[derive(Debug, Clone, Copy, PartialEq, Eq, Structural)]
pub enum SocksCommand {
    Connect,
    Bind,
    UdpAssociate,
}

/// Why the opening of a connection is not read.
#[derive(Debug, Clone, Copy, PartialEq, Eq, Structural)]
pub enum SocksError {
    /// The bytes end before the message does.
    Incomplete,
    /// The message is not of version 5.
    BadVersion,
    /// The command is none of the three.
    UnknownCommand,
    /// The kind of host is unknown.
    UnknownAddress,
    /// The datagram is a fragment.
    Fragmented,
}

/// The reply: the request is granted.
pub const REPLY_SUCCEEDED: u8 = 0;

/// The reply: the server failed.
pub const REPLY_FAILURE: u8 = 1;

/// The reply: the destination's host cannot be reached.
pub const REPLY_HOST_UNREACHABLE: u8 = 4;

/// The reply: the command is not supported.
pub const REPLY_COMMAND_NOT_SUPPORTED: u8 = 7;

/// The reply: the kind of host is not supported.
pub const REPLY_ADDRESS_NOT_SUPPORTED: u8 = 8;

/// What a greeting says: whether doing without authentication is among the
/// methods offered, and the number of bytes the greeting took.
pub struct Greeting {
    pub no_auth: bool,
    pub consumed: usize,
}

/// The greeting at the head of `bytes`: whether method 0 is offered, and
/// the number of bytes taken.
pub open spec fn parse_greeting(bytes: Seq<u8>) -> Result<(bool, int), SocksError> {
    if bytes.len() < 1 {
        Err(SocksError::Incomplete)
    } else if bytes[0] != 5 {
        Err(SocksError::BadVersion)
    } else if bytes.len() < 2 || bytes.len() < 2 + bytes[1] {
        Err(SocksError::Incomplete)
    } else {
        Ok((bytes.subrange(2, 2 + bytes[1]).contains(0u8), 2 + bytes[1]))
    }
}

/// Reads the greeting at the head of `bytes`.
pub fn read_greeting(bytes: &[u8]) -> (r: Result<Greeting, SocksError>)
    ensures
        match r {
            Ok(g) => parse_greeting(bytes@) == Ok::<(bool, int), SocksError>(
                (g.no_auth, g.consumed as int),
            ) && g.consumed <= bytes@.len(),
            Err(e) => parse_greeting(bytes@) == Err::<(bool, int), SocksError>(e),
        },
{
    if bytes.len() < 1 {
        return Err(SocksError::Incomplete);
    }
    if bytes[0] != 5 {
        return Err(SocksError::BadVersion);
    }
    if bytes.len() < 2 {
        return Err(SocksError::Incomplete);
    }
    let n = bytes[1] as usize;
    if bytes.len() < 2 + n {
        return Err(SocksError::Incomplete);
    }
    let ghost methods = bytes@.subrange(2, 2 + n);
    let mut no_auth = false;
    let mut i: usize = 0;
    while i < n
        invariant
            i <= n <= 255,
            2 + n <= bytes@.len(),
            methods == bytes@.subrange(2, 2 + n),
            no_auth == methods.take(i as int).contains(0u8),
        decreases n - i,
    {
        assert(methods[i as int] == bytes@[2 + i]);
        let ghost seen = methods.take(i as int);
        let ghost more = methods.take(i + 1);
        assert(more =~= seen.push(methods[i as int]));
        proof {
            if seen.contains(0u8) {
                let w = choose|w: int| 0 <= w < seen.len() && seen[w] == 0u8;
                assert(more[w] == 0u8);
            }
            if more.contains(0u8) && methods[i as int] != 0 {
                let w = choose|w: int| 0 <= w < more.len() && more[w] == 0u8;
                assert(seen[w] == 0u8);
            }
            if methods[i as int] == 0 {
                assert(more[i as int] == 0u8);
            }
        }
        if bytes[2 + i] == 0 {
            no_auth = true;
        }
        i += 1;
    }
    assert(methods.take(n as int) =~= methods);
    Ok(Greeting { no_auth, consumed: 2 + n })
}

/// The answer to a greeting: method 0 where it was offered, else the byte
/// that refuses all methods.
pub fn method_reply(no_auth: bool) -> (r: [u8; 2])
    ensures
        r@ == seq![5u8, if no_auth {
            0u8
        } else {
            0xffu8
        }],
{
    let r: [u8; 2] = if no_auth {
        [5, 0]
    } else {
        [5, 0xff]
    };
    assert(r@ =~= seq![5u8, if no_auth {
        0u8
    } else {
        0xffu8
    }]);
    r
}

/// A request as it was read.
#[derive(Debug, PartialEq, Eq)]
pub struct Request {
    pub command: SocksCommand,
    pub host: Host,
    pub port: u16,
    /// The number of bytes the request took.
    pub consumed: usize,
}

/// A request with its host as a sequence.
pub struct RequestView {
    pub command: SocksCommand,
    pub host: HostView,
    pub port: u16,
    pub consumed: int,
}

impl View for Request {
    type V = RequestView;

    open spec fn view(&self) -> RequestView {
        RequestView {
            command: self.command,
            host: self.host@,
            port: self.port,
            consumed: self.consumed as int,
        }
    }
}

/// The command a byte stands for.
pub open spec fn command_of(b: u8) -> Option<SocksCommand> {
    if b == 1 {
        Some(SocksCommand::Connect)
    } else if b == 2 {
        Some(SocksCommand::Bind)
    } else if b == 3 {
        Some(SocksCommand::UdpAssociate)
    } else {
        None
    }
}

/// The error of the address encoding as one of the opening.
pub open spec fn address_error(e: FrameError) -> SocksError {
    if e == FrameError::Incomplete {
        SocksError::Incomplete
    } else {
        SocksError::UnknownAddress
    }
}

/// The request at the head of `bytes`: version, command, a reserved byte,
/// and the destination in the address encoding.
pub open spec fn parse_request(bytes: Seq<u8>) -> Result<RequestView, SocksError> {
    if bytes.len() < 1 {
        Err(SocksError::Incomplete)
    } else if bytes[0] != 5 {
        Err(SocksError::BadVersion)
    } else if bytes.len() < 3 {
        Err(SocksError::Incomplete)
    } else {
        match command_of(bytes[1]) {
            None => Err(SocksError::UnknownCommand),
            Some(command) => match parse_address(bytes.skip(3)) {
                Err(e) => Err(address_error(e)),
                Ok((host, port, n)) => Ok(RequestView { command, host, port, consumed: 3 + n }),
            },
        }
    }
}

/// Reads the request at the head of `bytes`.
pub fn read_request(bytes: &[u8]) -> (r: Result<Request, SocksError>)
    ensures
        match r {
            Ok(q) => parse_request(bytes@) == Ok::<RequestView, SocksError>(q@) && q.consumed
                <= bytes@.len(),
            Err(e) => parse_request(bytes@) == Err::<RequestView, SocksError>(e),
        },
{
    if bytes.len() < 1 {
        return Err(SocksError::Incomplete);
    }
    if bytes[0] != 5 {
        return Err(SocksError::BadVersion);
    }
    if bytes.len() < 3 {
        return Err(SocksError::Incomplete);
    }
    let command = if bytes[1] == 1 {
        SocksCommand::Connect
    } else if bytes[1] == 2 {
        SocksCommand::Bind
    } else if bytes[1] == 3 {
        SocksCommand::UdpAssociate
    } else {
        return Err(SocksError::UnknownCommand);
    };
    let rest = copy_range(bytes, 3, bytes.len());
    assert(rest@ =~= bytes@.skip(3));
    match decode_address(rest.as_slice()) {
        Err(FrameError::Incomplete) => Err(SocksError::Incomplete),
        Err(_) => Err(SocksError::UnknownAddress),
        Ok((host, port, n)) => Ok(Request { command, host, port, consumed: 3 + n }),
    }
}

/// The bytes of a reply: version, the reply's code, a reserved byte, and
/// the address the server is bound to.
pub open spec fn reply_bytes(code: u8, h: HostView, port: u16) -> Seq<u8> {
    seq![5u8, code, 0u8] + address_bytes(h, port)
}

/// The reply to a request. A name of more than 255 bytes cannot be sent.
pub fn reply(code: u8, host: &Host, port: u16) -> (r: Result<Vec<u8>, FrameError>)
    ensures
        match r {
            Ok(bytes) => encodable(host@) && bytes@ == reply_bytes(code, host@, port),
            Err(e) => !encodable(host@) && e == FrameError::NameTooLong,
        },
{
    let mut out: Vec<u8> = Vec::new();
    out.push(5);
    out.push(code);
    out.push(0);
    assert(out@ =~= seq![5u8, code, 0u8]);
    match encode_address(&mut out, host, port) {
        Ok(()) => Ok(out),
        Err(e) => Err(e),
    }
}

/// A datagram of an association as it was read: the destination, and where
/// in the bytes its payload begins.
#[derive(Debug, PartialEq, Eq)]
pub struct UdpHeader {
    pub host: Host,
    pub port: u16,
    /// The position of the payload's first byte.
    pub payload_at: usize,
}

/// The header of a datagram of an association: two reserved bytes, the
/// number of the fragment, which must be 0, and the destination.
pub open spec fn parse_udp_header(bytes: Seq<u8>) -> Result<(HostView, u16, int), SocksError> {
    if bytes.len() < 3 {
        Err(SocksError::Incomplete)
    } else if bytes[2] != 0 {
        Err(SocksError::Fragmented)
    } else {
        match parse_address(bytes.skip(3)) {
            Err(e) => Err(address_error(e)),
            Ok((host, port, n)) => Ok((host, port, 3 + n)),
        }
    }
}

/// Reads the header of a datagram of an association.
pub fn read_udp_header(bytes: &[u8]) -> (r: Result<UdpHeader, SocksError>)
    ensures
        match r {
            Ok(h) => parse_udp_header(bytes@) == Ok::<(HostView, u16, int), SocksError>(
                (h.host@, h.port, h.payload_at as int),
            ) && h.payload_at <= bytes@.len(),
            Err(e) => parse_udp_header(bytes@) == Err::<(HostView, u16, int), SocksError>(e),
        },
{
    if bytes.len() < 3 {
        return Err(SocksError::Incomplete);
    }
    if bytes[2] != 0 {
        return Err(SocksError::Fragmented);
    }
    let rest = copy_range(bytes, 3, bytes.len());
    assert(rest@ =~= bytes@.skip(3));
    match decode_address(rest.as_slice()) {
        Err(FrameError::Incomplete) => Err(SocksError::Incomplete),
        Err(_) => Err(SocksError::UnknownAddress),
        Ok((host, port, n)) => Ok(UdpHeader { host, port, payload_at: 3 + n }),
    }
}

/// The bytes of a datagram of an association: the header and the payload.
pub open spec fn udp_bytes(h: HostView, port: u16, payload: Seq<u8>) -> Seq<u8> {
    seq![0u8, 0u8, 0u8] + address_bytes(h, port) + payload
}

/// A datagram of an association, for the client: the peer it came from and
/// its payload. A name of more than 255 bytes cannot be sent.
pub fn write_udp(host: &Host, port: u16, payload: &[u8]) -> (r: Result<Vec<u8>, FrameError>)
    ensures
        match r {
            Ok(bytes) => encodable(host@) && bytes@ == udp_bytes(host@, port, payload@),
            Err(e) => !encodable(host@) && e == FrameError::NameTooLong,
        },
{
    let mut out: Vec<u8> = Vec::new();
    out.push(0);
    out.push(0);
    out.push(0);
    assert(out@ =~= seq![0u8, 0u8, 0u8]);
    match encode_address(&mut out, host, port) {
        Err(e) => Err(e),
        Ok(()) => {
            let ghost head = out@;
            let mut i: usize = 0;
            while i < payload.len()
                invariant
                    i <= payload.len(),
                    out@ == head + payload@.take(i as int),
                decreases payload.len() - i,
            {
                out.push(payload[i]);
                assert(payload@.take(i + 1) =~= payload@.take(i as int).push(payload@[i as int]));
                i += 1;
            }
            assert(payload@.take(payload@.len() as int) =~= payload@);
            Ok(out)
        },
    }
}

/// A datagram that is written for an association and read again has the
/// destination it was written with, and its payload follows the header.
pub proof fn lemma_udp_round_trip(h: HostView, port: u16, payload: Seq<u8>)
    requires
        encodable(h),
    ensures
        parse_udp_header(udp_bytes(h, port, payload)) == Ok::<(HostView, u16, int), SocksError>(
            (h, port, 3 + address_bytes(h, port).len() as int),
        ),
        udp_bytes(h, port, payload).skip(3 + address_bytes(h, port).len() as int) == payload,
{
    let all = udp_bytes(h, port, payload);
    assert(all.skip(3) =~= address_bytes(h, port) + payload);
    crate::trojan::lemma_address_round_trip(h, port, payload);
    assert(all.skip(3 + address_bytes(h, port).len() as int) =~= payload);
}

} // verus!
