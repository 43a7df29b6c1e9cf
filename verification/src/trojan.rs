//! The framing of the trojan outbound.
//!
//! On a TLS connection to the relay a flow opens with a header: the
//! password's digest in hex, a line end, the command, the destination in the
//! address encoding of SOCKS5, and a line end. A stream's payload follows as
//! it is. Each datagram of a datagram flow is a record: the peer's address,
//! the payload's length in two bytes, a line end, and the payload.

use sha2::Digest;
use sha2::Sha224;
use vstd::prelude::*;

verus! {

/// The length of the password's digest in hex.
pub const DIGEST_LEN: usize = 56;

/// The longest payload a record takes.
pub const MAX_PAYLOAD: usize = 65535;

/// What the relay is asked to do.
#[derive(Debug, Clone, Copy, PartialEq, Eq, Structural)]
pub enum TrojanCommand {
    /// Carry a stream.
    Connect,
    /// Carry datagrams.
    UdpAssociate,
}

/// Why bytes are not framed, or a frame is not read.
#[derive(Debug, Clone, Copy, PartialEq, Eq, Structural)]
pub enum FrameError {
    /// The digest is not 56 hex digits.
    InvalidDigest,
    /// The name has more than 255 bytes.
    NameTooLong,
    /// The payload has more than 65535 bytes.
    PayloadTooLong,
    /// The bytes end before the frame does.
    Incomplete,
    /// The bytes are no frame.
    Malformed,
}

/// A host as the address encoding knows it.
#[derive(Debug, PartialEq, Eq)]
pub enum Host {
    /// The four bytes of an IPv4 address.
    V4([u8; 4]),
    /// The sixteen bytes of an IPv6 address.
    V6([u8; 16]),
    /// The bytes of a domain name.
    Name(Vec<u8>),
}

/// A host with its bytes as a sequence.
pub enum HostView {
    V4(Seq<u8>),
    V6(Seq<u8>),
    Name(Seq<u8>),
}

impl View for Host {
    type V = HostView;

    open spec fn view(&self) -> HostView {
        match *self {
            Host::V4(b) => HostView::V4(b@),
            Host::V6(b) => HostView::V6(b@),
            Host::Name(n) => HostView::Name(n@),
        }
    }
}

/// The host can be encoded: an address has its four or sixteen bytes, a
/// name at most 255.
pub open spec fn encodable(h: HostView) -> bool {
    match h {
        HostView::V4(b) => b.len() == 4,
        HostView::V6(b) => b.len() == 16,
        HostView::Name(n) => n.len() <= 255,
    }
}

/// A number below 65536 in two bytes, the higher first.
pub open spec fn be2(n: nat) -> Seq<u8> {
    seq![(n / 256) as u8, (n % 256) as u8]
}

/// The address encoding of SOCKS5: the kind of the host, the host, the port.
pub open spec fn address_bytes(h: HostView, port: u16) -> Seq<u8> {
    (match h {
        HostView::V4(b) => seq![1u8] + b,
        HostView::V6(b) => seq![4u8] + b,
        HostView::Name(n) => seq![3u8, n.len() as u8] + n,
    }) + be2(port as nat)
}

/// The two bytes that end a line.
pub open spec fn crlf() -> Seq<u8> {
    seq![13u8, 10u8]
}

/// The byte of a command.
pub open spec fn command_byte(c: TrojanCommand) -> u8 {
    match c {
        TrojanCommand::Connect => 1,
        TrojanCommand::UdpAssociate => 3,
    }
}

/// A digit of lower-case hex.
pub open spec fn is_hex(b: u8) -> bool {
    (0x30 <= b <= 0x39) || (0x61 <= b <= 0x66)
}

/// The bytes are a digest in hex: 56 digits.
pub open spec fn is_digest(d: Seq<u8>) -> bool {
    d.len() == 56 && forall|i: int| 0 <= i < d.len() ==> is_hex(#[trigger] d[i])
}

/// The header that opens a flow.
pub open spec fn header_bytes(digest: Seq<u8>, c: TrojanCommand, h: HostView, port: u16) -> Seq<u8> {
    digest + crlf() + seq![command_byte(c)] + address_bytes(h, port) + crlf()
}

/// The record of one datagram.
pub open spec fn record_bytes(h: HostView, port: u16, payload: Seq<u8>) -> Seq<u8> {
    address_bytes(h, port) + be2(payload.len()) + crlf() + payload
}

/// What reading gives: the peer's host and port, the payload, and the
/// number of bytes the frame took.
pub struct Parsed {
    pub host: HostView,
    pub port: u16,
    pub payload: Seq<u8>,
    pub consumed: int,
}

/// The number that two bytes give, the higher first.
pub open spec fn from_be2(hi: u8, lo: u8) -> int {
    (hi as int) * 256 + lo as int
}

/// The address at the head of `bytes`, with the number of bytes it takes.
pub open spec fn parse_address(bytes: Seq<u8>) -> Result<(HostView, u16, int), FrameError> {
    if bytes.len() < 1 {
        Err(FrameError::Incomplete)
    } else if bytes[0] == 1 {
        if bytes.len() < 7 {
            Err(FrameError::Incomplete)
        } else {
            Ok((HostView::V4(bytes.subrange(1, 5)), from_be2(bytes[5], bytes[6]) as u16, 7))
        }
    } else if bytes[0] == 4 {
        if bytes.len() < 19 {
            Err(FrameError::Incomplete)
        } else {
            Ok((HostView::V6(bytes.subrange(1, 17)), from_be2(bytes[17], bytes[18]) as u16, 19))
        }
    } else if bytes[0] == 3 {
        if bytes.len() < 2 || bytes.len() < 4 + bytes[1] {
            Err(FrameError::Incomplete)
        } else {
            let n = bytes[1] as int;
            Ok(
                (
                    HostView::Name(bytes.subrange(2, 2 + n)),
                    from_be2(bytes[2 + n], bytes[3 + n]) as u16,
                    4 + n,
                ),
            )
        }
    } else {
        Err(FrameError::Malformed)
    }
}

/// The record at the head of `bytes`.
pub open spec fn parse_record(bytes: Seq<u8>) -> Result<Parsed, FrameError> {
    match parse_address(bytes) {
        Err(e) => Err(e),
        Ok((host, port, at)) => if bytes.len() < at + 4 {
            Err(FrameError::Incomplete)
        } else if bytes[at + 2] != 13 || bytes[at + 3] != 10 {
            Err(FrameError::Malformed)
        } else {
            let n = from_be2(bytes[at], bytes[at + 1]);
            if bytes.len() < at + 4 + n {
                Err(FrameError::Incomplete)
            } else {
                Ok(
                    Parsed {
                        host,
                        port,
                        payload: bytes.subrange(at + 4, at + 4 + n),
                        consumed: at + 4 + n,
                    },
                )
            }
        },
    }
}

/// Reading what was written gives it back.
pub proof fn lemma_address_round_trip(h: HostView, port: u16, rest: Seq<u8>)
    requires
        encodable(h),
    ensures
        parse_address(address_bytes(h, port) + rest) == Ok::<(HostView, u16, int), FrameError>(
            (h, port, address_bytes(h, port).len() as int),
        ),
{
    let a = address_bytes(h, port);
    let all = a + rest;
    assert(from_be2((port as nat / 256) as u8, (port as nat % 256) as u8) == port as int);
    match h {
        HostView::V4(b) => {
            assert(all.subrange(1, 5) =~= b);
            assert(all[5] == (port as nat / 256) as u8);
            assert(all[6] == (port as nat % 256) as u8);
        },
        HostView::V6(b) => {
            assert(all.subrange(1, 17) =~= b);
            assert(all[17] == (port as nat / 256) as u8);
            assert(all[18] == (port as nat % 256) as u8);
        },
        HostView::Name(n) => {
            let k = n.len() as int;
            assert(all[1] == k as u8);
            assert(all.subrange(2, 2 + k) =~= n);
            assert(all[2 + k] == (port as nat / 256) as u8);
            assert(all[3 + k] == (port as nat % 256) as u8);
        },
    }
}

/// A datagram that is framed and read again is the datagram that was
/// framed, whatever follows it, as long as the payload fits a record.
pub proof fn lemma_record_round_trip(h: HostView, port: u16, payload: Seq<u8>, rest: Seq<u8>)
    requires
        encodable(h),
        payload.len() <= 65535,
    ensures
        parse_record(record_bytes(h, port, payload) + rest) == Ok::<Parsed, FrameError>(
            Parsed { host: h, port, payload, consumed: record_bytes(h, port, payload).len() as int },
        ),
{
    let a = address_bytes(h, port);
    let tail = be2(payload.len()) + crlf() + payload + rest;
    let all = record_bytes(h, port, payload) + rest;
    assert(all =~= a + tail);
    lemma_address_round_trip(h, port, tail);
    let at = a.len() as int;
    let n = payload.len() as int;
    assert(from_be2((n / 256) as u8, (n % 256) as u8) == n);
    assert(all[at] == (n / 256) as u8);
    assert(all[at + 1] == (n % 256) as u8);
    assert(all[at + 2] == 13);
    assert(all[at + 3] == 10);
    assert(all.subrange(at + 4, at + 4 + n) =~= payload);
}

/// Appends `bytes` to `out`.
fn push_all(out: &mut Vec<u8>, bytes: &[u8])
    ensures
        final(out)@ == old(out)@ + bytes@,
{
    let ghost before = out@;
    let mut i: usize = 0;
    while i < bytes.len()
        invariant
            i <= bytes.len(),
            out@ == before + bytes@.take(i as int),
        decreases bytes.len() - i,
    {
        out.push(bytes[i]);
        assert(bytes@.take(i + 1) =~= bytes@.take(i as int).push(bytes@[i as int]));
        i += 1;
    }
    assert(bytes@.take(bytes@.len() as int) =~= bytes@);
}

/// Appends a number in two bytes, the higher first.
fn push_be2(out: &mut Vec<u8>, n: u16)
    ensures
        final(out)@ == old(out)@ + be2(n as nat),
{
    let ghost before = out@;
    out.push((n / 256) as u8);
    out.push((n % 256) as u8);
    assert(out@ =~= before + be2(n as nat));
}

/// Appends the two bytes that end a line.
fn push_crlf(out: &mut Vec<u8>)
    ensures
        final(out)@ == old(out)@ + crlf(),
{
    let ghost before = out@;
    out.push(13);
    out.push(10);
    assert(out@ =~= before + crlf());
}

/// Appends the address encoding of `host` and `port` to `out`. A name of
/// more than 255 bytes is refused, and `out` stays as it was.
pub fn encode_address(out: &mut Vec<u8>, host: &Host, port: u16) -> (r: Result<(), FrameError>)
    ensures
        match r {
            Ok(()) => encodable(host@) && final(out)@ == old(out)@ + address_bytes(host@, port),
            Err(e) => !encodable(host@) && e == FrameError::NameTooLong && final(out)@ == old(
                out,
            )@,
        },
{
    let ghost before = out@;
    match host {
        Host::V4(b) => {
            out.push(1);
            push_all(out, b.as_slice());
            push_be2(out, port);
            assert(out@ =~= before + address_bytes(host@, port));
        },
        Host::V6(b) => {
            out.push(4);
            push_all(out, b.as_slice());
            push_be2(out, port);
            assert(out@ =~= before + address_bytes(host@, port));
        },
        Host::Name(n) => {
            if n.len() > 255 {
                return Err(FrameError::NameTooLong);
            }
            out.push(3);
            out.push(n.len() as u8);
            push_all(out, n.as_slice());
            push_be2(out, port);
            assert(out@ =~= before + address_bytes(host@, port));
        },
    }
    Ok(())
}

/// Whether `digest` is 56 digits of lower-case hex.
pub fn check_digest(digest: &[u8]) -> (r: bool)
    ensures
        r == is_digest(digest@),
{
    if digest.len() != DIGEST_LEN {
        return false;
    }
    let mut i: usize = 0;
    while i < digest.len()
        invariant
            i <= digest.len(),
            forall|j: int| 0 <= j < i ==> is_hex(#[trigger] digest@[j]),
        decreases digest.len() - i,
    {
        let b = digest[i];
        if !((0x30 <= b && b <= 0x39) || (0x61 <= b && b <= 0x66)) {
            return false;
        }
        i += 1;
    }
    true
}

/// The header that opens a flow to `host` and `port` on a connection to
/// the relay. `digest` is the password's digest in hex.
pub fn request_header(digest: &[u8], command: TrojanCommand, host: &Host, port: u16) -> (r: Result<
    Vec<u8>,
    FrameError,
>)
    ensures
        match r {
            Ok(bytes) => is_digest(digest@) && encodable(host@) && bytes@ == header_bytes(
                digest@,
                command,
                host@,
                port,
            ),
            Err(e) => if !is_digest(digest@) {
                e == FrameError::InvalidDigest
            } else {
                !encodable(host@) && e == FrameError::NameTooLong
            },
        },
{
    if !check_digest(digest) {
        return Err(FrameError::InvalidDigest);
    }
    let mut out: Vec<u8> = Vec::new();
    push_all(&mut out, digest);
    push_crlf(&mut out);
    out.push(
        match command {
            TrojanCommand::Connect => 1,
            TrojanCommand::UdpAssociate => 3,
        },
    );
    let ghost head = out@;
    assert(head =~= digest@ + crlf() + seq![command_byte(command)]);
    match encode_address(&mut out, host, port) {
        Err(e) => Err(e),
        Ok(()) => {
            push_crlf(&mut out);
            assert(out@ =~= header_bytes(digest@, command, host@, port));
            Ok(out)
        },
    }
}

/// The SHA-224 digest of a password's bytes.
pub uninterp spec fn sha224(password: Seq<char>) -> Seq<u8>;

/// Calls `Digest::digest` of `sha2::Sha224` on the password's bytes. The
/// digest has 28 bytes; which bytes they are is given a name and not said.
#[verifier::external_body]
pub(crate) fn sha224_digest(password: &str) -> (r: Vec<u8>)
    ensures
        r@ == sha224(password@),
        r@.len() == 28,
{
    Sha224::digest(password.as_bytes()).to_vec()
}

/// The digit of lower-case hex for a number below 16.
pub open spec fn hex_digit(n: int) -> u8 {
    if n < 10 {
        (0x30 + n) as u8
    } else {
        (0x61 + n - 10) as u8
    }
}

/// Bytes in lower-case hex: two digits for each byte, the higher first.
pub open spec fn hex_bytes(bytes: Seq<u8>) -> Seq<u8> {
    Seq::new(
        2 * bytes.len(),
        |i: int|
            if i % 2 == 0 {
                hex_digit(bytes[i / 2] as int / 16)
            } else {
                hex_digit(bytes[i / 2] as int % 16)
            },
    )
}

/// The hex of 28 bytes is a digest in hex.
pub proof fn lemma_hex_is_digest(bytes: Seq<u8>)
    requires
        bytes.len() == 28,
    ensures
        is_digest(hex_bytes(bytes)),
{
    let h = hex_bytes(bytes);
    assert forall|i: int| 0 <= i < h.len() implies is_hex(#[trigger] h[i]) by {
        let b = bytes[i / 2] as int;
        assert(0 <= b / 16 < 16 && 0 <= b % 16 < 16);
    }
}

fn digit(n: u8) -> (r: u8)
    requires
        n < 16,
    ensures
        r == hex_digit(n as int),
{
    if n < 10 {
        0x30 + n
    } else {
        0x61 + (n - 10)
    }
}

/// Writes bytes in lower-case hex.
pub fn to_hex(bytes: &[u8]) -> (r: Vec<u8>)
    ensures
        r@ == hex_bytes(bytes@),
{
    let mut out: Vec<u8> = Vec::new();
    let mut i: usize = 0;
    while i < bytes.len()
        invariant
            i <= bytes.len(),
            out@ =~= hex_bytes(bytes@.take(i as int)),
        decreases bytes.len() - i,
    {
        let b = bytes[i];
        let ghost so_far = out@;
        out.push(digit(b / 16));
        out.push(digit(b % 16));
        proof {
            let more = bytes@.take(i + 1);
            let seen = bytes@.take(i as int);
            assert forall|j: int| 0 <= j < out@.len() implies out@[j] == hex_bytes(more)[j] by {
                if j < 2 * i {
                    assert(so_far[j] == hex_bytes(seen)[j]);
                    assert(seen[j / 2] == more[j / 2]);
                } else {
                    assert(more[j / 2] == b);
                }
            }
            assert(out@ =~= hex_bytes(more));
        }
        i += 1;
    }
    assert(bytes@.take(bytes@.len() as int) =~= bytes@);
    out
}

/// The header that opens a flow to `host` and `port` for the holder of
/// `password`: it begins with the SHA-224 digest of the password in hex.
pub fn open_request(password: &str, command: TrojanCommand, host: &Host, port: u16) -> (r: Result<
    Vec<u8>,
    FrameError,
>)
    ensures
        match r {
            Ok(bytes) => encodable(host@) && bytes@ == header_bytes(
                hex_bytes(sha224(password@)),
                command,
                host@,
                port,
            ),
            Err(e) => !encodable(host@) && e == FrameError::NameTooLong,
        },
{
    let raw = sha224_digest(password);
    let digest = to_hex(raw.as_slice());
    proof {
        lemma_hex_is_digest(raw@);
    }
    request_header(digest.as_slice(), command, host, port)
}

/// The record of one datagram for the peer `host` and `port`.
pub fn encode_datagram(host: &Host, port: u16, payload: &[u8]) -> (r: Result<Vec<u8>, FrameError>)
    ensures
        match r {
            Ok(bytes) => encodable(host@) && payload@.len() <= 65535 && bytes@ == record_bytes(
                host@,
                port,
                payload@,
            ),
            Err(e) => if payload@.len() > 65535 {
                e == FrameError::PayloadTooLong
            } else {
                !encodable(host@) && e == FrameError::NameTooLong
            },
        },
{
    if payload.len() > MAX_PAYLOAD {
        return Err(FrameError::PayloadTooLong);
    }
    let mut out: Vec<u8> = Vec::new();
    match encode_address(&mut out, host, port) {
        Err(e) => Err(e),
        Ok(()) => {
            push_be2(&mut out, payload.len() as u16);
            push_crlf(&mut out);
            push_all(&mut out, payload);
            assert(out@ =~= record_bytes(host@, port, payload@));
            Ok(out)
        },
    }
}

/// One datagram as it was read from a record.
#[derive(Debug, PartialEq, Eq)]
pub struct Datagram {
    pub host: Host,
    pub port: u16,
    pub payload: Vec<u8>,
    /// The number of bytes the record took.
    pub consumed: usize,
}

impl View for Datagram {
    type V = Parsed;

    open spec fn view(&self) -> Parsed {
        Parsed {
            host: self.host@,
            port: self.port,
            payload: self.payload@,
            consumed: self.consumed as int,
        }
    }
}

/// The bytes of `bytes` from `from` up to `to`.
pub(crate) fn copy_range(bytes: &[u8], from: usize, to: usize) -> (r: Vec<u8>)
    requires
        from <= to <= bytes@.len(),
    ensures
        r@ == bytes@.subrange(from as int, to as int),
{
    let mut out: Vec<u8> = Vec::new();
    let mut i: usize = from;
    while i < to
        invariant
            from <= i <= to <= bytes@.len(),
            out@ == bytes@.subrange(from as int, i as int),
        decreases to - i,
    {
        out.push(bytes[i]);
        assert(bytes@.subrange(from as int, i + 1) =~= bytes@.subrange(from as int, i as int).push(
            bytes@[i as int],
        ));
        i += 1;
    }
    out
}

/// Reads the address at the head of `bytes`: the host, the port, and the
/// number of bytes the address took. `Incomplete` where the bytes end
/// before the address does, `Malformed` where the kind of host is unknown.
pub fn decode_address(bytes: &[u8]) -> (r: Result<(Host, u16, usize), FrameError>)
    ensures
        match r {
            Ok((host, port, at)) => parse_address(bytes@) == Ok::<(HostView, u16, int), FrameError>(
                (host@, port, at as int),
            ) && at <= bytes@.len(),
            Err(e) => parse_address(bytes@) == Err::<(HostView, u16, int), FrameError>(e),
        },
{
    if bytes.len() < 1 {
        return Err(FrameError::Incomplete);
    }
    let kind = bytes[0];
    if kind == 1 {
        if bytes.len() < 7 {
            return Err(FrameError::Incomplete);
        }
        let b: [u8; 4] = [bytes[1], bytes[2], bytes[3], bytes[4]];
        assert(b@ =~= bytes@.subrange(1, 5));
        let port = (bytes[5] as u16) * 256 + bytes[6] as u16;
        Ok((Host::V4(b), port, 7))
    } else if kind == 4 {
        if bytes.len() < 19 {
            return Err(FrameError::Incomplete);
        }
        let b: [u8; 16] = [
            bytes[1],
            bytes[2],
            bytes[3],
            bytes[4],
            bytes[5],
            bytes[6],
            bytes[7],
            bytes[8],
            bytes[9],
            bytes[10],
            bytes[11],
            bytes[12],
            bytes[13],
            bytes[14],
            bytes[15],
            bytes[16],
        ];
        assert(b@ =~= bytes@.subrange(1, 17));
        let port = (bytes[17] as u16) * 256 + bytes[18] as u16;
        Ok((Host::V6(b), port, 19))
    } else if kind == 3 {
        if bytes.len() < 2 {
            return Err(FrameError::Incomplete);
        }
        let n = bytes[1] as usize;
        if bytes.len() < 4 + n {
            return Err(FrameError::Incomplete);
        }
        let name = copy_range(bytes, 2, 2 + n);
        let port = (bytes[2 + n] as u16) * 256 + bytes[3 + n] as u16;
        Ok((Host::Name(name), port, 4 + n))
    } else {
        Err(FrameError::Malformed)
    }
}

/// Reads the record at the head of `bytes`.
///
/// `Incomplete` where the bytes end before the record does: the caller
/// reads on and tries again. `Malformed` where the bytes are no record.
pub fn decode_datagram(bytes: &[u8]) -> (r: Result<Datagram, FrameError>)
    ensures
        match r {
            Ok(d) => parse_record(bytes@) == Ok::<Parsed, FrameError>(d@) && d.consumed
                <= bytes@.len(),
            Err(e) => parse_record(bytes@) == Err::<Parsed, FrameError>(e),
        },
{
    let (host, port, at) = match decode_address(bytes) {
        Ok(found) => found,
        Err(e) => {
            return Err(e);
        },
    };
    if bytes.len() - at < 4 {
        return Err(FrameError::Incomplete);
    }
    if bytes[at + 2] != 13 || bytes[at + 3] != 10 {
        return Err(FrameError::Malformed);
    }
    let n = (bytes[at] as usize) * 256 + bytes[at + 1] as usize;
    if bytes.len() - at - 4 < n {
        return Err(FrameError::Incomplete);
    }
    let payload = copy_range(bytes, at + 4, at + 4 + n);
    Ok(Datagram { host, port, payload, consumed: at + 4 + n })
}

} // verus!
