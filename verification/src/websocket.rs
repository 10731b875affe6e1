//! The WebSocket engine: the handshake accept key, the `101 Switching
//! Protocols` response, and the frame format — a wire-compatible subset
//! of RFC 6455 in which every frame is treated as a complete message.
//!
//! Parsing works on a byte buffer and says how many bytes one frame
//! consumed; the surrounding connection code reads bytes from the
//! socket and hands them here.

use vstd::prelude::*;
use vstd::string::StringSliceAdditionalSpecFns;

use crate::bytesutil::{be16_of, be64_of, push_bytes, spec_be16, spec_be64, spec_val16, spec_val64};

use base64::Engine;
use sha1::Digest;

verus! {

/// The 4-bit tag that identifies a frame's purpose.
#[derive(Clone, Copy, Debug, PartialEq, Eq, Structural)]
pub enum Opcode {
    Continuation,
    Text,
    Binary,
    Close,
    Ping,
    Pong,
    Other(u8),
}

/// The opcode denoted by a (4-bit) code.
pub open spec fn spec_opcode_of(byte: u8) -> Opcode {
    if byte == 0x0 {
        Opcode::Continuation
    } else if byte == 0x1 {
        Opcode::Text
    } else if byte == 0x2 {
        Opcode::Binary
    } else if byte == 0x8 {
        Opcode::Close
    } else if byte == 0x9 {
        Opcode::Ping
    } else if byte == 0xA {
        Opcode::Pong
    } else {
        Opcode::Other(byte)
    }
}

impl Opcode {
    /// Reads an opcode from its code.
    pub fn from_byte(byte: u8) -> (r: Self)
        ensures
            r == spec_opcode_of(byte),
    {
        match byte {
            0x0 => Opcode::Continuation,
            0x1 => Opcode::Text,
            0x2 => Opcode::Binary,
            0x8 => Opcode::Close,
            0x9 => Opcode::Ping,
            0xA => Opcode::Pong,
            _ => Opcode::Other(byte),
        }
    }
}

/// One parsed frame, taken as a complete message: multi-frame messages
/// are never reassembled.
#[derive(Debug)]
pub struct WebSocketMessage {
    pub opcode: Opcode,
    pub payload: Vec<u8>,
}

/// The frame a byte sequence denotes: the mathematical counterpart of
/// [`WebSocketMessage`], together with the FIN bit (parsed, never used
/// for reassembly) and the count of bytes the frame occupies.
#[verifier::ext_equal]
pub struct FrameModel {
    pub fin: bool,
    pub opcode: Opcode,
    pub payload: Seq<u8>,
    pub used: int,
}

/// A client payload with its 4-byte masking key XORed back out.
pub open spec fn spec_unmask(raw: Seq<u8>, key: Seq<u8>) -> Seq<u8>
    recommends
        key.len() == 4,
{
    Seq::new(raw.len(), |i: int| raw[i] ^ key[i % 4])
}

/// The payload part of a frame, read at `off` after the length bytes.
pub open spec fn spec_parse_rest(b: Seq<u8>, off: int, plen: int) -> Option<FrameModel> {
    let masked = b[1] & 0x80 != 0;
    let off2 = if masked {
        off + 4
    } else {
        off
    };
    if b.len() < off2 + plen {
        None
    } else {
        let raw = b.subrange(off2, off2 + plen);
        Some(
            FrameModel {
                fin: b[0] & 0x80 != 0,
                opcode: spec_opcode_of(b[0] & 0x0f),
                payload: if masked {
                    spec_unmask(raw, b.subrange(off, off + 4))
                } else {
                    raw
                },
                used: off2 + plen,
            },
        )
    }
}

/// The first frame held in `b`, if `b` begins with a complete one.
pub open spec fn spec_parse(b: Seq<u8>) -> Option<FrameModel> {
    if b.len() < 2 {
        None
    } else {
        let len7 = (b[1] & 0x7f) as int;
        if len7 < 126 {
            spec_parse_rest(b, 2, len7)
        } else if len7 == 126 {
            if b.len() < 4 {
                None
            } else {
                spec_parse_rest(b, 4, spec_val16(b[2], b[3]))
            }
        } else {
            if b.len() < 10 {
                None
            } else {
                spec_parse_rest(b, 10, spec_val64(b.subrange(2, 10)))
            }
        }
    }
}

/// A malformed or incomplete frame; the session treats it as the
/// connection closing.
#[derive(Clone, Copy, Debug, PartialEq, Eq, Structural)]
pub struct FrameError;

/// Parses the first frame in `buf`, returning the message and how many
/// bytes the frame occupied. An incomplete or malformed frame is an
/// error, never a partial result.
pub fn parse_websocket_message(buf: &[u8]) -> (r: Result<(WebSocketMessage, usize), FrameError>)
    ensures
        match r {
            Ok((m, used)) => spec_parse(buf@) matches Some(f) && m.opcode == f.opcode && m.payload@
                == f.payload && used as int == f.used,
            Err(_) => spec_parse(buf@) is None,
        },
{
    if buf.len() < 2 {
        return Err(FrameError);
    }
    let len7 = buf[1] & 0x7f;
    let masked = buf[1] & 0x80 != 0;
    let opcode = Opcode::from_byte(buf[0] & 0x0f);

    let (plen, off): (usize, usize) = if len7 < 126 {
        (len7 as usize, 2)
    } else if len7 == 126 {
        if buf.len() < 4 {
            return Err(FrameError);
        }
        ((buf[2] as usize) * 256 + (buf[3] as usize), 4)
    } else {
        if buf.len() < 10 {
            return Err(FrameError);
        }
        let p0 = buf[2] as u64;
        let p1 = buf[3] as u64;
        let p2 = buf[4] as u64;
        let p3 = buf[5] as u64;
        let p4 = buf[6] as u64;
        let p5 = buf[7] as u64;
        let p6 = buf[8] as u64;
        let p7 = buf[9] as u64;
        let plen64 = ((((((p0 * 256 + p1) * 256 + p2) * 256 + p3) * 256 + p4) * 256 + p5) * 256
            + p6) * 256 + p7;
        assert(plen64 == spec_val64(buf@.subrange(2, 10))) by {
            assert(buf@.subrange(2, 10)[0] == p0);
            assert(buf@.subrange(2, 10)[1] == p1);
            assert(buf@.subrange(2, 10)[2] == p2);
            assert(buf@.subrange(2, 10)[3] == p3);
            assert(buf@.subrange(2, 10)[4] == p4);
            assert(buf@.subrange(2, 10)[5] == p5);
            assert(buf@.subrange(2, 10)[6] == p6);
            assert(buf@.subrange(2, 10)[7] == p7);
        }
        if plen64 > usize::MAX as u64 {
            assert(buf@.len() <= usize::MAX);
            return Err(FrameError);
        }
        (plen64 as usize, 10)
    };

    let off2 = if masked {
        off + 4
    } else {
        off
    };
    if buf.len() < off2 || buf.len() - off2 < plen {
        return Err(FrameError);
    }

    let mut key: Vec<u8> = Vec::new();
    if masked {
        key.push(buf[off]);
        key.push(buf[off + 1]);
        key.push(buf[off + 2]);
        key.push(buf[off + 3]);
        assert(key@ =~= buf@.subrange(off as int, off as int + 4));
    }

    let ghost raw = buf@.subrange(off2 as int, off2 as int + plen as int);
    let ghost target = if masked {
        spec_unmask(raw, buf@.subrange(off as int, off as int + 4))
    } else {
        raw
    };
    let blen = buf.len();
    let mut payload: Vec<u8> = Vec::new();
    let mut i: usize = 0;
    while i < plen
        invariant
            i <= plen,
            off2 + plen <= blen,
            blen == buf@.len(),
            masked ==> key@.len() == 4,
            masked ==> key@ == buf@.subrange(off as int, off as int + 4),
            raw == buf@.subrange(off2 as int, off2 as int + plen as int),
            target == (if masked {
                spec_unmask(raw, buf@.subrange(off as int, off as int + 4))
            } else {
                raw
            }),
            payload@ == target.take(i as int),
        decreases plen - i,
    {
        let byte = if masked {
            buf[off2 + i] ^ key[i % 4]
        } else {
            buf[off2 + i]
        };
        assert(byte == target[i as int]);
        payload.push(byte);
        assert(payload@ =~= target.take(i as int + 1));
        i += 1;
    }
    assert(payload@ =~= target);
    Ok((WebSocketMessage { opcode, payload }, off2 + plen))
}

/// The length bytes that announce a payload of `n` bytes: one literal
/// byte below 126, `126` and two big-endian bytes up to 65535, `127`
/// and eight big-endian bytes beyond.
pub open spec fn spec_len_bytes(n: int) -> Seq<u8> {
    if n < 126 {
        seq![n as u8]
    } else if n <= 65535 {
        seq![126u8] + spec_be16(n as u16)
    } else {
        seq![127u8] + spec_be64(n as u64)
    }
}

/// The server-to-client encoding of a text message: FIN set, opcode
/// Text, no mask.
pub open spec fn spec_encode_text(p: Seq<u8>) -> Seq<u8> {
    seq![0x81u8] + spec_len_bytes(p.len() as int) + p
}

/// Encodes `msg` as one unmasked text frame, as the writer sends it.
pub fn encode_websocket_message(msg: &[u8]) -> (r: Vec<u8>)
    ensures
        r@ == spec_encode_text(msg@),
{
    let mut frame: Vec<u8> = Vec::new();
    frame.push(0x81);
    if msg.len() < 126 {
        frame.push(msg.len() as u8);
    } else if msg.len() <= 65535 {
        frame.push(126);
        let mut ext = be16_of(msg.len() as u16);
        frame.append(&mut ext);
    } else {
        frame.push(127);
        let mut ext = be64_of(msg.len() as u64);
        frame.append(&mut ext);
    }
    assert(frame@ =~= seq![0x81u8] + spec_len_bytes(msg@.len() as int));
    push_bytes(&mut frame, msg);
    assert(frame@ =~= spec_encode_text(msg@));
    frame
}

#[verifier::rlimit(60)]
/// Encoding a text message and parsing the result yields the original
/// payload, a Text opcode and a set FIN bit, and consumes the whole
/// encoding — for every payload, including lengths either side of the
/// 125/126 and 65535/65536 boundaries.
pub proof fn lemma_websocket_round_trip(p: Seq<u8>)
    requires
        p.len() <= u64::MAX,
    ensures
        spec_parse(spec_encode_text(p)) matches Some(f) && f.fin && f.opcode == Opcode::Text
            && f.payload == p && f.used == spec_encode_text(p).len(),
{
    let b = spec_encode_text(p);
    let n = p.len() as int;
    assert(0x81u8 & 0x80 != 0 && 0x81u8 & 0x0f == 1) by (bit_vector);
    assert(b[0] == 0x81u8);
    if n < 126 {
        let lb = n as u8;
        assert(lb < 126 ==> lb & 0x7f == lb && lb & 0x80 == 0) by (bit_vector);
        assert(b[1] == lb);
        assert(b.len() == 2 + n);
        assert(b.subrange(2, 2 + n) =~= p);
    } else if n <= 65535 {
        assert(126u8 & 0x7f == 126 && 126u8 & 0x80 == 0) by (bit_vector);
        assert(b[1] == 126u8);
        assert(b.len() == 4 + n);
        assert(b[2] == spec_be16(n as u16)[0] && b[3] == spec_be16(n as u16)[1]);
        crate::bytesutil::lemma_be16_val(n as u16);
        assert(spec_val16(b[2], b[3]) == n);
        assert(b.subrange(4, 4 + n) =~= p);
    } else {
        assert(127u8 & 0x7f == 127 && 127u8 & 0x80 == 0) by (bit_vector);
        assert(b[1] == 127u8);
        assert(b.len() == 10 + n);
        assert(b.subrange(2, 10) =~= spec_be64(n as u64));
        crate::bytesutil::lemma_be64_val(n as u64);
        assert(spec_val64(b.subrange(2, 10)) == n);
        assert(b.subrange(10, 10 + n) =~= p);
    }
}

/// The protocol constant appended to the client's key before hashing.
pub open spec fn spec_ws_guid() -> Seq<u8> {
    "258EAFA5-E914-47DA-95CA-C5AB0DC85B11".spec_bytes()
}

/// The SHA-1 digest of a byte sequence, a function of the bytes alone.
pub uninterp spec fn sha1_of(bytes: Seq<u8>) -> Seq<u8>;

/// Relies on `sha1::Sha1` through the `Digest` interface: the 20-byte
/// SHA-1 digest of the input, a function of the input bytes alone.
#[verifier::external_body]
fn sha1_digest(bytes: &Vec<u8>) -> (r: Vec<u8>)
    ensures
        r@ == sha1_of(bytes@),
        r@.len() == 20,
{
    let mut hasher = sha1::Sha1::new();
    hasher.update(bytes.as_slice());
    hasher.finalize().to_vec()
}

/// The standard padded base64 encoding of a byte sequence, a function
/// of the bytes alone.
pub uninterp spec fn base64_of(bytes: Seq<u8>) -> Seq<u8>;

/// Relies on `base64::Engine::encode` with the standard alphabet and
/// padding: a deterministic encoding of the input bytes. The length
/// bound keeps clear of the buffer-size overflow on which that
/// function panics.
#[verifier::external_body]
fn base64_encode(bytes: &Vec<u8>) -> (r: Vec<u8>)
    requires
        bytes@.len() <= 0x10000000,
    ensures
        r@ == base64_of(bytes@),
{
    base64::prelude::BASE64_STANDARD.encode(bytes.as_slice()).into_bytes()
}

/// The accept value owed for a client key: the base64 encoding of the
/// SHA-1 digest of the key followed by the protocol constant.
pub open spec fn spec_accept_key(key: Seq<u8>) -> Seq<u8> {
    base64_of(sha1_of(key + spec_ws_guid()))
}

/// Computes the `Sec-WebSocket-Accept` value for a client key.
pub fn generate_websocket_accept_key(key: &Vec<u8>) -> (r: Vec<u8>)
    ensures
        r@ == spec_accept_key(key@),
{
    let mut input: Vec<u8> = Vec::new();
    push_bytes(&mut input, key.as_slice());
    push_bytes(&mut input, "258EAFA5-E914-47DA-95CA-C5AB0DC85B11".as_bytes());
    let digest = sha1_digest(&input);
    base64_encode(&digest)
}

/// The full `101 Switching Protocols` response owed for a client key.
pub open spec fn spec_handshake_response(key: Seq<u8>) -> Seq<u8> {
    "HTTP/1.1 101 Switching Protocols\r\nUpgrade: websocket\r\nConnection: Upgrade\r\nSec-WebSocket-Accept: ".spec_bytes()
        + spec_accept_key(key) + "\r\n\r\n".spec_bytes()
}

/// Builds the handshake response for a client key. Writing it is the
/// caller's side; a failed write aborts before any session exists.
pub fn handshake_response(key: &Vec<u8>) -> (r: Vec<u8>)
    ensures
        r@ == spec_handshake_response(key@),
{
    let mut response: Vec<u8> = Vec::new();
    push_bytes(
        &mut response,
        "HTTP/1.1 101 Switching Protocols\r\nUpgrade: websocket\r\nConnection: Upgrade\r\nSec-WebSocket-Accept: ".as_bytes(),
    );
    let mut accept = generate_websocket_accept_key(key);
    response.append(&mut accept);
    push_bytes(&mut response, "\r\n\r\n".as_bytes());
    response
}

} // verus!
