//! Wire codec for the two unconnected packet kinds.
//!
//! The byte layout is big-endian with no padding.  A ping is
//! `tag, request id, magic, client guid`; a pong is
//! `tag, request id, server guid, magic, status length, status text`.
//! Both carry a fixed sixteen-byte magic constant that the decoder
//! checks exactly; the status text is length-prefixed UTF-8.

use vstd::prelude::*;
use vstd::slice::{slice_subrange, slice_to_vec};
use vstd::utf8::{decode_utf8, encode_utf8, valid_utf8};
use vstd::utf8::{encode_utf8_decode_utf8, encode_utf8_valid_utf8};
use crate::beint::{
    lemma_u16_be_round_trip, lemma_u64_be_round_trip, push_u16_be, push_u64_be, read_u16_be,
    read_u64_be, u16_be_bytes, u16_from_be, u64_be_bytes, u64_from_be,
};

verus! {

/// Tag byte of an unconnected ping.
pub const PING_TAG: u8 = 0x01;

/// Tag byte of an unconnected pong.
pub const PONG_TAG: u8 = 0x1C;

/// Total length of an encoded ping: tag, request id, magic, client guid.
pub const PING_LEN: usize = 33;

/// Length of the fixed-size prefix of an encoded pong: tag, request id,
/// server guid, magic, status length.
pub const PONG_HEADER_LEN: usize = 35;

/// The fixed magic constant that sits between the identifier fields of
/// both packet kinds.
pub open spec fn spec_magic() -> Seq<u8> {
    seq![
        0x00u8,
        0xFFu8,
        0xFFu8,
        0x00u8,
        0xFEu8,
        0xFEu8,
        0xFEu8,
        0xFEu8,
        0xFDu8,
        0xFDu8,
        0xFDu8,
        0xFDu8,
        0x12u8,
        0x34u8,
        0x56u8,
        0x78u8,
    ]
}

/// A decoded packet.  The request identifier field is named
/// `elapsed_time` after the protocol convention: the prober stores its
/// correlation identifier in it and the responder echoes it back.
#[derive(Clone, Debug, PartialEq, Eq)]
pub enum Packet {
    UnconnectedPing { elapsed_time: u64, client_guid: u64 },
    UnconnectedPong { elapsed_time: u64, server_guid: u64, user_data: String },
}

/// The mathematical value of a packet: the status text is taken as its
/// character sequence.
#[verifier::ext_equal]
pub enum PacketModel {
    Ping { elapsed_time: u64, client_guid: u64 },
    Pong { elapsed_time: u64, server_guid: u64, user_data: Seq<char> },
}

impl View for Packet {
    type V = PacketModel;

    open spec fn view(&self) -> PacketModel {
        match self {
            Packet::UnconnectedPing { elapsed_time, client_guid } => PacketModel::Ping {
                elapsed_time: *elapsed_time,
                client_guid: *client_guid,
            },
            Packet::UnconnectedPong { elapsed_time, server_guid, user_data } => PacketModel::Pong {
                elapsed_time: *elapsed_time,
                server_guid: *server_guid,
                user_data: user_data@,
            },
        }
    }
}

impl PacketModel {
    /// A packet is well formed when its encoding exists: a pong's
    /// status text must fit the two-byte length prefix.
    pub open spec fn wf(self) -> bool {
        match self {
            PacketModel::Ping { .. } => true,
            PacketModel::Pong { user_data, .. } => encode_utf8(user_data).len() <= 0xFFFF,
        }
    }

    /// Offset of the magic constant within the encoding.
    pub open spec fn magic_offset(self) -> int {
        match self {
            PacketModel::Ping { .. } => 9,
            PacketModel::Pong { .. } => 17,
        }
    }
}

/// Why a buffer failed to decode.
#[derive(Clone, Copy, Debug, PartialEq, Eq, Structural)]
pub enum DecodeError {
    /// The tag byte is neither of the two recognized values.
    UnexpectedVariant { found: u8 },
    /// The buffer ends before the fields it declares.
    UnexpectedEnd,
    /// The magic constant does not match exactly.
    BadMagic,
    /// The status text is not valid UTF-8.
    InvalidUtf8,
}

/// Why a packet failed to encode.
#[derive(Clone, Copy, Debug, PartialEq, Eq, Structural)]
pub enum EncodeError {
    /// The status text does not fit the two-byte length prefix.
    StatusTooLong,
}

/// The encoding of a well-formed packet.
pub open spec fn spec_encode(p: PacketModel) -> Seq<u8> {
    match p {
        PacketModel::Ping { elapsed_time, client_guid } => seq![PING_TAG]
            + u64_be_bytes(elapsed_time) + spec_magic() + u64_be_bytes(client_guid),
        PacketModel::Pong { elapsed_time, server_guid, user_data } => {
            let payload = encode_utf8(user_data);
            seq![PONG_TAG] + u64_be_bytes(elapsed_time) + u64_be_bytes(server_guid) + spec_magic()
                + u16_be_bytes(payload.len() as u16) + payload
        },
    }
}

/// The packet a buffer decodes to, or the error it fails with.  Bytes
/// after the decoded packet are ignored, as a datagram may be padded.
pub open spec fn spec_decode(d: Seq<u8>) -> Result<PacketModel, DecodeError> {
    if d.len() < 1 {
        Err(DecodeError::UnexpectedEnd)
    } else if d[0] == PING_TAG {
        if d.len() < PING_LEN {
            Err(DecodeError::UnexpectedEnd)
        } else if d.subrange(9, 25) != spec_magic() {
            Err(DecodeError::BadMagic)
        } else {
            Ok(
                PacketModel::Ping {
                    elapsed_time: u64_from_be(d.subrange(1, 9)),
                    client_guid: u64_from_be(d.subrange(25, 33)),
                },
            )
        }
    } else if d[0] == PONG_TAG {
        if d.len() < PONG_HEADER_LEN {
            Err(DecodeError::UnexpectedEnd)
        } else if d.subrange(17, 33) != spec_magic() {
            Err(DecodeError::BadMagic)
        } else {
            let n = u16_from_be(d.subrange(33, 35)) as int;
            if d.len() < 35 + n {
                Err(DecodeError::UnexpectedEnd)
            } else {
                let payload = d.subrange(35, 35 + n);
                if !valid_utf8(payload) {
                    Err(DecodeError::InvalidUtf8)
                } else {
                    Ok(
                        PacketModel::Pong {
                            elapsed_time: u64_from_be(d.subrange(1, 9)),
                            server_guid: u64_from_be(d.subrange(9, 17)),
                            user_data: decode_utf8(payload),
                        },
                    )
                }
            }
        }
    } else {
        Err(DecodeError::UnexpectedVariant { found: d[0] })
    }
}

/// The magic constant as bytes.
fn magic_bytes() -> (r: Vec<u8>)
    ensures
        r@ == spec_magic(),
{
    let mut r: Vec<u8> = Vec::new();
    r.push(0x00);
    r.push(0xFF);
    r.push(0xFF);
    r.push(0x00);
    r.push(0xFE);
    r.push(0xFE);
    r.push(0xFE);
    r.push(0xFE);
    r.push(0xFD);
    r.push(0xFD);
    r.push(0xFD);
    r.push(0xFD);
    r.push(0x12);
    r.push(0x34);
    r.push(0x56);
    r.push(0x78);
    proof {
        assert(r@ =~= spec_magic());
    }
    r
}

/// Whether the sixteen bytes at `off` are exactly the magic constant.
fn has_magic_at(data: &[u8], off: usize) -> (r: bool)
    requires
        off + 16 <= data@.len(),
    ensures
        r == (data@.subrange(off as int, off as int + 16) == spec_magic()),
{
    let m = magic_bytes();
    let n = data.len();
    let mut i: usize = 0;
    while i < 16
        invariant
            0 <= i <= 16,
            n == data@.len(),
            off + 16 <= n,
            m@ == spec_magic(),
            forall|j: int| 0 <= j < i ==> data@[off as int + j] == spec_magic()[j],
        decreases 16 - i,
    {
        if data[off + i] != m[i] {
            proof {
                let sub = data@.subrange(off as int, off as int + 16);
                assert(sub[i as int] == data@[off as int + i as int]);
                if sub == spec_magic() {
                    assert(sub[i as int] == spec_magic()[i as int]);
                }
            }
            return false;
        }
        i += 1;
    }
    proof {
        assert(data@.subrange(off as int, off as int + 16) =~= spec_magic());
    }
    true
}

/// Relies on `String::from_utf8`: it returns the string whose bytes are
/// exactly the given vector when that vector is valid UTF-8, and an
/// error otherwise.
#[verifier::external_body]
fn string_from_utf8(v: Vec<u8>) -> (r: Option<String>)
    ensures
        r is Some <==> valid_utf8(v@),
        r matches Some(s) ==> s@ == decode_utf8(v@),
{
    String::from_utf8(v).ok()
}

impl Packet {
    /// Encodes the packet to its wire bytes; fails only when a pong's
    /// status text does not fit the two-byte length prefix.
    pub fn encode(&self) -> (r: Result<Vec<u8>, EncodeError>)
        ensures
            self@.wf() ==> (r matches Ok(v) && v@ == spec_encode(self@)),
            !self@.wf() ==> (r matches Err(e) && e == EncodeError::StatusTooLong),
    {
        match self {
            Packet::UnconnectedPing { elapsed_time, client_guid } => {
                let mut out: Vec<u8> = Vec::new();
                out.push(PING_TAG);
                push_u64_be(&mut out, *elapsed_time);
                let mut m = magic_bytes();
                out.append(&mut m);
                push_u64_be(&mut out, *client_guid);
                proof {
                    assert(out@ =~= spec_encode(self@));
                }
                Ok(out)
            },
            Packet::UnconnectedPong { elapsed_time, server_guid, user_data } => {
                let payload = user_data.as_str().as_bytes();
                if payload.len() > 0xFFFF {
                    return Err(EncodeError::StatusTooLong);
                }
                let mut out: Vec<u8> = Vec::new();
                out.push(PONG_TAG);
                push_u64_be(&mut out, *elapsed_time);
                push_u64_be(&mut out, *server_guid);
                let mut m = magic_bytes();
                out.append(&mut m);
                push_u16_be(&mut out, payload.len() as u16);
                let mut pv = slice_to_vec(payload);
                out.append(&mut pv);
                proof {
                    assert(out@ =~= spec_encode(self@));
                }
                Ok(out)
            },
        }
    }

    /// Decodes a buffer, rejecting an unknown tag, a buffer shorter
    /// than the fields it declares, a wrong magic constant, and status
    /// text that is not valid UTF-8.
    pub fn decode(data: &[u8]) -> (r: Result<Packet, DecodeError>)
        ensures
            spec_decode(data@) matches Ok(m) ==> (r matches Ok(p) && p@ == m),
            spec_decode(data@) matches Err(e) ==> (r matches Err(e2) && e2 == e),
    {
        if data.len() < 1 {
            return Err(DecodeError::UnexpectedEnd);
        }
        let tag = data[0];
        if tag == PING_TAG {
            if data.len() < PING_LEN {
                return Err(DecodeError::UnexpectedEnd);
            }
            if !has_magic_at(data, 9) {
                return Err(DecodeError::BadMagic);
            }
            let elapsed_time = read_u64_be(data, 1);
            let client_guid = read_u64_be(data, 25);
            Ok(Packet::UnconnectedPing { elapsed_time, client_guid })
        } else if tag == PONG_TAG {
            if data.len() < PONG_HEADER_LEN {
                return Err(DecodeError::UnexpectedEnd);
            }
            if !has_magic_at(data, 17) {
                return Err(DecodeError::BadMagic);
            }
            let n = read_u16_be(data, 33) as usize;
            if data.len() < PONG_HEADER_LEN + n {
                return Err(DecodeError::UnexpectedEnd);
            }
            let payload = slice_subrange(data, PONG_HEADER_LEN, PONG_HEADER_LEN + n);
            let payload_vec = slice_to_vec(payload);
            match string_from_utf8(payload_vec) {
                None => Err(DecodeError::InvalidUtf8),
                Some(user_data) => {
                    let elapsed_time = read_u64_be(data, 1);
                    let server_guid = read_u64_be(data, 9);
                    Ok(Packet::UnconnectedPong { elapsed_time, server_guid, user_data })
                },
            }
        } else {
            Err(DecodeError::UnexpectedVariant { found: tag })
        }
    }
}

/// Round trip: decoding the encoding of any well-formed packet yields
/// the packet back.
#[verifier::rlimit(50)]
pub proof fn lemma_round_trip(p: PacketModel)
    requires
        p.wf(),
    ensures
        spec_decode(spec_encode(p)) == Ok::<PacketModel, DecodeError>(p),
{
    let e = spec_encode(p);
    match p {
        PacketModel::Ping { elapsed_time, client_guid } => {
            assert(e.len() == 33);
            assert(e[0] == PING_TAG);
            assert(e.subrange(9, 25) =~= spec_magic());
            assert(e.subrange(1, 9) =~= u64_be_bytes(elapsed_time));
            assert(e.subrange(25, 33) =~= u64_be_bytes(client_guid));
            lemma_u64_be_round_trip(elapsed_time);
            lemma_u64_be_round_trip(client_guid);
            assert(spec_decode(e) == Ok::<PacketModel, DecodeError>(p));
        },
        PacketModel::Pong { elapsed_time, server_guid, user_data } => {
            encode_utf8_valid_utf8(user_data);
            encode_utf8_decode_utf8(user_data);
            let payload = encode_utf8(user_data);
            let len16 = payload.len() as u16;
            assert(len16 as int == payload.len());
            assert(e.len() == 35 + payload.len());
            assert(e[0] == PONG_TAG);
            assert(e.subrange(17, 33) =~= spec_magic());
            assert(e.subrange(1, 9) =~= u64_be_bytes(elapsed_time));
            assert(e.subrange(9, 17) =~= u64_be_bytes(server_guid));
            assert(e.subrange(33, 35) =~= u16_be_bytes(len16));
            lemma_u64_be_round_trip(elapsed_time);
            lemma_u64_be_round_trip(server_guid);
            lemma_u16_be_round_trip(len16);
            assert(e.subrange(35, 35 + payload.len() as int) =~= payload);
            assert(spec_decode(e) matches Ok(m) && m =~= p);
        },
    }
}

/// Magic rejection: a buffer laid out like a well-formed packet whose
/// magic field differs anywhere from the fixed constant fails with
/// `BadMagic`.
pub proof fn lemma_magic_rejection(p: PacketModel, d: Seq<u8>)
    requires
        p.wf(),
        d.len() == spec_encode(p).len(),
        d[0] == spec_encode(p)[0],
        d.subrange(p.magic_offset(), p.magic_offset() + 16) != spec_magic(),
    ensures
        spec_decode(d) == Err::<PacketModel, DecodeError>(DecodeError::BadMagic),
{
    match p {
        PacketModel::Ping { .. } => {
            assert(spec_encode(p).len() == 33);
            assert(spec_encode(p)[0] == PING_TAG);
        },
        PacketModel::Pong { user_data, .. } => {
            assert(spec_encode(p).len() == 35 + encode_utf8(user_data).len());
            assert(spec_encode(p)[0] == PONG_TAG);
        },
    }
}

/// Truncation: decoding any strict prefix of the encoding of a
/// well-formed packet fails.
pub proof fn lemma_truncation(p: PacketModel, n: int)
    requires
        p.wf(),
        0 <= n < spec_encode(p).len(),
    ensures
        spec_decode(spec_encode(p).take(n)) is Err,
{
    let e = spec_encode(p);
    let t = e.take(n);
    assert(t.len() == n);
    assert(forall|j: int| 0 <= j < n ==> t[j] == e[j]);
    match p {
        PacketModel::Ping { .. } => {
            assert(e.len() == 33);
        },
        PacketModel::Pong { elapsed_time, server_guid, user_data } => {
            let payload = encode_utf8(user_data);
            let len16 = payload.len() as u16;
            assert(len16 as int == payload.len());
            assert(e.len() == 35 + payload.len());
            assert(e[0] == PONG_TAG);
            if n >= PONG_HEADER_LEN as int {
                assert(t.subrange(17, 33) =~= e.subrange(17, 33));
                assert(e.subrange(17, 33) =~= spec_magic());
                assert(t.subrange(33, 35) =~= e.subrange(33, 35));
                assert(e.subrange(33, 35) =~= u16_be_bytes(len16));
                lemma_u16_be_round_trip(len16);
                assert(t.len() < 35 + payload.len());
            }
        },
    }
}

/// Unknown tag: a buffer whose first byte is neither recognized tag
/// fails with `UnexpectedVariant` carrying that byte.
pub proof fn lemma_unknown_tag(d: Seq<u8>)
    requires
        d.len() >= 1,
        d[0] != PING_TAG,
        d[0] != PONG_TAG,
    ensures
        spec_decode(d) == Err::<PacketModel, DecodeError>(
            DecodeError::UnexpectedVariant { found: d[0] },
        ),
{
}

} // verus!
