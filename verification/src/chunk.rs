use vstd::prelude::*;

use crate::wire::{
    be16, be24, be32, le32, push_bytes, push_u24_be, push_u32_be, push_u32_le, read_u24_be,
    read_u32_be, read_u32_le, spec_u24_be, spec_u32_be, spec_u32_le,
};

verus! {

/// Classification of a message by its type id.
#[derive(Clone, Copy, Debug, PartialEq, Eq, Structural)]
pub enum MessageType {
    Connect,
    Publish,
    Audio,
    Video,
    SetChunkSize,
    Abort,
    Acknowledgement,
    WindowAcknowledgementSize,
    SetPeerBandwidth,
    UserControl,
    Command,
    Metadata,
    Unknown,
}

pub open spec fn spec_message_type(value: u8) -> MessageType {
    match value {
        1 => MessageType::SetChunkSize,
        2 => MessageType::Abort,
        3 => MessageType::Acknowledgement,
        4 => MessageType::UserControl,
        5 => MessageType::WindowAcknowledgementSize,
        6 => MessageType::SetPeerBandwidth,
        8 => MessageType::Audio,
        9 => MessageType::Video,
        18 => MessageType::Metadata,
        20 => MessageType::Command,
        17 => MessageType::Command,
        _ => MessageType::Unknown,
    }
}

impl From<u8> for MessageType {
    fn from(value: u8) -> (r: Self) {
        match value {
            1 => MessageType::SetChunkSize,
            2 => MessageType::Abort,
            3 => MessageType::Acknowledgement,
            4 => MessageType::UserControl,
            5 => MessageType::WindowAcknowledgementSize,
            6 => MessageType::SetPeerBandwidth,
            8 => MessageType::Audio,
            9 => MessageType::Video,
            18 => MessageType::Metadata,
            20 => MessageType::Command,
            17 => MessageType::Command,
            _ => MessageType::Unknown,
        }
    }
}

impl vstd::std_specs::convert::FromSpecImpl<u8> for MessageType {
    open spec fn obeys_from_spec() -> bool {
        true
    }

    open spec fn from_spec(v: u8) -> MessageType {
        spec_message_type(v)
    }
}

/// A message reduced to its classification and payload, for callers
/// that need no header detail.
#[derive(Debug, PartialEq, Eq)]
pub struct RtmpMessage {
    pub message_type: MessageType,
    pub payload: Vec<u8>,
}

/// The fields of one chunk header as they stand on the wire. For
/// formats 1 and 2 the `timestamp` field carries the delta; fields a
/// compressed format omits are zero here, and the demuxer fills them
/// from its cache.
#[derive(Clone, Copy, Debug, PartialEq, Eq, Structural)]
pub struct RtmpHeader {
    pub format: u8,
    pub chunk_stream_id: u32,
    pub timestamp: u32,
    pub message_length: u32,
    pub message_type_id: u8,
    pub message_stream_id: u32,
}

pub open spec fn spec_parse_after_basic(b: Seq<u8>, off: int, fmt: u8, cs: u32) -> Option<
    (RtmpHeader, int),
> {
    if fmt == 0 {
        if b.len() < off + 11 {
            None
        } else {
            let ts0 = be24(b[off], b[off + 1], b[off + 2]);
            let mlen = be24(b[off + 3], b[off + 4], b[off + 5]);
            let ty = b[off + 6];
            let sid = le32(b[off + 7], b[off + 8], b[off + 9], b[off + 10]);
            if ts0 == 0xFFFFFF {
                if b.len() < off + 15 {
                    None
                } else {
                    Some(
                        (
                            RtmpHeader {
                                format: 0,
                                chunk_stream_id: cs,
                                timestamp: be32(b[off + 11], b[off + 12], b[off + 13], b[off + 14]),
                                message_length: mlen,
                                message_type_id: ty,
                                message_stream_id: sid,
                            },
                            off + 15,
                        ),
                    )
                }
            } else {
                Some(
                    (
                        RtmpHeader {
                            format: 0,
                            chunk_stream_id: cs,
                            timestamp: ts0,
                            message_length: mlen,
                            message_type_id: ty,
                            message_stream_id: sid,
                        },
                        off + 11,
                    ),
                )
            }
        }
    } else if fmt == 1 {
        if b.len() < off + 7 {
            None
        } else {
            let ts0 = be24(b[off], b[off + 1], b[off + 2]);
            let mlen = be24(b[off + 3], b[off + 4], b[off + 5]);
            let ty = b[off + 6];
            if ts0 == 0xFFFFFF {
                if b.len() < off + 11 {
                    None
                } else {
                    Some(
                        (
                            RtmpHeader {
                                format: 1,
                                chunk_stream_id: cs,
                                timestamp: be32(b[off + 7], b[off + 8], b[off + 9], b[off + 10]),
                                message_length: mlen,
                                message_type_id: ty,
                                message_stream_id: 0,
                            },
                            off + 11,
                        ),
                    )
                }
            } else {
                Some(
                    (
                        RtmpHeader {
                            format: 1,
                            chunk_stream_id: cs,
                            timestamp: ts0,
                            message_length: mlen,
                            message_type_id: ty,
                            message_stream_id: 0,
                        },
                        off + 7,
                    ),
                )
            }
        }
    } else if fmt == 2 {
        if b.len() < off + 3 {
            None
        } else {
            let ts0 = be24(b[off], b[off + 1], b[off + 2]);
            if ts0 == 0xFFFFFF {
                if b.len() < off + 7 {
                    None
                } else {
                    Some(
                        (
                            RtmpHeader {
                                format: 2,
                                chunk_stream_id: cs,
                                timestamp: be32(b[off + 3], b[off + 4], b[off + 5], b[off + 6]),
                                message_length: 0,
                                message_type_id: 0,
                                message_stream_id: 0,
                            },
                            off + 7,
                        ),
                    )
                }
            } else {
                Some(
                    (
                        RtmpHeader {
                            format: 2,
                            chunk_stream_id: cs,
                            timestamp: ts0,
                            message_length: 0,
                            message_type_id: 0,
                            message_stream_id: 0,
                        },
                        off + 3,
                    ),
                )
            }
        }
    } else {
        Some(
            (
                RtmpHeader {
                    format: 3,
                    chunk_stream_id: cs,
                    timestamp: 0,
                    message_length: 0,
                    message_type_id: 0,
                    message_stream_id: 0,
                },
                off,
            ),
        )
    }
}

pub open spec fn spec_parse_header(b: Seq<u8>) -> Option<(RtmpHeader, int)> {
    if b.len() < 1 {
        None
    } else {
        let fmt = b[0] >> 6;
        let csb = b[0] & 0x3f;
        if csb == 0 {
            if b.len() < 2 {
                None
            } else {
                spec_parse_after_basic(b, 2, fmt, (b[1] as u32 + 64) as u32)
            }
        } else if csb == 1 {
            if b.len() < 3 {
                None
            } else {
                spec_parse_after_basic(
                    b,
                    3,
                    fmt,
                    (((b[2] as u32) << 8) + (b[1] as u32) + 64) as u32,
                )
            }
        } else {
            spec_parse_after_basic(b, 1, fmt, csb as u32)
        }
    }
}

/// Whatever a header parse returns, its message length fits its
/// 3-byte field.
pub proof fn lemma_parse_header_len(b: Seq<u8>)
    ensures
        spec_parse_header(b) matches Some(p) ==> p.0.message_length < 0x1000000,
{
    if b.len() >= 1 {
        crate::wire::lemma_be24_bound(b[4int], b[5int], b[6int]);
        crate::wire::lemma_be24_bound(b[5int], b[6int], b[7int]);
        crate::wire::lemma_be24_bound(b[6int], b[7int], b[8int]);
    }
}

/// A parsed header occupies at least its first byte.
pub proof fn lemma_parse_header_consumes(b: Seq<u8>)
    ensures
        spec_parse_header(b) matches Some(p) ==> p.1 >= 1,
{
}

impl RtmpHeader {
    /// Parses one chunk header from the front of `data`. `None` means
    /// the buffer does not yet hold the whole header: the caller waits
    /// for more bytes. On `Some`, the second component is the number of
    /// bytes the header occupies, and the payload fragment follows it.
    /// A 3-byte timestamp field equal to 0xFFFFFF escapes into a 4-byte
    /// extended timestamp that overrides it.
    pub fn parse(data: &[u8]) -> (r: Option<(RtmpHeader, usize)>)
        ensures
            match r {
                Some(p) => spec_parse_header(data@) == Some((p.0, p.1 as int)),
                None => spec_parse_header(data@) is None,
            },
    {
        let n = data.len();
        if n < 1 {
            return None;
        }
        let first = data[0];
        let fmt = first >> 6;
        let csb = first & 0x3f;
        let cs: u32;
        let off: usize;
        if csb == 0 {
            if n < 2 {
                return None;
            }
            cs = data[1] as u32 + 64;
            off = 2;
        } else if csb == 1 {
            if n < 3 {
                return None;
            }
            let hi = data[2] as u32;
            proof {
                assert(hi <= 255 ==> (hi << 8) <= 0xFF00u32) by (bit_vector);
            }
            cs = (hi << 8) + (data[1] as u32) + 64;
            off = 3;
        } else {
            cs = csb as u32;
            off = 1;
        }
        if fmt == 0 {
            if n < off + 11 {
                return None;
            }
            let ts0 = read_u24_be(data, off);
            let mlen = read_u24_be(data, off + 3);
            let ty = data[off + 6];
            let sid = read_u32_le(data, off + 7);
            if ts0 == 0xFFFFFF {
                if n < off + 15 {
                    return None;
                }
                let ext = read_u32_be(data, off + 11);
                Some(
                    (
                        RtmpHeader {
                            format: 0,
                            chunk_stream_id: cs,
                            timestamp: ext,
                            message_length: mlen,
                            message_type_id: ty,
                            message_stream_id: sid,
                        },
                        off + 15,
                    ),
                )
            } else {
                Some(
                    (
                        RtmpHeader {
                            format: 0,
                            chunk_stream_id: cs,
                            timestamp: ts0,
                            message_length: mlen,
                            message_type_id: ty,
                            message_stream_id: sid,
                        },
                        off + 11,
                    ),
                )
            }
        } else if fmt == 1 {
            if n < off + 7 {
                return None;
            }
            let ts0 = read_u24_be(data, off);
            let mlen = read_u24_be(data, off + 3);
            let ty = data[off + 6];
            if ts0 == 0xFFFFFF {
                if n < off + 11 {
                    return None;
                }
                let ext = read_u32_be(data, off + 7);
                Some(
                    (
                        RtmpHeader {
                            format: 1,
                            chunk_stream_id: cs,
                            timestamp: ext,
                            message_length: mlen,
                            message_type_id: ty,
                            message_stream_id: 0,
                        },
                        off + 11,
                    ),
                )
            } else {
                Some(
                    (
                        RtmpHeader {
                            format: 1,
                            chunk_stream_id: cs,
                            timestamp: ts0,
                            message_length: mlen,
                            message_type_id: ty,
                            message_stream_id: 0,
                        },
                        off + 7,
                    ),
                )
            }
        } else if fmt == 2 {
            if n < off + 3 {
                return None;
            }
            let ts0 = read_u24_be(data, off);
            if ts0 == 0xFFFFFF {
                if n < off + 7 {
                    return None;
                }
                let ext = read_u32_be(data, off + 3);
                Some(
                    (
                        RtmpHeader {
                            format: 2,
                            chunk_stream_id: cs,
                            timestamp: ext,
                            message_length: 0,
                            message_type_id: 0,
                            message_stream_id: 0,
                        },
                        off + 7,
                    ),
                )
            } else {
                Some(
                    (
                        RtmpHeader {
                            format: 2,
                            chunk_stream_id: cs,
                            timestamp: ts0,
                            message_length: 0,
                            message_type_id: 0,
                            message_stream_id: 0,
                        },
                        off + 3,
                    ),
                )
            }
        } else {
            Some(
                (
                    RtmpHeader {
                        format: 3,
                        chunk_stream_id: cs,
                        timestamp: 0,
                        message_length: 0,
                        message_type_id: 0,
                        message_stream_id: 0,
                    },
                    off,
                ),
            )
        }
    }
}

/// The basic (first) header of a chunk: format bits plus the
/// chunk-stream id in its one-, two- or three-byte encoding.
pub open spec fn spec_basic_header(fmt: u8, cs: u32) -> Seq<u8>
    recommends
        fmt < 4,
        2 <= cs < 65600,
{
    if cs < 64 {
        seq![(fmt << 6) | (cs as u8)]
    } else if cs < 320 {
        seq![fmt << 6, (cs - 64) as u8]
    } else {
        seq![(fmt << 6) | 1, (cs - 64) as u8, (((cs - 64) as u32) >> 8) as u8]
    }
}

/// A format-0 chunk header: basic header, 11-byte message header, and
/// the extended timestamp when the timestamp does not fit 24 bits.
pub open spec fn spec_chunk0_header(cs: u32, ts: u32, len: u32, ty: u8, sid: u32) -> Seq<u8>
    recommends
        2 <= cs < 65600,
        len < 0x1000000,
{
    spec_basic_header(0, cs) + (if ts < 0xFFFFFF {
        spec_u24_be(ts)
    } else {
        seq![0xFFu8, 0xFFu8, 0xFFu8]
    }) + spec_u24_be(len) + seq![ty] + spec_u32_le(sid) + (if ts < 0xFFFFFF {
        Seq::<u8>::empty()
    } else {
        spec_u32_be(ts)
    })
}

/// A format-3 chunk header is the basic header alone.
pub open spec fn spec_chunk3_header(cs: u32) -> Seq<u8>
    recommends
        2 <= cs < 65600,
{
    spec_basic_header(3, cs)
}

/// Appends the basic header for `fmt` and `cs`.
pub fn write_basic_header(out: &mut Vec<u8>, fmt: u8, cs: u32)
    requires
        fmt < 4,
        2 <= cs < 65600,
    ensures
        final(out)@ == old(out)@ + spec_basic_header(fmt, cs),
{
    if cs < 64 {
        out.push((fmt << 6) | (cs as u8));
        proof {
            assert(out@ =~= old(out)@ + spec_basic_header(fmt, cs));
        }
    } else if cs < 320 {
        out.push(fmt << 6);
        out.push((cs - 64) as u8);
        proof {
            assert(out@ =~= old(out)@ + spec_basic_header(fmt, cs));
        }
    } else {
        let e = cs - 64;
        out.push((fmt << 6) | 1);
        out.push(e as u8);
        out.push((e >> 8) as u8);
        proof {
            assert(out@ =~= old(out)@ + spec_basic_header(fmt, cs));
        }
    }
}

/// Appends a full format-0 chunk header.
pub fn write_chunk0_header(out: &mut Vec<u8>, cs: u32, ts: u32, len: u32, ty: u8, sid: u32)
    requires
        2 <= cs < 65600,
        len < 0x1000000,
    ensures
        final(out)@ == old(out)@ + spec_chunk0_header(cs, ts, len, ty, sid),
{
    write_basic_header(out, 0, cs);
    if ts < 0xFFFFFF {
        push_u24_be(out, ts);
    } else {
        out.push(0xFF);
        out.push(0xFF);
        out.push(0xFF);
    }
    push_u24_be(out, len);
    out.push(ty);
    push_u32_le(out, sid);
    if ts >= 0xFFFFFF {
        push_u32_be(out, ts);
    }
    proof {
        assert(out@ =~= old(out)@ + spec_chunk0_header(cs, ts, len, ty, sid));
    }
}

/// Builds one chunk on the protocol-control stream (chunk-stream id 2,
/// format 0, timestamp 0, message-stream id 0) around `payload`.
pub fn create_control_message(message_type: u8, payload: &[u8]) -> (r: Vec<u8>)
    requires
        payload@.len() < 0x1000000,
    ensures
        r@ == spec_chunk0_header(2, 0, payload@.len() as u32, message_type, 0) + payload@,
{
    let mut chunk: Vec<u8> = Vec::new();
    write_chunk0_header(&mut chunk, 2, 0, payload.len() as u32, message_type, 0);
    push_bytes(&mut chunk, payload);
    proof {
        assert(chunk@ =~= spec_chunk0_header(2, 0, payload@.len() as u32, message_type, 0)
            + payload@);
    }
    chunk
}

/// Parsing a basic header it wrote gives back the format and the
/// chunk-stream id, whatever follows.
proof fn lemma_parse_basic_header(fmt: u8, cs: u32, t: Seq<u8>)
    requires
        fmt < 4,
        2 <= cs < 65600,
    ensures
        ({
            let b = spec_basic_header(fmt, cs) + t;
            &&& b.len() >= 1
            &&& b[0] >> 6 == fmt
            &&& (cs < 64 ==> (b[0] & 0x3f) == cs && spec_basic_header(fmt, cs).len() == 1)
            &&& (64 <= cs < 320 ==> (b[0] & 0x3f) == 0 && b.len() >= 2 && (b[1] as u32 + 64) as u32
                == cs && spec_basic_header(fmt, cs).len() == 2)
            &&& (320 <= cs ==> (b[0] & 0x3f) == 1 && b.len() >= 3 && (((b[2] as u32) << 8) + (
            b[1] as u32) + 64) as u32 == cs && spec_basic_header(fmt, cs).len() == 3)
        }),
{
    let b = spec_basic_header(fmt, cs) + t;
    if cs < 64 {
        let h0 = (fmt << 6) | (cs as u8);
        assert(b[0] == h0);
        assert(fmt < 4 && cs < 64 ==> ((fmt << 6) | (cs as u8)) >> 6 == fmt && (((fmt << 6) | (
        cs as u8)) & 0x3f) == cs as u8) by (bit_vector);
    } else if cs < 320 {
        let h0 = fmt << 6;
        assert(b[0] == h0 && b[1] == (cs - 64) as u8);
        assert(fmt < 4 ==> (fmt << 6) >> 6 == fmt && ((fmt << 6) & 0x3f) == 0) by (bit_vector);
    } else {
        let e = (cs - 64) as u32;
        let h0 = (fmt << 6) | 1;
        assert(b[0] == h0 && b[1] == e as u8 && b[2] == (e >> 8) as u8);
        assert(fmt < 4 ==> ((fmt << 6) | 1) >> 6 == fmt && (((fmt << 6) | 1) & 0x3f) == 1)
            by (bit_vector);
        assert(e < 0x10000 ==> ((((e >> 8) as u8) as u32) << 8) + ((e as u8) as u32) == e)
            by (bit_vector);
    }
}

/// Parsing a format-0 chunk header it wrote gives back every field,
/// whatever follows.
#[verifier::rlimit(100)]
#[verifier::spinoff_prover]
pub proof fn lemma_parse_chunk0_header(cs: u32, ts: u32, len: u32, ty: u8, sid: u32, t: Seq<u8>)
    requires
        2 <= cs < 65600,
        len < 0x1000000,
    ensures
        spec_parse_header(spec_chunk0_header(cs, ts, len, ty, sid) + t) == Some(
            (
                RtmpHeader {
                    format: 0,
                    chunk_stream_id: cs,
                    timestamp: ts,
                    message_length: len,
                    message_type_id: ty,
                    message_stream_id: sid,
                },
                spec_chunk0_header(cs, ts, len, ty, sid).len() as int,
            ),
        ),
{
    let hb = spec_basic_header(0, cs);
    let tsf = if ts < 0xFFFFFF {
        spec_u24_be(ts)
    } else {
        seq![0xFFu8, 0xFFu8, 0xFFu8]
    };
    let ext = if ts < 0xFFFFFF {
        Seq::<u8>::empty()
    } else {
        spec_u32_be(ts)
    };
    let body = tsf + spec_u24_be(len) + seq![ty] + spec_u32_le(sid) + ext;
    let b = spec_chunk0_header(cs, ts, len, ty, sid) + t;
    assert(b =~= hb + (body + t));
    lemma_parse_basic_header(0, cs, body + t);
    let off = hb.len() as int;
    assert(forall|i: int| 0 <= i < body.len() ==> b[off + i] == body[i]);
    assert(body[0] == tsf[0] && body[1] == tsf[1] && body[2] == tsf[2]);
    assert(body[3] == spec_u24_be(len)[0] && body[4] == spec_u24_be(len)[1] && body[5]
        == spec_u24_be(len)[2]);
    assert(body[6] == ty);
    assert(body[7] == spec_u32_le(sid)[0] && body[8] == spec_u32_le(sid)[1] && body[9]
        == spec_u32_le(sid)[2] && body[10] == spec_u32_le(sid)[3]);
    crate::wire::lemma_u24_be_round_trip(len);
    crate::wire::lemma_u32_le_round_trip(sid);
    if ts < 0xFFFFFF {
        crate::wire::lemma_u24_be_round_trip(ts);
        assert(be24(b[off], b[off + 1], b[off + 2]) == ts);
        assert(spec_parse_after_basic(b, off, 0, cs) == Some(
            (
                RtmpHeader {
                    format: 0,
                    chunk_stream_id: cs,
                    timestamp: ts,
                    message_length: len,
                    message_type_id: ty,
                    message_stream_id: sid,
                },
                off + 11,
            ),
        ));
    } else {
        assert(be24(0xFF, 0xFF, 0xFF) == 0xFFFFFF) by (bit_vector);
        assert(be24(b[off], b[off + 1], b[off + 2]) == 0xFFFFFF);
        assert(body[11] == spec_u32_be(ts)[0] && body[12] == spec_u32_be(ts)[1] && body[13]
            == spec_u32_be(ts)[2] && body[14] == spec_u32_be(ts)[3]);
        crate::wire::lemma_u32_be_round_trip(ts);
        assert(be32(b[off + 11], b[off + 12], b[off + 13], b[off + 14]) == ts);
        assert(spec_parse_after_basic(b, off, 0, cs) == Some(
            (
                RtmpHeader {
                    format: 0,
                    chunk_stream_id: cs,
                    timestamp: ts,
                    message_length: len,
                    message_type_id: ty,
                    message_stream_id: sid,
                },
                off + 15,
            ),
        ));
    }
}

/// Parsing a format-3 basic header it wrote gives back the id and a
/// header of zeroed fields, whatever follows.
pub proof fn lemma_parse_chunk3_header(cs: u32, t: Seq<u8>)
    requires
        2 <= cs < 65600,
    ensures
        spec_parse_header(spec_chunk3_header(cs) + t) == Some(
            (
                RtmpHeader {
                    format: 3,
                    chunk_stream_id: cs,
                    timestamp: 0,
                    message_length: 0,
                    message_type_id: 0,
                    message_stream_id: 0,
                },
                spec_chunk3_header(cs).len() as int,
            ),
        ),
{
    lemma_parse_basic_header(3, cs, t);
    let b = spec_chunk3_header(cs) + t;
    assert(b =~= spec_basic_header(3, cs) + t);
}

/// The payload of one message cut into fragments of at most `csize`
/// bytes, a format-3 basic header standing before every fragment but
/// the first.
pub open spec fn spec_chunks_of(cs: u32, payload: Seq<u8>, csize: int) -> Seq<u8>
    recommends
        csize >= 1,
    decreases payload.len(),
{
    if csize < 1 {
        payload
    } else if payload.len() <= csize {
        payload
    } else {
        payload.take(csize) + spec_chunk3_header(cs) + spec_chunks_of(
            cs,
            payload.skip(csize),
            csize,
        )
    }
}

/// The wire image of one outbound message: a format-0 header carrying
/// all four fields, then the payload in fragments of at most the
/// outbound chunk size, each continuation led by a format-3 header.
pub open spec fn spec_mux_message(
    cs: u32,
    ts: u32,
    ty: u8,
    sid: u32,
    payload: Seq<u8>,
    csize: int,
) -> Seq<u8> {
    spec_chunk0_header(cs, ts, payload.len() as u32, ty, sid) + spec_chunks_of(cs, payload, csize)
}

/// Encodes one message as chunks.
pub fn mux_message(
    cs: u32,
    ts: u32,
    ty: u8,
    sid: u32,
    payload: &[u8],
    chunk_size: u32,
) -> (r: Vec<u8>)
    requires
        2 <= cs < 65600,
        payload@.len() < 0x1000000,
        1 <= chunk_size,
    ensures
        r@ == spec_mux_message(cs, ts, ty, sid, payload@, chunk_size as int),
{
    let n = payload.len();
    let csize = chunk_size as usize;
    let mut out: Vec<u8> = Vec::new();
    write_chunk0_header(&mut out, cs, ts, n as u32, ty, sid);
    let first = if n < csize {
        n
    } else {
        csize
    };
    push_bytes(&mut out, &payload[0..first]);
    let mut off: usize = first;
    proof {
        if n <= csize {
            assert(payload@.subrange(0, first as int) =~= payload@);
            assert(out@ =~= spec_mux_message(cs, ts, ty, sid, payload@, chunk_size as int));
        } else {
            assert(payload@.subrange(0, first as int) =~= payload@.take(csize as int));
        }
    }
    while off < n
        invariant
            2 <= cs < 65600,
            1 <= csize,
            csize == chunk_size,
            n == payload@.len(),
            off <= n,
            out@ + (if off == n {
                Seq::<u8>::empty()
            } else {
                spec_chunk3_header(cs) + spec_chunks_of(cs, payload@.skip(off as int), csize as int)
            }) == spec_mux_message(cs, ts, ty, sid, payload@, chunk_size as int),
        decreases n - off,
    {
        let m = if n - off < csize {
            n - off
        } else {
            csize
        };
        let ghost pre = out@;
        write_basic_header(&mut out, 3, cs);
        push_bytes(&mut out, &payload[off..off + m]);
        proof {
            let rem = payload@.skip(off as int);
            if n - off <= csize {
                assert(payload@.subrange(off as int, (off + m) as int) =~= rem);
                assert(spec_chunks_of(cs, rem, csize as int) == rem);
                assert(out@ =~= pre + (spec_chunk3_header(cs) + spec_chunks_of(
                    cs,
                    rem,
                    csize as int,
                )));
            } else {
                assert(payload@.subrange(off as int, (off + m) as int) =~= rem.take(csize as int));
                assert(rem.skip(csize as int) =~= payload@.skip((off + m) as int));
                assert(spec_chunks_of(cs, rem, csize as int) == rem.take(csize as int)
                    + spec_chunk3_header(cs) + spec_chunks_of(
                    cs,
                    payload@.skip((off + m) as int),
                    csize as int,
                ));
                assert(out@ + (spec_chunk3_header(cs) + spec_chunks_of(
                    cs,
                    payload@.skip((off + m) as int),
                    csize as int,
                )) =~= pre + (spec_chunk3_header(cs) + spec_chunks_of(cs, rem, csize as int)));
            }
        }
        off = off + m;
    }
    proof {
        assert(out@ + Seq::<u8>::empty() =~= out@);
    }
    out
}

/// Builds one chunk on the command stream (chunk-stream id 3, format 0,
/// AMF0 command type id 20) around `payload`.
pub fn create_command_chunk(payload: &[u8]) -> (r: Vec<u8>)
    requires
        payload@.len() < 0x1000000,
    ensures
        r@ == spec_chunk0_header(3, 0, payload@.len() as u32, 20, 0) + payload@,
{
    let mut chunk: Vec<u8> = Vec::new();
    write_chunk0_header(&mut chunk, 3, 0, payload.len() as u32, 20, 0);
    push_bytes(&mut chunk, payload);
    proof {
        assert(chunk@ =~= spec_chunk0_header(3, 0, payload@.len() as u32, 20, 0) + payload@);
    }
    chunk
}

} // verus!
