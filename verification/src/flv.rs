use vstd::prelude::*;

use crate::wire::{push_bytes, push_u24_be, push_u32_be, spec_u24_be, spec_u32_be};

verus! {

/// The 13 bytes that open an FLV stream: "FLV", version 1, the
/// audio-and-video flags byte, the header length 9, and the zero
/// previous-tag-size that precedes the first tag.
pub open spec fn spec_flv_header() -> Seq<u8> {
    seq![0x46u8, 0x4Cu8, 0x56u8, 0x01u8, 0x05u8, 0u8, 0u8, 0u8, 0x09u8] + spec_u32_be(0)
}

/// One FLV tag: type, 3-byte payload length, 3-byte timestamp with a
/// 1-byte extended-timestamp-high, a zero 3-byte stream id, the
/// payload, and the 4-byte previous-tag-size (11 plus the payload
/// length).
pub open spec fn spec_flv_tag(tag_type: u8, timestamp: u32, payload: Seq<u8>) -> Seq<u8>
    recommends
        payload.len() < 0x1000000,
{
    seq![tag_type] + spec_u24_be(payload.len() as u32) + spec_u24_be((timestamp & 0xFFFFFF) as u32)
        + seq![(timestamp >> 24) as u8, 0u8, 0u8, 0u8] + payload + spec_u32_be(
        (11 + payload.len()) as u32,
    )
}

/// Builds the FLV file header, written once when publishing starts.
pub fn flv_file_header() -> (r: Vec<u8>)
    ensures
        r@ == spec_flv_header(),
{
    let mut out: Vec<u8> = Vec::new();
    out.push(0x46);
    out.push(0x4C);
    out.push(0x56);
    out.push(0x01);
    out.push(0x05);
    out.push(0);
    out.push(0);
    out.push(0);
    out.push(0x09);
    push_u32_be(&mut out, 0);
    proof {
        assert(out@ =~= spec_flv_header());
    }
    out
}

/// Builds one FLV tag around a media payload.
pub fn flv_tag(tag_type: u8, timestamp: u32, payload: &[u8]) -> (r: Vec<u8>)
    requires
        payload@.len() < 0x1000000,
    ensures
        r@ == spec_flv_tag(tag_type, timestamp, payload@),
{
    let mut out: Vec<u8> = Vec::new();
    out.push(tag_type);
    push_u24_be(&mut out, payload.len() as u32);
    push_u24_be(&mut out, timestamp & 0xFFFFFF);
    out.push((timestamp >> 24) as u8);
    out.push(0);
    out.push(0);
    out.push(0);
    push_bytes(&mut out, payload);
    push_u32_be(&mut out, (11 + payload.len()) as u32);
    proof {
        assert(out@ =~= spec_flv_tag(tag_type, timestamp, payload@));
    }
    out
}

} // verus!
