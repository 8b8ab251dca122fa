use streamx::chunk::{create_command_chunk, create_control_message, mux_message, RtmpHeader};
use streamx::demux::{Demuxer, DemuxStep, Message};
use streamx::error::StreamError;

fn demux_all(d: &mut Demuxer, mut data: &[u8]) -> Vec<Message> {
    let mut out = Vec::new();
    loop {
        match d.demux_chunk(data).expect("demux") {
            DemuxStep::NeedMoreData => {
                assert!(data.is_empty(), "leftover bytes: {:?}", data);
                return out;
            }
            DemuxStep::Consumed(sz, msg) => {
                if let Some(m) = msg {
                    out.push(m);
                }
                data = &data[sz..];
            }
        }
    }
}

#[test]
fn format0_header_is_parsed() {
    // cs-id 3, timestamp 0x000102, length 0x000014, type 20, stream id 1 (LE)
    let data = [0x03, 0x00, 0x01, 0x02, 0x00, 0x00, 0x14, 0x14, 0x01, 0x00, 0x00, 0x00];
    let (h, used) = RtmpHeader::parse(&data).expect("parse");
    assert_eq!(used, 12);
    assert_eq!(h.format, 0);
    assert_eq!(h.chunk_stream_id, 3);
    assert_eq!(h.timestamp, 0x0102);
    assert_eq!(h.message_length, 0x14);
    assert_eq!(h.message_type_id, 20);
    assert_eq!(h.message_stream_id, 1);
}

#[test]
fn escaped_chunk_stream_ids_are_parsed() {
    // one-byte escape: id = 10 + 64
    let d1 = [0xC0, 10];
    let (h1, u1) = RtmpHeader::parse(&d1).expect("parse");
    assert_eq!((h1.format, h1.chunk_stream_id, u1), (3, 74, 2));
    // two-byte escape, little-endian: id = 0x0102 + 64
    let d2 = [0xC1, 0x02, 0x01];
    let (h2, u2) = RtmpHeader::parse(&d2).expect("parse");
    assert_eq!((h2.format, h2.chunk_stream_id, u2), (3, 0x0102 + 64, 3));
}

#[test]
fn extended_timestamp_is_honored() {
    let mut data = vec![0x03, 0xFF, 0xFF, 0xFF, 0x00, 0x00, 0x00, 0x09, 0x00, 0x00, 0x00, 0x00];
    data.extend_from_slice(&0x01020304u32.to_be_bytes());
    let (h, used) = RtmpHeader::parse(&data).expect("parse");
    assert_eq!(used, 16);
    assert_eq!(h.timestamp, 0x01020304);
}

#[test]
fn incomplete_header_waits_for_more() {
    assert!(RtmpHeader::parse(&[]).is_none());
    assert!(RtmpHeader::parse(&[0x03, 0x00]).is_none());
}

#[test]
fn control_message_wire_shape() {
    let m = create_control_message(5, &5_000_000u32.to_be_bytes());
    assert_eq!(m[0], 0x02);
    assert_eq!(&m[1..4], &[0, 0, 0]);
    assert_eq!(&m[4..7], &[0, 0, 4]);
    assert_eq!(m[7], 5);
    assert_eq!(&m[8..12], &[0, 0, 0, 0]);
    assert_eq!(&m[12..], &5_000_000u32.to_be_bytes());
}

#[test]
fn command_chunk_wire_shape() {
    let m = create_command_chunk(&[1, 2, 3]);
    assert_eq!(m[0], 0x03);
    assert_eq!(&m[4..7], &[0, 0, 3]);
    assert_eq!(m[7], 20);
    assert_eq!(&m[12..], &[1, 2, 3]);
}

#[test]
fn mux_splits_at_the_chunk_size() {
    let payload: Vec<u8> = (0..300u32).map(|i| (i % 251) as u8).collect();
    let out = mux_message(6, 0, 9, 1, &payload, 128);
    // format-0 header (12 bytes), 128 bytes, 0xC6, 128 bytes, 0xC6, 44 bytes
    assert_eq!(out.len(), 12 + 128 + 1 + 128 + 1 + 44);
    assert_eq!(out[12 + 128], 0xC6);
    assert_eq!(out[12 + 128 + 1 + 128], 0xC6);
}

#[test]
fn mux_then_demux_round_trips_the_message() {
    let payload: Vec<u8> = (0..1000u32).map(|i| (i % 251) as u8).collect();
    let out = mux_message(6, 7, 9, 1, &payload, 128);
    let mut d = Demuxer::new();
    let msgs = demux_all(&mut d, &out);
    assert_eq!(msgs.len(), 1);
    assert_eq!(msgs[0].chunk_stream_id, 6);
    assert_eq!(msgs[0].timestamp, 7);
    assert_eq!(msgs[0].message_type_id, 9);
    assert_eq!(msgs[0].message_stream_id, 1);
    assert_eq!(msgs[0].payload, payload);
}

#[test]
fn chunked_media_reassembles_to_one_message() {
    // a 300-byte video payload split 128+128+44, format 0 then 3 then 3
    let payload: Vec<u8> = (0..300u32).map(|i| (i & 0xFF) as u8).collect();
    let mut wire = vec![0x06, 0, 0, 0, 0x00, 0x01, 0x2C, 9, 1, 0, 0, 0];
    wire.extend_from_slice(&payload[0..128]);
    wire.push(0xC6);
    wire.extend_from_slice(&payload[128..256]);
    wire.push(0xC6);
    wire.extend_from_slice(&payload[256..300]);
    let mut d = Demuxer::new();
    let msgs = demux_all(&mut d, &wire);
    assert_eq!(msgs.len(), 1);
    assert_eq!(msgs[0].message_type_id, 9);
    assert_eq!(msgs[0].payload.len(), 300);
    assert_eq!(msgs[0].payload, payload);
}

#[test]
fn interleaved_chunk_streams_keep_fifo_order_per_id() {
    // two messages interleaved across cs-ids 4 and 5, 2 fragments each
    let a: Vec<u8> = vec![0xAA; 200];
    let b: Vec<u8> = vec![0xBB; 150];
    let mut wire = Vec::new();
    wire.extend_from_slice(&[0x04, 0, 0, 0, 0x00, 0x00, 0xC8, 8, 0, 0, 0, 0]);
    wire.extend_from_slice(&a[0..128]);
    wire.extend_from_slice(&[0x05, 0, 0, 0, 0x00, 0x00, 0x96, 9, 0, 0, 0, 0]);
    wire.extend_from_slice(&b[0..128]);
    wire.push(0xC4);
    wire.extend_from_slice(&a[128..200]);
    wire.push(0xC5);
    wire.extend_from_slice(&b[128..150]);
    let mut d = Demuxer::new();
    let msgs = demux_all(&mut d, &wire);
    assert_eq!(msgs.len(), 2);
    // completion order follows final-chunk arrival; each payload is whole
    assert_eq!(msgs[0].chunk_stream_id, 4);
    assert_eq!(msgs[0].payload, a);
    assert_eq!(msgs[1].chunk_stream_id, 5);
    assert_eq!(msgs[1].payload, b);
}

#[test]
fn compressed_header_without_history_is_malformed() {
    let mut d = Demuxer::new();
    let wire = [0xC7];
    assert_eq!(d.demux_chunk(&wire), Err(StreamError::MalformedChunkHeader));
}

#[test]
fn set_chunk_size_bounds() {
    let mut d = Demuxer::new();
    assert_eq!(d.set_chunk_size(0), Err(StreamError::ChunkSizeOutOfRange));
    assert_eq!(d.set_chunk_size(0x80000000), Err(StreamError::ChunkSizeOutOfRange));
    assert_eq!(d.set_chunk_size(4096), Ok(()));
    assert_eq!(d.chunk_size, 4096);
    assert_eq!(d.set_chunk_size(0x7FFFFFFF), Ok(()));
    assert_eq!(d.chunk_size, 0xFFFFFF);
}
