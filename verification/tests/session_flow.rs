use streamx::ack::AckCounter;
use streamx::chunk::create_command_chunk;
use streamx::amf::{decode_value, AmfValue};
use streamx::session::{Action, Connection, KeyRegistry, Phase};

fn bits(x: f64) -> u64 {
    u64::from_be_bytes(x.to_be_bytes())
}

fn amf_string(s: &[u8]) -> Vec<u8> {
    let mut v = vec![0x02];
    v.extend_from_slice(&(s.len() as u16).to_be_bytes());
    v.extend_from_slice(s);
    v
}

fn amf_number(x: f64) -> Vec<u8> {
    let mut v = vec![0x00];
    v.extend_from_slice(&x.to_be_bytes());
    v
}

fn connect_chunk() -> Vec<u8> {
    let mut p = amf_string(b"connect");
    p.extend_from_slice(&amf_number(1.0));
    p.push(0x03);
    p.extend_from_slice(&(3u16).to_be_bytes());
    p.extend_from_slice(b"app");
    p.extend_from_slice(&amf_string(b"live"));
    p.extend_from_slice(&[0x00, 0x00, 0x09]);
    create_command_chunk(&p)
}

fn createstream_chunk() -> Vec<u8> {
    let mut p = amf_string(b"createStream");
    p.extend_from_slice(&amf_number(2.0));
    p.push(0x05);
    create_command_chunk(&p)
}

fn publish_chunk(key: &[u8]) -> Vec<u8> {
    let mut p = amf_string(b"publish");
    p.extend_from_slice(&amf_number(3.0));
    p.push(0x05);
    p.extend_from_slice(&amf_string(key));
    p.extend_from_slice(&amf_string(b"live"));
    create_command_chunk(&p)
}

fn send_bytes(a: &Action) -> &Vec<u8> {
    match a {
        Action::Send(v) => v,
        other => panic!("expected Send, got a different action: {}", kind(other)),
    }
}

fn kind(a: &Action) -> &'static str {
    match a {
        Action::Send(_) => "Send",
        Action::SendAck(_) => "SendAck",
        Action::StartSegmenter(_) => "StartSegmenter",
        Action::WriteMedia(_) => "WriteMedia",
        Action::Close => "Close",
    }
}

/// Reads the AMF command name and transaction id out of a command
/// chunk produced by the server (12-byte format-0 header).
fn chunk_cmd(bytes: &[u8]) -> (Vec<u8>, u64) {
    assert_eq!(bytes[0] & 0x3F, 3, "command chunk stream id");
    assert_eq!(bytes[7], 20, "command type id");
    let payload = &bytes[12..];
    let (name, n1) = decode_value(payload, 0).expect("name");
    let (txn, _) = decode_value(payload, n1).expect("txn");
    match (name, txn) {
        (AmfValue::Str(n), AmfValue::Number(t)) => (n, t),
        other => panic!("unexpected command front: {:?}", other),
    }
}

fn connected_connection(reg: &mut KeyRegistry) -> Connection {
    let mut conn = Connection::new();
    let burst = conn.session.on_handshake_complete();
    // Window-Ack-Size(5000000), Set-Peer-Bandwidth(5000000, 0), Set-Chunk-Size(4096)
    assert_eq!(burst.len(), 16 + 17 + 16);
    assert_eq!(burst[7], 5);
    assert_eq!(&burst[12..16], &5_000_000u32.to_be_bytes());
    assert_eq!(burst[16 + 7], 6);
    assert_eq!(&burst[16 + 12..16 + 16], &5_000_000u32.to_be_bytes());
    assert_eq!(burst[16 + 16], 0);
    assert_eq!(burst[33 + 7], 1);
    assert_eq!(&burst[33 + 12..33 + 16], &4096u32.to_be_bytes());
    let (n, acts) = conn.process_bytes(&connect_chunk(), reg).expect("connect");
    assert_eq!(n, connect_chunk().len());
    assert_eq!(acts.len(), 3);
    let (name, txn) = chunk_cmd(send_bytes(&acts[0]));
    assert_eq!(name, b"_result".to_vec());
    assert_eq!(txn, bits(1.0));
    // Stream Begin: user control, event 0, stream id 0
    let sb = send_bytes(&acts[1]);
    assert_eq!(sb[7], 4);
    assert_eq!(&sb[12..18], &[0, 0, 0, 0, 0, 0]);
    let (name2, _) = chunk_cmd(send_bytes(&acts[2]));
    assert_eq!(name2, b"onBWDone".to_vec());
    assert_eq!(conn.session.phase, Phase::Connected);
    assert_eq!(conn.session.app, b"live".to_vec());
    conn
}

#[test]
fn connect_reply_echoes_the_client_txn() {
    let mut reg = KeyRegistry::new(16);
    let mut conn = Connection::new();
    conn.session.on_handshake_complete();
    let mut p = amf_string(b"connect");
    p.extend_from_slice(&amf_number(7.0));
    p.push(0x03);
    p.extend_from_slice(&[0x00, 0x00, 0x09]);
    let (_, acts) = conn.process_bytes(&create_command_chunk(&p), &mut reg).expect("connect");
    let (name, txn) = chunk_cmd(send_bytes(&acts[0]));
    assert_eq!(name, b"_result".to_vec());
    assert_eq!(txn, bits(7.0));
}

#[test]
fn connect_succeeds_with_the_published_replies() {
    let mut reg = KeyRegistry::new(16);
    let _ = connected_connection(&mut reg);
}

#[test]
fn create_then_publish_starts_the_segmenter() {
    let mut reg = KeyRegistry::new(16);
    let mut conn = connected_connection(&mut reg);
    let (_, acts) = conn.process_bytes(&createstream_chunk(), &mut reg).expect("createStream");
    assert_eq!(acts.len(), 1);
    let r = send_bytes(&acts[0]);
    let payload = &r[12..];
    let (name, n1) = decode_value(payload, 0).expect("name");
    assert_eq!(name, AmfValue::Str(b"_result".to_vec()));
    let (txn, n2) = decode_value(payload, n1).expect("txn");
    assert_eq!(txn, AmfValue::Number(bits(2.0)));
    let (null, n3) = decode_value(payload, n2).expect("null");
    assert_eq!(null, AmfValue::Null);
    let (sid, _) = decode_value(payload, n3).expect("sid");
    assert_eq!(sid, AmfValue::Number(bits(1.0)));
    assert_eq!(conn.session.phase, Phase::StreamCreated);

    let (_, acts2) = conn.process_bytes(&publish_chunk(b"mykey"), &mut reg).expect("publish");
    assert_eq!(acts2.len(), 2);
    let (name2, txn2) = chunk_cmd(send_bytes(&acts2[0]));
    assert_eq!(name2, b"onStatus".to_vec());
    assert_eq!(txn2, bits(0.0));
    match &acts2[1] {
        Action::StartSegmenter(k) => assert_eq!(k, &b"mykey".to_vec()),
        other => panic!("expected StartSegmenter, got {}", kind(other)),
    }
    assert_eq!(conn.session.phase, Phase::Publishing);
    assert_eq!(conn.session.stream_key, b"mykey".to_vec());
}

#[test]
fn chunked_video_is_written_as_one_flv_tag() {
    let mut reg = KeyRegistry::new(16);
    let mut conn = connected_connection(&mut reg);
    conn.process_bytes(&createstream_chunk(), &mut reg).expect("createStream");
    conn.process_bytes(&publish_chunk(b"mykey"), &mut reg).expect("publish");

    let payload: Vec<u8> = (0..300u32).map(|i| (i & 0xFF) as u8).collect();
    let mut wire = vec![0x06, 0, 0, 0, 0x00, 0x01, 0x2C, 9, 1, 0, 0, 0];
    wire.extend_from_slice(&payload[0..128]);
    wire.push(0xC6);
    wire.extend_from_slice(&payload[128..256]);
    wire.push(0xC6);
    wire.extend_from_slice(&payload[256..300]);
    let (n, acts) = conn.process_bytes(&wire, &mut reg).expect("media");
    assert_eq!(n, wire.len());
    // the FLV file header first, then one tag for the whole message
    assert_eq!(acts.len(), 2);
    let hdr = match &acts[0] {
        Action::WriteMedia(v) => v,
        other => panic!("expected WriteMedia, got {}", kind(other)),
    };
    assert_eq!(&hdr[0..4], b"FLV\x01");
    assert_eq!(hdr.len(), 13);
    let tag = match &acts[1] {
        Action::WriteMedia(v) => v,
        other => panic!("expected WriteMedia, got {}", kind(other)),
    };
    assert_eq!(tag[0], 9);
    assert_eq!(&tag[1..4], &[0x00, 0x01, 0x2C]);
    assert_eq!(&tag[11..311], &payload[..]);
    assert_eq!(&tag[311..315], &311u32.to_be_bytes());
}

#[test]
fn duplicate_publish_is_rejected_with_badname() {
    let mut reg = KeyRegistry::new(16);
    let mut conn1 = connected_connection(&mut reg);
    conn1.process_bytes(&createstream_chunk(), &mut reg).expect("createStream");
    conn1.process_bytes(&publish_chunk(b"samekey"), &mut reg).expect("publish");
    assert_eq!(conn1.session.phase, Phase::Publishing);

    let mut conn2 = connected_connection(&mut reg);
    conn2.process_bytes(&createstream_chunk(), &mut reg).expect("createStream");
    let (_, acts) = conn2.process_bytes(&publish_chunk(b"samekey"), &mut reg).expect("publish");
    assert_eq!(acts.len(), 2);
    let r = send_bytes(&acts[0]);
    let payload = &r[12..];
    let (name, n1) = decode_value(payload, 0).expect("name");
    assert_eq!(name, AmfValue::Str(b"onStatus".to_vec()));
    let (_, n2) = decode_value(payload, n1).expect("txn");
    let (_, n3) = decode_value(payload, n2).expect("null");
    let (info, _) = decode_value(payload, n3).expect("info");
    match info {
        AmfValue::Object(ps) => {
            assert_eq!(ps[1].1, AmfValue::Str(b"NetStream.Publish.BadName".to_vec()));
        }
        other => panic!("expected object, got {:?}", other),
    }
    assert!(matches!(acts[1], Action::Close));
    assert_eq!(conn2.session.phase, Phase::Closed);
}

#[test]
fn unknown_command_gets_the_minimal_result() {
    let mut reg = KeyRegistry::new(16);
    let mut conn = connected_connection(&mut reg);
    let mut p = amf_string(b"FCPublish");
    p.extend_from_slice(&amf_number(4.0));
    p.push(0x05);
    p.extend_from_slice(&amf_string(b"key"));
    let (_, acts) = conn.process_bytes(&create_command_chunk(&p), &mut reg).expect("FCPublish");
    assert_eq!(acts.len(), 1);
    let r = send_bytes(&acts[0]);
    let payload = &r[12..];
    let (name, n1) = decode_value(payload, 0).expect("name");
    assert_eq!(name, AmfValue::Str(b"_result".to_vec()));
    let (txn, n2) = decode_value(payload, n1).expect("txn");
    assert_eq!(txn, AmfValue::Number(bits(4.0)));
    let (a, n3) = decode_value(payload, n2).expect("null 1");
    assert_eq!(a, AmfValue::Null);
    let (b, _) = decode_value(payload, n3).expect("null 2");
    assert_eq!(b, AmfValue::Null);
    // the session stays in Connected
    assert_eq!(conn.session.phase, Phase::Connected);
}

#[test]
fn invalid_stream_keys_are_rejected() {
    let mut reg = KeyRegistry::new(16);
    let mut conn = connected_connection(&mut reg);
    conn.process_bytes(&createstream_chunk(), &mut reg).expect("createStream");
    let (_, acts) = conn.process_bytes(&publish_chunk(b"bad/key"), &mut reg).expect("publish");
    assert_eq!(acts.len(), 2);
    assert!(matches!(acts[1], Action::Close));
    assert_eq!(conn.session.phase, Phase::Closed);
    assert!(!reg.contains(b"bad/key"));
}

#[test]
fn capacity_gate_rejects_extra_publishers() {
    let mut reg = KeyRegistry::new(1);
    let mut conn1 = connected_connection(&mut reg);
    conn1.process_bytes(&createstream_chunk(), &mut reg).expect("createStream");
    conn1.process_bytes(&publish_chunk(b"first"), &mut reg).expect("publish");
    let mut conn2 = connected_connection(&mut reg);
    conn2.process_bytes(&createstream_chunk(), &mut reg).expect("createStream");
    let (_, acts) = conn2.process_bytes(&publish_chunk(b"second"), &mut reg).expect("publish");
    let r = send_bytes(&acts[0]);
    let payload = &r[12..];
    let (name, n1) = decode_value(payload, 0).expect("name");
    assert_eq!(name, AmfValue::Str(b"onStatus".to_vec()));
    let (_, n2) = decode_value(payload, n1).expect("txn");
    let (_, n3) = decode_value(payload, n2).expect("null");
    let (info, _) = decode_value(payload, n3).expect("info");
    match info {
        AmfValue::Object(ps) => {
            assert_eq!(
                ps[1].1,
                AmfValue::Str(b"NetConnection.Connect.Rejected".to_vec())
            );
        }
        other => panic!("expected object, got {:?}", other),
    }
}

#[test]
fn delete_stream_frees_the_key() {
    let mut reg = KeyRegistry::new(16);
    let mut conn = connected_connection(&mut reg);
    conn.process_bytes(&createstream_chunk(), &mut reg).expect("createStream");
    conn.process_bytes(&publish_chunk(b"mykey"), &mut reg).expect("publish");
    assert!(reg.contains(b"mykey"));
    let mut p = amf_string(b"deleteStream");
    p.extend_from_slice(&amf_number(5.0));
    p.push(0x05);
    let (_, acts) = conn.process_bytes(&create_command_chunk(&p), &mut reg).expect("deleteStream");
    assert!(matches!(acts[0], Action::Close));
    assert_eq!(conn.session.phase, Phase::Closed);
    assert!(!reg.contains(b"mykey"));
}

#[test]
fn ack_cadence_matches_the_window() {
    let mut a = AckCounter::new(10);
    assert_eq!(a.on_bytes(25), 2);
    assert_eq!(a.on_bytes(4), 0);
    assert_eq!(a.on_bytes(1), 1);
    // after 30 bytes against window 10, 3 acknowledgements were due
    assert_eq!(a.acks_sent, 3);
    assert_eq!(a.received, 30);
}

#[test]
fn peer_set_chunk_size_reconfigures_reassembly() {
    let mut reg = KeyRegistry::new(16);
    let mut conn = connected_connection(&mut reg);
    // Set Chunk Size 256 from the peer, then a 256-byte command in one chunk
    let mut control = vec![0x02, 0, 0, 0, 0, 0, 4, 1, 0, 0, 0, 0];
    control.extend_from_slice(&256u32.to_be_bytes());
    let (n, acts) = conn.process_bytes(&control, &mut reg).expect("set chunk size");
    assert_eq!(n, control.len());
    assert!(acts.is_empty());
    assert_eq!(conn.demux.chunk_size, 256);
}
