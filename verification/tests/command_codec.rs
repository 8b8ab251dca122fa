use streamx::amf::{decode_value, AmfValue};
use streamx::command::{
    create_connect_response, create_createstream_response, create_generic_response,
    create_onbwcheck_message, create_onbwdone_message, create_publish_response,
    parse_checkbw_command, parse_command_name, parse_rtmp_connect, parse_rtmp_createstream,
    parse_rtmp_publish,
};

fn bits(x: f64) -> u64 {
    u64::from_be_bytes(x.to_be_bytes())
}

fn amf_string(s: &[u8]) -> Vec<u8> {
    let mut v = vec![0x02];
    v.extend_from_slice(&(s.len() as u16).to_be_bytes());
    v.extend_from_slice(s);
    v
}

fn amf_number(x: f64) -> Vec<u8> {
    let mut v = vec![0x00];
    v.extend_from_slice(&x.to_be_bytes());
    v
}

/// The connect payload of the wire example: txn id 1.0 and a command
/// object holding app = "live".
fn connect_payload() -> Vec<u8> {
    let mut p = amf_string(b"connect");
    p.extend_from_slice(&amf_number(1.0));
    p.push(0x03);
    p.extend_from_slice(&(3u16).to_be_bytes());
    p.extend_from_slice(b"app");
    p.extend_from_slice(&amf_string(b"live"));
    p.extend_from_slice(&[0x00, 0x00, 0x09]);
    p
}

#[test]
fn connect_is_parsed() {
    let c = parse_rtmp_connect(&connect_payload()).expect("connect");
    assert_eq!(c.app, b"live".to_vec());
    assert_eq!(c.flash_ver, Vec::<u8>::new());
    assert_eq!(c.tc_url, Vec::<u8>::new());
}

#[test]
fn connect_skips_unknown_properties_by_kind() {
    let mut p = amf_string(b"connect");
    p.extend_from_slice(&amf_number(1.0));
    p.push(0x03);
    // a number property first, then a boolean, then app
    p.extend_from_slice(&(11u16).to_be_bytes());
    p.extend_from_slice(b"audioCodecs");
    p.extend_from_slice(&amf_number(3191.0));
    p.extend_from_slice(&(4u16).to_be_bytes());
    p.extend_from_slice(b"fpad");
    p.extend_from_slice(&[0x01, 0x00]);
    p.extend_from_slice(&(3u16).to_be_bytes());
    p.extend_from_slice(b"app");
    p.extend_from_slice(&amf_string(b"live"));
    p.extend_from_slice(&[0x00, 0x00, 0x09]);
    let c = parse_rtmp_connect(&p).expect("connect");
    assert_eq!(c.app, b"live".to_vec());
}

#[test]
fn connect_with_wrong_name_is_rejected() {
    let mut p = amf_string(b"connecq");
    p.extend_from_slice(&amf_number(1.0));
    p.push(0x03);
    p.extend_from_slice(&[0x00, 0x00, 0x09]);
    assert!(parse_rtmp_connect(&p).is_none());
}

#[test]
fn publish_is_parsed_with_type() {
    let mut p = amf_string(b"publish");
    p.extend_from_slice(&amf_number(3.0));
    p.push(0x05);
    p.extend_from_slice(&amf_string(b"mykey"));
    p.extend_from_slice(&amf_string(b"live"));
    let c = parse_rtmp_publish(&p).expect("publish");
    assert_eq!(c.stream_key, b"mykey".to_vec());
    assert_eq!(c.publish_type, b"live".to_vec());
}

#[test]
fn publish_type_defaults_to_live() {
    let mut p = amf_string(b"publish");
    p.extend_from_slice(&amf_number(3.0));
    p.push(0x05);
    p.extend_from_slice(&amf_string(b"mykey"));
    let c = parse_rtmp_publish(&p).expect("publish");
    assert_eq!(c.publish_type, b"live".to_vec());
}

#[test]
fn createstream_keeps_txn_bits() {
    let mut p = amf_string(b"createStream");
    p.extend_from_slice(&amf_number(2.0));
    p.push(0x05);
    let c = parse_rtmp_createstream(&p).expect("createStream");
    assert_eq!(c.transaction_id, bits(2.0));
}

#[test]
fn checkbw_keeps_txn_bits() {
    let mut p = amf_string(b"_checkbw");
    p.extend_from_slice(&amf_number(5.0));
    p.push(0x05);
    assert_eq!(parse_checkbw_command(&p), Some(bits(5.0)));
}

#[test]
fn command_name_is_read() {
    let p = connect_payload();
    assert_eq!(parse_command_name(&p), Some(b"connect".to_vec()));
    assert_eq!(parse_command_name(&[0x05]), None);
}

#[test]
fn connect_response_has_the_published_shape() {
    let r = create_connect_response(bits(1.0));
    let (name, n1) = decode_value(&r, 0).expect("name");
    assert_eq!(name, AmfValue::Str(b"_result".to_vec()));
    let (txn, n2) = decode_value(&r, n1).expect("txn");
    assert_eq!(txn, AmfValue::Number(bits(1.0)));
    let (props, n3) = decode_value(&r, n2).expect("props");
    match props {
        AmfValue::Object(ps) => {
            assert_eq!(ps[0].0, b"fmsVer".to_vec());
            assert_eq!(ps[0].1, AmfValue::Str(b"FMS/3,0,1,123".to_vec()));
            assert_eq!(ps[1].0, b"capabilities".to_vec());
            assert_eq!(ps[1].1, AmfValue::Number(bits(31.0)));
        }
        other => panic!("expected object, got {:?}", other),
    }
    let (info, n4) = decode_value(&r, n3).expect("info");
    match info {
        AmfValue::Object(ps) => {
            assert_eq!(ps[0].1, AmfValue::Str(b"status".to_vec()));
            assert_eq!(
                ps[1].1,
                AmfValue::Str(b"NetConnection.Connect.Success".to_vec())
            );
            assert_eq!(ps[2].1, AmfValue::Str(b"Connection succeeded".to_vec()));
        }
        other => panic!("expected object, got {:?}", other),
    }
    assert_eq!(n4, r.len());
}

#[test]
fn createstream_response_assigns_stream_one() {
    let r = create_createstream_response(bits(2.0));
    let (name, n1) = decode_value(&r, 0).expect("name");
    assert_eq!(name, AmfValue::Str(b"_result".to_vec()));
    let (txn, n2) = decode_value(&r, n1).expect("txn");
    assert_eq!(txn, AmfValue::Number(bits(2.0)));
    let (null, n3) = decode_value(&r, n2).expect("null");
    assert_eq!(null, AmfValue::Null);
    let (sid, n4) = decode_value(&r, n3).expect("sid");
    assert_eq!(sid, AmfValue::Number(bits(1.0)));
    assert_eq!(n4, r.len());
}

#[test]
fn publish_response_names_the_stream() {
    let r = create_publish_response(b"mykey");
    let (name, n1) = decode_value(&r, 0).expect("name");
    assert_eq!(name, AmfValue::Str(b"onStatus".to_vec()));
    let (txn, n2) = decode_value(&r, n1).expect("txn");
    assert_eq!(txn, AmfValue::Number(bits(0.0)));
    let (null, n3) = decode_value(&r, n2).expect("null");
    assert_eq!(null, AmfValue::Null);
    let (info, n4) = decode_value(&r, n3).expect("info");
    match info {
        AmfValue::Object(ps) => {
            assert_eq!(ps[1].0, b"code".to_vec());
            assert_eq!(ps[1].1, AmfValue::Str(b"NetStream.Publish.Start".to_vec()));
            assert_eq!(
                ps[2].1,
                AmfValue::Str(b"Started publishing stream mykey".to_vec())
            );
        }
        other => panic!("expected object, got {:?}", other),
    }
    assert_eq!(n4, r.len());
}

#[test]
fn generic_response_echoes_txn_with_two_nulls() {
    let r = create_generic_response(bits(4.0));
    let (name, n1) = decode_value(&r, 0).expect("name");
    assert_eq!(name, AmfValue::Str(b"_result".to_vec()));
    let (txn, n2) = decode_value(&r, n1).expect("txn");
    assert_eq!(txn, AmfValue::Number(bits(4.0)));
    let (a, n3) = decode_value(&r, n2).expect("null 1");
    assert_eq!(a, AmfValue::Null);
    let (b, n4) = decode_value(&r, n3).expect("null 2");
    assert_eq!(b, AmfValue::Null);
    assert_eq!(n4, r.len());
}

#[test]
fn bandwidth_messages_have_their_names() {
    let d = create_onbwdone_message();
    let (name, _) = decode_value(&d, 0).expect("name");
    assert_eq!(name, AmfValue::Str(b"onBWDone".to_vec()));
    let c = create_onbwcheck_message();
    let (name2, _) = decode_value(&c, 0).expect("name");
    assert_eq!(name2, AmfValue::Str(b"onBWCheck".to_vec()));
}
