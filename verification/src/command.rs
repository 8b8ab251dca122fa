use vstd::prelude::*;

use crate::amf::{
    dec, enc, enc_props, view_amf, view_props, wf_amf, wf_props, AmfSpec, AmfValue, decode_value,
    encode_value, lemma_view_props_index,
};
use crate::wire::{bytes_eq, push_bytes};

verus! {

/// The bytes of an ASCII string literal, one byte per character.
pub open spec fn ascii_of(s: &str) -> Seq<u8> {
    Seq::new(s@.len(), |i: int| s@[i] as u8)
}

/// Copies the bytes of a string into a fresh vector. For ASCII input
/// the result is its `ascii_of` image.
pub fn vec_of_str(s: &str) -> (r: Vec<u8>)
    ensures
        vstd::string::is_ascii(s) ==> r@ == ascii_of(s),
{
    let b = s.as_bytes();
    let mut v: Vec<u8> = Vec::new();
    v.extend_from_slice(b);
    proof {
        if vstd::string::is_ascii(s) {
            vstd::string::is_ascii_spec_bytes(s);
            assert(v@ =~= ascii_of(s));
        }
    }
    v
}

/// The fields a connect command carries.
#[derive(Debug, PartialEq, Eq)]
pub struct ConnectCommand {
    pub app: Vec<u8>,
    pub flash_ver: Vec<u8>,
    pub tc_url: Vec<u8>,
}

/// The fields a publish command carries.
#[derive(Debug, PartialEq, Eq)]
pub struct PublishCommand {
    pub stream_key: Vec<u8>,
    pub publish_type: Vec<u8>,
}

/// The transaction id of a createStream command, as the raw bits of
/// its 64-bit wire image.
#[derive(Debug, PartialEq, Eq, Clone, Copy)]
pub struct CreateStreamCommand {
    pub transaction_id: u64,
}

/// The name and transaction id at the front of a command payload, with
/// the offset of the first argument.
pub open spec fn dec_cmd(b: Seq<u8>) -> Option<(Seq<u8>, u64, int)> {
    match dec(b) {
        Some(p0) => match p0.0 {
            AmfSpec::Str(name) => match dec(b.skip(p0.1)) {
                Some(p1) => match p1.0 {
                    AmfSpec::Number(tx) => Some((name, tx, p0.1 + p1.1)),
                    _ => None,
                },
                None => None,
            },
            _ => None,
        },
        None => None,
    }
}

/// The first property with the given key.
pub open spec fn prop_lookup(props: Seq<(Seq<u8>, AmfSpec)>, key: Seq<u8>) -> Option<AmfSpec>
    decreases props.len(),
{
    if props.len() == 0 {
        None
    } else if props[0].0 == key {
        Some(props[0].1)
    } else {
        prop_lookup(props.subrange(1, props.len() as int), key)
    }
}

/// The byte content of the first string property with the given key,
/// or empty when it is absent or not a string.
pub open spec fn str_prop(props: Seq<(Seq<u8>, AmfSpec)>, key: Seq<u8>) -> Seq<u8> {
    match prop_lookup(props, key) {
        Some(v) => match v {
            AmfSpec::Str(s) => s,
            _ => Seq::empty(),
        },
        None => Seq::empty(),
    }
}

proof fn lemma_prop_lookup_skip(props: Seq<(Seq<u8>, AmfSpec)>, key: Seq<u8>, i: int)
    requires
        0 <= i <= props.len(),
        forall|j: int| 0 <= j < i ==> (#[trigger] props[j]).0 != key,
    ensures
        prop_lookup(props, key) == prop_lookup(props.subrange(i, props.len() as int), key),
    decreases i,
{
    if i == 0 {
        assert(props.subrange(0, props.len() as int) =~= props);
    } else {
        let ps = props.subrange(1, props.len() as int);
        assert(props[0].0 != key);
        assert(forall|j: int| 0 <= j < i - 1 ==> (#[trigger] ps[j]).0 != key);
        lemma_prop_lookup_skip(ps, key, i - 1);
        assert(ps.subrange(i - 1, ps.len() as int) =~= props.subrange(i, props.len() as int));
    }
}


/// Finds the first string property with the given key and copies its
/// bytes; empty when absent or not a string.
pub fn find_str_prop(props: &Vec<(Vec<u8>, AmfValue)>, key: &[u8]) -> (r: Vec<u8>)
    ensures
        r@ == str_prop(view_props(props@), key@),
{
    proof {
        lemma_view_props_index(props@);
    }
    let ghost vp = view_props(props@);
    let n = props.len();
    let mut i: usize = 0;
    while i < n
        invariant
            i <= n,
            n == props@.len(),
            vp == view_props(props@),
            vp.len() == n,
            forall|j: int| 0 <= j < n ==> vp[j] == (props@[j].0@, view_amf(props@[j].1)),
            forall|j: int| 0 <= j < i ==> (#[trigger] vp[j]).0 != key@,
        decreases n - i,
    {
        if bytes_eq(props[i].0.as_slice(), key) {
            proof {
                lemma_prop_lookup_skip(vp, key@, i as int);
                assert(vp.subrange(i as int, n as int)[0] == vp[i as int]);
                assert(prop_lookup(vp, key@) == Some(vp[i as int].1));
            }
            match &props[i].1 {
                AmfValue::Str(s) => {
                    let mut out: Vec<u8> = Vec::new();
                    out.extend_from_slice(s.as_slice());
                    proof {
                        assert(out@ =~= str_prop(vp, key@));
                    }
                    return out;
                },
                _ => {
                    proof {
                        assert(str_prop(vp, key@) =~= Seq::<u8>::empty());
                    }
                    return Vec::new();
                },
            }
        }
        i += 1;
    }
    proof {
        lemma_prop_lookup_skip(vp, key@, n as int);
        assert(vp.subrange(n as int, n as int).len() == 0);
        assert(prop_lookup(vp, key@) is None);
    }
    Vec::new()
}

/// Reads the command name at the front of an AMF0 command payload.
pub fn parse_command_name(payload: &[u8]) -> (r: Option<Vec<u8>>)
    ensures
        match r {
            Some(name) => dec(payload@) matches Some(p) && p.0 == AmfSpec::Str(name@),
            None => !(dec(payload@) matches Some(p) && p.0 is Str),
        },
{
    proof {
        assert(payload@.skip(0) =~= payload@);
    }
    match decode_value(payload, 0) {
        Ok(p) => match p.0 {
            AmfValue::Str(s) => Some(s),
            _ => None,
        },
        Err(_) => None,
    }
}

/// The command object of a well-formed connect command: the payload
/// decodes as the name "connect", a number, then an object.
pub open spec fn spec_connect_obj(b: Seq<u8>) -> Option<Seq<(Seq<u8>, AmfSpec)>> {
    match dec_cmd(b) {
        Some(c) => {
            if c.0 == ascii_of("connect") {
                match dec(b.skip(c.2)) {
                    Some(p) => match p.0 {
                        AmfSpec::Object(props) => Some(props),
                        _ => None,
                    },
                    None => None,
                }
            } else {
                None
            }
        },
        None => None,
    }
}

/// Parses a connect command: name, transaction id, then the command
/// object, whose `app`, `flashVer` and `tcUrl` string properties are
/// extracted (unknown properties are skipped by kind).
pub fn parse_rtmp_connect(payload: &[u8]) -> (r: Option<ConnectCommand>)
    ensures
        match r {
            Some(c) => spec_connect_obj(payload@) matches Some(o) && c.app@ == str_prop(
                o,
                ascii_of("app"),
            ) && c.flash_ver@ == str_prop(o, ascii_of("flashVer")) && c.tc_url@ == str_prop(
                o,
                ascii_of("tcUrl"),
            ),
            None => spec_connect_obj(payload@) is None,
        },
{
    proof {
        assert(payload@.skip(0) =~= payload@);
        reveal_strlit("connect");
        reveal_strlit("app");
        reveal_strlit("flashVer");
        reveal_strlit("tcUrl");
        assert(vstd::string::is_ascii("connect"));
        assert(vstd::string::is_ascii("app"));
        assert(vstd::string::is_ascii("flashVer"));
        assert(vstd::string::is_ascii("tcUrl"));
    }
    let name = match decode_value(payload, 0) {
        Ok(p) => p,
        Err(_) => {
            return None;
        },
    };
    let name_vec = match name.0 {
        AmfValue::Str(s) => s,
        _ => {
            return None;
        },
    };
    let cname = vec_of_str("connect");
    if !bytes_eq(name_vec.as_slice(), cname.as_slice()) {
        return None;
    }
    let txn = match decode_value(payload, name.1) {
        Ok(p) => p,
        Err(_) => {
            return None;
        },
    };
    match txn.0 {
        AmfValue::Number(_) => {},
        _ => {
            return None;
        },
    }
    proof {
        assert(dec_cmd(payload@) matches Some(c) && c.0 == ascii_of("connect") && c.2
            == txn.1 as int);
    }
    let obj = match decode_value(payload, txn.1) {
        Ok(p) => p,
        Err(_) => {
            return None;
        },
    };
    let props = match obj.0 {
        AmfValue::Object(props) => props,
        _ => {
            return None;
        },
    };
    let akey = vec_of_str("app");
    let fkey = vec_of_str("flashVer");
    let tkey = vec_of_str("tcUrl");
    let app = find_str_prop(&props, akey.as_slice());
    let flash_ver = find_str_prop(&props, fkey.as_slice());
    let tc_url = find_str_prop(&props, tkey.as_slice());
    Some(ConnectCommand { app, flash_ver, tc_url })
}

/// The stream key and publish type of a well-formed publish command:
/// name "publish", a number, a null, the key string, and an optional
/// type string that defaults to "live".
pub open spec fn spec_publish_parts(b: Seq<u8>) -> Option<(Seq<u8>, Seq<u8>)> {
    match dec_cmd(b) {
        Some(c) => {
            if c.0 == ascii_of("publish") {
                match dec(b.skip(c.2)) {
                    Some(pn) => {
                        if pn.0 is Null {
                            match dec(b.skip(c.2 + pn.1)) {
                                Some(pk) => match pk.0 {
                                    AmfSpec::Str(sk) => Some(
                                        (
                                            sk,
                                            match dec(b.skip(c.2 + pn.1 + pk.1)) {
                                                Some(pt) => match pt.0 {
                                                    AmfSpec::Str(t) => t,
                                                    _ => ascii_of("live"),
                                                },
                                                None => ascii_of("live"),
                                            },
                                        ),
                                    ),
                                    _ => None,
                                },
                                None => None,
                            }
                        } else {
                            None
                        }
                    },
                    None => None,
                }
            } else {
                None
            }
        },
        None => None,
    }
}

/// Parses a publish command into its stream key and publish type.
#[verifier::rlimit(100)]
#[verifier::spinoff_prover]
pub fn parse_rtmp_publish(payload: &[u8]) -> (r: Option<PublishCommand>)
    ensures
        match r {
            Some(c) => spec_publish_parts(payload@) == Some((c.stream_key@, c.publish_type@)),
            None => spec_publish_parts(payload@) is None,
        },
{
    proof {
        assert(payload@.skip(0) =~= payload@);
        reveal_strlit("publish");
        reveal_strlit("live");
        assert(vstd::string::is_ascii("publish"));
        assert(vstd::string::is_ascii("live"));
    }
    let name = match decode_value(payload, 0) {
        Ok(p) => p,
        Err(_) => {
            return None;
        },
    };
    let name_vec = match name.0 {
        AmfValue::Str(s) => s,
        _ => {
            return None;
        },
    };
    let cname = vec_of_str("publish");
    if !bytes_eq(name_vec.as_slice(), cname.as_slice()) {
        return None;
    }
    let txn = match decode_value(payload, name.1) {
        Ok(p) => p,
        Err(_) => {
            return None;
        },
    };
    match txn.0 {
        AmfValue::Number(_) => {},
        _ => {
            return None;
        },
    }
    let nul = match decode_value(payload, txn.1) {
        Ok(p) => p,
        Err(_) => {
            return None;
        },
    };
    match nul.0 {
        AmfValue::Null => {},
        _ => {
            return None;
        },
    }
    let keyv = match decode_value(payload, nul.1) {
        Ok(p) => p,
        Err(_) => {
            return None;
        },
    };
    let stream_key = match keyv.0 {
        AmfValue::Str(s) => s,
        _ => {
            return None;
        },
    };
    let publish_type = match decode_value(payload, keyv.1) {
        Ok(p) => match p.0 {
            AmfValue::Str(s) => s,
            _ => vec_of_str("live"),
        },
        Err(_) => vec_of_str("live"),
    };
    Some(PublishCommand { stream_key, publish_type })
}

/// The transaction id of a command whose name matches `name`.
pub open spec fn spec_named_txn(b: Seq<u8>, name: Seq<u8>) -> Option<u64> {
    match dec_cmd(b) {
        Some(c) => {
            if c.0 == name {
                Some(c.1)
            } else {
                None
            }
        },
        None => None,
    }
}

/// Parses a createStream command, keeping the transaction id as raw
/// number bits.
pub fn parse_rtmp_createstream(payload: &[u8]) -> (r: Option<CreateStreamCommand>)
    ensures
        match r {
            Some(c) => spec_named_txn(payload@, ascii_of("createStream")) == Some(
                c.transaction_id,
            ),
            None => spec_named_txn(payload@, ascii_of("createStream")) is None,
        },
{
    proof {
        reveal_strlit("createStream");
        assert(vstd::string::is_ascii("createStream"));
    }
    let cname = vec_of_str("createStream");
    parse_named_txn(payload, cname.as_slice())
}

/// Parses a _checkbw command, keeping the transaction id as raw number
/// bits.
pub fn parse_checkbw_command(payload: &[u8]) -> (r: Option<u64>)
    ensures
        match r {
            Some(tx) => spec_named_txn(payload@, ascii_of("_checkbw")) == Some(tx),
            None => spec_named_txn(payload@, ascii_of("_checkbw")) is None,
        },
{
    proof {
        reveal_strlit("_checkbw");
        assert(vstd::string::is_ascii("_checkbw"));
    }
    let cname = vec_of_str("_checkbw");
    match parse_named_txn(payload, cname.as_slice()) {
        Some(c) => Some(c.transaction_id),
        None => None,
    }
}

/// Parses the name and transaction id at the front of a command
/// payload, succeeding only when the name equals `name`.
fn parse_named_txn(payload: &[u8], name: &[u8]) -> (r: Option<CreateStreamCommand>)
    ensures
        match r {
            Some(c) => spec_named_txn(payload@, name@) == Some(c.transaction_id),
            None => spec_named_txn(payload@, name@) is None,
        },
{
    proof {
        assert(payload@.skip(0) =~= payload@);
    }
    let n0 = match decode_value(payload, 0) {
        Ok(p) => p,
        Err(_) => {
            return None;
        },
    };
    let name_vec = match n0.0 {
        AmfValue::Str(s) => s,
        _ => {
            return None;
        },
    };
    if !bytes_eq(name_vec.as_slice(), name) {
        return None;
    }
    let txn = match decode_value(payload, n0.1) {
        Ok(p) => p,
        Err(_) => {
            return None;
        },
    };
    match txn.0 {
        AmfValue::Number(tx) => Some(CreateStreamCommand { transaction_id: tx }),
        _ => None,
    }
}

/// A pointwise well-formed property list is well-formed.
pub proof fn lemma_wf_props_intro(props: Seq<(Seq<u8>, AmfSpec)>)
    requires
        forall|i: int|
            0 <= i < props.len() ==> 1 <= (#[trigger] props[i]).0.len() <= 0xFFFF && wf_amf(
                props[i].1,
            ),
    ensures
        wf_props(props),
    decreases props.len(),
{
    if props.len() > 0 {
        let ps = props.subrange(1, props.len() as int);
        assert forall|i: int|
            0 <= i < ps.len() implies 1 <= (#[trigger] ps[i]).0.len() <= 0xFFFF && wf_amf(
            ps[i].1,
        ) by {
            assert(ps[i] == props[i + 1]);
        }
        lemma_wf_props_intro(ps);
    }
}

/// Appends the AMF0 image of a short ASCII string.
fn encode_str_lit(out: &mut Vec<u8>, s: &str)
    requires
        vstd::string::is_ascii(s),
        s@.len() <= 0xFFFF,
    ensures
        final(out)@ == old(out)@ + enc(AmfSpec::Str(ascii_of(s))),
{
    let v = AmfValue::Str(vec_of_str(s));
    proof {
        assert(view_amf(v) == AmfSpec::Str(ascii_of(s)));
        assert(wf_amf(view_amf(v)));
    }
    encode_value(&v, out);
}

/// Appends the AMF0 image of a number given as raw bits.
fn encode_number(out: &mut Vec<u8>, bits: u64)
    ensures
        final(out)@ == old(out)@ + enc(AmfSpec::Number(bits)),
{
    let v = AmfValue::Number(bits);
    encode_value(&v, out);
}

/// Appends the AMF0 null marker.
fn encode_null(out: &mut Vec<u8>)
    ensures
        final(out)@ == old(out)@ + enc(AmfSpec::Null),
{
    let v = AmfValue::Null;
    encode_value(&v, out);
}

/// The properties object of the connect reply.
pub open spec fn spec_connect_result_props() -> Seq<(Seq<u8>, AmfSpec)> {
    seq![
        (ascii_of("fmsVer"), AmfSpec::Str(ascii_of("FMS/3,0,1,123"))),
        (ascii_of("capabilities"), AmfSpec::Number(0x403F000000000000u64)),
    ]
}

/// The information object of the connect reply.
pub open spec fn spec_connect_info_props() -> Seq<(Seq<u8>, AmfSpec)> {
    seq![
        (ascii_of("level"), AmfSpec::Str(ascii_of("status"))),
        (ascii_of("code"), AmfSpec::Str(ascii_of("NetConnection.Connect.Success"))),
        (ascii_of("description"), AmfSpec::Str(ascii_of("Connection succeeded"))),
        (ascii_of("objectEncoding"), AmfSpec::Number(0u64)),
    ]
}

/// The whole connect reply payload: `_result`, the client's echoed
/// transaction id, the properties object, and the information object.
pub open spec fn spec_connect_response(txn_bits: u64) -> Seq<u8> {
    enc(AmfSpec::Str(ascii_of("_result"))) + enc(AmfSpec::Number(txn_bits)) + enc(
        AmfSpec::Object(spec_connect_result_props()),
    ) + enc(AmfSpec::Object(spec_connect_info_props()))
}

/// Builds the connect success reply, echoing the client's transaction
/// id.
#[verifier::rlimit(100)]
#[verifier::spinoff_prover]
pub fn create_connect_response(transaction_id: u64) -> (r: Vec<u8>)
    ensures
        r@ == spec_connect_response(transaction_id),
        r@.len() < 0x1000000,
{
    proof {
        reveal_strlit("_result");
        reveal_strlit("fmsVer");
        reveal_strlit("FMS/3,0,1,123");
        reveal_strlit("capabilities");
        reveal_strlit("level");
        reveal_strlit("status");
        reveal_strlit("code");
        reveal_strlit("NetConnection.Connect.Success");
        reveal_strlit("description");
        reveal_strlit("Connection succeeded");
        reveal_strlit("objectEncoding");
    }
    let mut out: Vec<u8> = Vec::new();
    encode_str_lit(&mut out, "_result");
    encode_number(&mut out, transaction_id);
    let mut props: Vec<(Vec<u8>, AmfValue)> = Vec::new();
    props.push((vec_of_str("fmsVer"), AmfValue::Str(vec_of_str("FMS/3,0,1,123"))));
    props.push((vec_of_str("capabilities"), AmfValue::Number(0x403F000000000000)));
    proof {
        lemma_view_props_index(props@);
        assert(view_props(props@) =~= spec_connect_result_props());
        lemma_wf_props_intro(spec_connect_result_props());
    }
    let obj = AmfValue::Object(props);
    encode_value(&obj, &mut out);
    let mut info: Vec<(Vec<u8>, AmfValue)> = Vec::new();
    info.push((vec_of_str("level"), AmfValue::Str(vec_of_str("status"))));
    info.push((vec_of_str("code"), AmfValue::Str(vec_of_str("NetConnection.Connect.Success"))));
    info.push((vec_of_str("description"), AmfValue::Str(vec_of_str("Connection succeeded"))));
    info.push((vec_of_str("objectEncoding"), AmfValue::Number(0)));
    proof {
        lemma_view_props_index(info@);
        assert(view_props(info@) =~= spec_connect_info_props());
        lemma_wf_props_intro(spec_connect_info_props());
    }
    let iobj = AmfValue::Object(info);
    encode_value(&iobj, &mut out);
    proof {
        assert(out@ =~= spec_connect_response(transaction_id));
        let ps = spec_connect_result_props();
        let ip = spec_connect_info_props();
        reveal_with_fuel(enc_props, 6);
        assert(ps.subrange(1, 2) =~= seq![ps[1]]);
        assert(seq![ps[1]].subrange(1, 1) =~= Seq::<(Seq<u8>, AmfSpec)>::empty());
        assert(enc_props(ps).len() < 100);
        assert(ip.subrange(1, 4) =~= seq![ip[1], ip[2], ip[3]]);
        assert(seq![ip[1], ip[2], ip[3]].subrange(1, 3) =~= seq![ip[2], ip[3]]);
        assert(seq![ip[2], ip[3]].subrange(1, 2) =~= seq![ip[3]]);
        assert(seq![ip[3]].subrange(1, 1) =~= Seq::<(Seq<u8>, AmfSpec)>::empty());
        assert(enc_props(ip).len() < 200);
        assert(out@.len() < 0x1000000);
    }
    out
}

/// An onStatus reply: `onStatus`, the transaction id 0, null, and an
/// information object with the given level "status", code, and
/// description.
pub open spec fn spec_onstatus_response(code: Seq<u8>, desc: Seq<u8>) -> Seq<u8> {
    enc(AmfSpec::Str(ascii_of("onStatus"))) + enc(AmfSpec::Number(0u64)) + enc(AmfSpec::Null) + enc(
        AmfSpec::Object(
            seq![
                (ascii_of("level"), AmfSpec::Str(ascii_of("status"))),
                (ascii_of("code"), AmfSpec::Str(code)),
                (ascii_of("description"), AmfSpec::Str(desc)),
            ],
        ),
    )
}

/// Builds an onStatus reply with the given code and description.
#[verifier::rlimit(100)]
#[verifier::spinoff_prover]
pub fn create_onstatus_response(code: &[u8], desc: &[u8]) -> (r: Vec<u8>)
    requires
        1 <= code@.len() <= 0xFFFF,
        desc@.len() <= 0xFFFF,
    ensures
        r@ == spec_onstatus_response(code@, desc@),
        r@.len() < 0x1000000,
{
    proof {
        reveal_strlit("onStatus");
        reveal_strlit("level");
        reveal_strlit("status");
        reveal_strlit("code");
        reveal_strlit("description");
    }
    let mut out: Vec<u8> = Vec::new();
    encode_str_lit(&mut out, "onStatus");
    encode_number(&mut out, 0);
    encode_null(&mut out);
    let mut code_vec: Vec<u8> = Vec::new();
    code_vec.extend_from_slice(code);
    let mut desc_vec: Vec<u8> = Vec::new();
    desc_vec.extend_from_slice(desc);
    proof {
        assert(code_vec@ =~= code@);
        assert(desc_vec@ =~= desc@);
    }
    let mut info: Vec<(Vec<u8>, AmfValue)> = Vec::new();
    info.push((vec_of_str("level"), AmfValue::Str(vec_of_str("status"))));
    info.push((vec_of_str("code"), AmfValue::Str(code_vec)));
    info.push((vec_of_str("description"), AmfValue::Str(desc_vec)));
    let ghost info_spec = seq![
        (ascii_of("level"), AmfSpec::Str(ascii_of("status"))),
        (ascii_of("code"), AmfSpec::Str(code@)),
        (ascii_of("description"), AmfSpec::Str(desc@)),
    ];
    proof {
        lemma_view_props_index(info@);
        assert(view_props(info@) =~= info_spec);
        lemma_wf_props_intro(info_spec);
    }
    let iobj = AmfValue::Object(info);
    encode_value(&iobj, &mut out);
    proof {
        assert(out@ =~= spec_onstatus_response(code@, desc@));
        reveal_with_fuel(enc_props, 5);
        assert(info_spec.subrange(1, 3) =~= seq![info_spec[1], info_spec[2]]);
        assert(seq![info_spec[1], info_spec[2]].subrange(1, 2) =~= seq![info_spec[2]]);
        assert(seq![info_spec[2]].subrange(1, 1) =~= Seq::<(Seq<u8>, AmfSpec)>::empty());
        assert(enc_props(info_spec).len() < 100 + code@.len() + desc@.len());
        assert(out@.len() < 0x1000000);
    }
    out
}

/// The publish success reply: an onStatus with code
/// NetStream.Publish.Start naming the stream key.
pub open spec fn spec_publish_response(stream_key: Seq<u8>) -> Seq<u8> {
    spec_onstatus_response(
        ascii_of("NetStream.Publish.Start"),
        ascii_of("Started publishing stream ") + stream_key,
    )
}

/// Builds the publish success reply for a validated stream key.
pub fn create_publish_response(stream_key: &[u8]) -> (r: Vec<u8>)
    requires
        stream_key@.len() <= 255,
    ensures
        r@ == spec_publish_response(stream_key@),
        r@.len() < 0x1000000,
{
    proof {
        reveal_strlit("NetStream.Publish.Start");
        reveal_strlit("Started publishing stream ");
        assert(vstd::string::is_ascii("NetStream.Publish.Start"));
        assert(vstd::string::is_ascii("Started publishing stream "));
    }
    let code = vec_of_str("NetStream.Publish.Start");
    let mut desc = vec_of_str("Started publishing stream ");
    push_bytes(&mut desc, stream_key);
    create_onstatus_response(code.as_slice(), desc.as_slice())
}

/// A `_result` reply carrying a number argument: `_result`, the echoed
/// transaction id, null, and the number.
pub open spec fn spec_result_number_response(txn_bits: u64, value_bits: u64) -> Seq<u8> {
    enc(AmfSpec::Str(ascii_of("_result"))) + enc(AmfSpec::Number(txn_bits)) + enc(AmfSpec::Null)
        + enc(AmfSpec::Number(value_bits))
}

/// Builds the createStream success reply: the echoed transaction id,
/// null, and the assigned stream id 1.
pub fn create_createstream_response(transaction_id: u64) -> (r: Vec<u8>)
    ensures
        r@ == spec_result_number_response(transaction_id, 0x3FF0000000000000u64),
        r@.len() < 0x1000000,
{
    proof {
        reveal_strlit("_result");
        assert(vstd::string::is_ascii("_result"));
    }
    let mut out: Vec<u8> = Vec::new();
    encode_str_lit(&mut out, "_result");
    encode_number(&mut out, transaction_id);
    encode_null(&mut out);
    encode_number(&mut out, 0x3FF0000000000000);
    proof {
        assert(out@ =~= spec_result_number_response(transaction_id, 0x3FF0000000000000u64));
    }
    out
}

/// The minimal `_result` reply to a command the server does not know:
/// the echoed transaction id and two nulls.
pub open spec fn spec_generic_response(txn_bits: u64) -> Seq<u8> {
    enc(AmfSpec::Str(ascii_of("_result"))) + enc(AmfSpec::Number(txn_bits)) + enc(AmfSpec::Null)
        + enc(AmfSpec::Null)
}

/// Builds the minimal `_result` reply for an unrecognized command.
pub fn create_generic_response(transaction_id: u64) -> (r: Vec<u8>)
    ensures
        r@ == spec_generic_response(transaction_id),
        r@.len() < 0x1000000,
{
    proof {
        reveal_strlit("_result");
        assert(vstd::string::is_ascii("_result"));
    }
    let mut out: Vec<u8> = Vec::new();
    encode_str_lit(&mut out, "_result");
    encode_number(&mut out, transaction_id);
    encode_null(&mut out);
    encode_null(&mut out);
    proof {
        assert(out@ =~= spec_generic_response(transaction_id));
    }
    out
}

/// The onBWDone notification: name, transaction id 0, and null.
pub open spec fn spec_onbwdone_message() -> Seq<u8> {
    enc(AmfSpec::Str(ascii_of("onBWDone"))) + enc(AmfSpec::Number(0u64)) + enc(AmfSpec::Null)
}

/// Builds the onBWDone notification.
pub fn create_onbwdone_message() -> (r: Vec<u8>)
    ensures
        r@ == spec_onbwdone_message(),
        r@.len() < 0x1000000,
{
    proof {
        reveal_strlit("onBWDone");
        assert(vstd::string::is_ascii("onBWDone"));
    }
    let mut out: Vec<u8> = Vec::new();
    encode_str_lit(&mut out, "onBWDone");
    encode_number(&mut out, 0);
    encode_null(&mut out);
    proof {
        assert(out@ =~= spec_onbwdone_message());
    }
    out
}

/// Builds the `_result` reply to `_checkbw`, advertising 1 Mbit/s
/// (1000000.0 as number bits).
pub fn create_checkbw_response(transaction_id: u64) -> (r: Vec<u8>)
    ensures
        r@ == spec_result_number_response(transaction_id, 0x412E848000000000u64),
        r@.len() < 0x1000000,
{
    proof {
        reveal_strlit("_result");
        assert(vstd::string::is_ascii("_result"));
    }
    let mut out: Vec<u8> = Vec::new();
    encode_str_lit(&mut out, "_result");
    encode_number(&mut out, transaction_id);
    encode_null(&mut out);
    encode_number(&mut out, 0x412E848000000000);
    proof {
        assert(out@ =~= spec_result_number_response(transaction_id, 0x412E848000000000u64));
    }
    out
}

/// The onBWCheck notification: name, transaction id 0, null, and the
/// advertised bandwidth (1000000.0 as number bits).
pub open spec fn spec_onbwcheck_message() -> Seq<u8> {
    enc(AmfSpec::Str(ascii_of("onBWCheck"))) + enc(AmfSpec::Number(0u64)) + enc(AmfSpec::Null)
        + enc(AmfSpec::Number(0x412E848000000000u64))
}

/// Builds the onBWCheck notification.
pub fn create_onbwcheck_message() -> (r: Vec<u8>)
    ensures
        r@ == spec_onbwcheck_message(),
        r@.len() < 0x1000000,
{
    proof {
        reveal_strlit("onBWCheck");
        assert(vstd::string::is_ascii("onBWCheck"));
    }
    let mut out: Vec<u8> = Vec::new();
    encode_str_lit(&mut out, "onBWCheck");
    encode_number(&mut out, 0);
    encode_null(&mut out);
    encode_number(&mut out, 0x412E848000000000);
    proof {
        assert(out@ =~= spec_onbwcheck_message());
    }
    out
}

} // verus!
