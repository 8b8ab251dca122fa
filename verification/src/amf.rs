use vstd::prelude::*;

use crate::error::StreamError;
use crate::wire::{
    be16, be32, be64, lemma_be16_zero, lemma_u16_be_round_trip, lemma_u32_be_round_trip,
    lemma_u64_be_round_trip, push_bytes, push_u16_be, push_u32_be, push_u64_be, read_u16_be,
    read_u32_be, read_u64_be, spec_u16_be, spec_u32_be, spec_u64_be,
};

verus! {

/// One AMF0 value of the subset the command protocol uses. Numbers and
/// the time value of a date are carried as the raw bits of their 64-bit
/// IEEE 754 big-endian wire image; the date's second field is the raw
/// 16-bit time-zone word. Strings are byte strings as they stand on the
/// wire (a short string carries a 16-bit length, a long string a 32-bit
/// one).
#[derive(Debug, PartialEq, Eq)]
pub enum AmfValue {
    Number(u64),
    Boolean(bool),
    Str(Vec<u8>),
    Object(Vec<(Vec<u8>, AmfValue)>),
    Null,
    Undefined,
    EcmaArray(Vec<(Vec<u8>, AmfValue)>),
    StrictArray(Vec<AmfValue>),
    Date(u64, u16),
    LongStr(Vec<u8>),
}

/// The mathematical image of an `AmfValue`: the same tree with
/// sequences in place of vectors. Contracts and proofs speak of this
/// type.
pub enum AmfSpec {
    Number(u64),
    Boolean(bool),
    Str(Seq<u8>),
    Object(Seq<(Seq<u8>, AmfSpec)>),
    Null,
    Undefined,
    EcmaArray(Seq<(Seq<u8>, AmfSpec)>),
    StrictArray(Seq<AmfSpec>),
    Date(u64, u16),
    LongStr(Seq<u8>),
}

pub open spec fn view_amf(v: AmfValue) -> AmfSpec
    decreases v,
{
    match v {
        AmfValue::Number(bits) => AmfSpec::Number(bits),
        AmfValue::Boolean(x) => AmfSpec::Boolean(x),
        AmfValue::Str(s) => AmfSpec::Str(s@),
        AmfValue::Object(props) => AmfSpec::Object(view_props(props@)),
        AmfValue::Null => AmfSpec::Null,
        AmfValue::Undefined => AmfSpec::Undefined,
        AmfValue::EcmaArray(props) => AmfSpec::EcmaArray(view_props(props@)),
        AmfValue::StrictArray(items) => AmfSpec::StrictArray(view_items(items@)),
        AmfValue::Date(bits, tz) => AmfSpec::Date(bits, tz),
        AmfValue::LongStr(s) => AmfSpec::LongStr(s@),
    }
}

pub open spec fn view_props(props: Seq<(Vec<u8>, AmfValue)>) -> Seq<(Seq<u8>, AmfSpec)>
    decreases props,
{
    if props.len() == 0 {
        Seq::empty()
    } else {
        seq![(props[0].0@, view_amf(props[0].1))] + view_props(
            props.subrange(1, props.len() as int),
        )
    }
}

pub open spec fn view_items(items: Seq<AmfValue>) -> Seq<AmfSpec>
    decreases items,
{
    if items.len() == 0 {
        Seq::empty()
    } else {
        seq![view_amf(items[0])] + view_items(items.subrange(1, items.len() as int))
    }
}

/// The view of a property list has the same length and views each
/// entry pointwise.
pub proof fn lemma_view_props_index(props: Seq<(Vec<u8>, AmfValue)>)
    ensures
        view_props(props).len() == props.len(),
        forall|i: int|
            0 <= i < props.len() ==> view_props(props)[i] == (props[i].0@, view_amf(props[i].1)),
    decreases props,
{
    if props.len() > 0 {
        lemma_view_props_index(props.subrange(1, props.len() as int));
    }
}

/// The view of an item list has the same length and views each item
/// pointwise.
pub proof fn lemma_view_items_index(items: Seq<AmfValue>)
    ensures
        view_items(items).len() == items.len(),
        forall|i: int| 0 <= i < items.len() ==> view_items(items)[i] == view_amf(items[i]),
    decreases items,
{
    if items.len() > 0 {
        lemma_view_items_index(items.subrange(1, items.len() as int));
    }
}

/// A value the encoder can represent exactly: string lengths fit their
/// wire fields and object keys are non-empty (the empty key introduces
/// the end-of-object marker).
pub open spec fn wf_amf(v: AmfSpec) -> bool
    decreases v,
{
    match v {
        AmfSpec::Number(_) => true,
        AmfSpec::Boolean(_) => true,
        AmfSpec::Str(s) => s.len() <= 0xFFFF,
        AmfSpec::Object(props) => wf_props(props),
        AmfSpec::Null => true,
        AmfSpec::Undefined => true,
        AmfSpec::EcmaArray(props) => props.len() <= 0xFFFFFFFF && wf_props(props),
        AmfSpec::StrictArray(items) => items.len() <= 0xFFFFFFFF && wf_items(items),
        AmfSpec::Date(_, _) => true,
        AmfSpec::LongStr(s) => s.len() <= 0xFFFFFFFF,
    }
}

pub open spec fn wf_props(props: Seq<(Seq<u8>, AmfSpec)>) -> bool
    decreases props,
{
    if props.len() == 0 {
        true
    } else {
        1 <= props[0].0.len() <= 0xFFFF && wf_amf(props[0].1) && wf_props(
            props.subrange(1, props.len() as int),
        )
    }
}

pub open spec fn wf_items(items: Seq<AmfSpec>) -> bool
    decreases items,
{
    if items.len() == 0 {
        true
    } else {
        wf_amf(items[0]) && wf_items(items.subrange(1, items.len() as int))
    }
}

/// Pointwise reading of `wf_props`.
pub proof fn lemma_wf_props_index(props: Seq<(Seq<u8>, AmfSpec)>)
    requires
        wf_props(props),
    ensures
        forall|i: int|
            0 <= i < props.len() ==> 1 <= (#[trigger] props[i]).0.len() <= 0xFFFF && wf_amf(
                props[i].1,
            ),
    decreases props,
{
    if props.len() > 0 {
        let ps = props.subrange(1, props.len() as int);
        lemma_wf_props_index(ps);
        assert forall|i: int|
            0 <= i < props.len() implies 1 <= (#[trigger] props[i]).0.len() <= 0xFFFF && wf_amf(
            props[i].1,
        ) by {
            if i >= 1 {
                let p = ps[i - 1];
                assert(props[i] == p);
                assert(1 <= p.0.len() <= 0xFFFF && wf_amf(p.1));
            }
        }
    }
}

/// Pointwise reading of `wf_items`.
pub proof fn lemma_wf_items_index(items: Seq<AmfSpec>)
    requires
        wf_items(items),
    ensures
        forall|i: int| 0 <= i < items.len() ==> wf_amf(#[trigger] items[i]),
    decreases items,
{
    if items.len() > 0 {
        let ts = items.subrange(1, items.len() as int);
        lemma_wf_items_index(ts);
        assert forall|i: int| 0 <= i < items.len() implies wf_amf(#[trigger] items[i]) by {
            if i >= 1 {
                assert(items[i] == ts[i - 1]);
                assert(wf_amf(ts[i - 1]));
            }
        }
    }
}

/// The AMF0 byte image of a value.
pub open spec fn enc(v: AmfSpec) -> Seq<u8>
    decreases v,
{
    match v {
        AmfSpec::Number(bits) => seq![0x00u8] + spec_u64_be(bits),
        AmfSpec::Boolean(x) => seq![0x01u8, if x { 1u8 } else { 0u8 }],
        AmfSpec::Str(s) => seq![0x02u8] + spec_u16_be(s.len() as u16) + s,
        AmfSpec::Object(props) => seq![0x03u8] + enc_props(props) + seq![0u8, 0u8, 9u8],
        AmfSpec::Null => seq![0x05u8],
        AmfSpec::Undefined => seq![0x06u8],
        AmfSpec::EcmaArray(props) => seq![0x08u8] + spec_u32_be(props.len() as u32) + enc_props(
            props,
        ) + seq![0u8, 0u8, 9u8],
        AmfSpec::StrictArray(items) => seq![0x0Au8] + spec_u32_be(items.len() as u32) + enc_items(
            items,
        ),
        AmfSpec::Date(bits, tz) => seq![0x0Bu8] + spec_u64_be(bits) + spec_u16_be(tz),
        AmfSpec::LongStr(s) => seq![0x0Cu8] + spec_u32_be(s.len() as u32) + s,
    }
}

/// The byte image of one object property: length-prefixed key, then the
/// value.
pub open spec fn enc_prop(p: (Seq<u8>, AmfSpec)) -> Seq<u8>
    decreases p,
{
    spec_u16_be(p.0.len() as u16) + p.0 + enc(p.1)
}

pub open spec fn enc_props(props: Seq<(Seq<u8>, AmfSpec)>) -> Seq<u8>
    decreases props,
{
    if props.len() == 0 {
        Seq::empty()
    } else {
        enc_prop(props[0]) + enc_props(props.subrange(1, props.len() as int))
    }
}

pub open spec fn enc_items(items: Seq<AmfSpec>) -> Seq<u8>
    decreases items,
{
    if items.len() == 0 {
        Seq::empty()
    } else {
        enc(items[0]) + enc_items(items.subrange(1, items.len() as int))
    }
}

/// Appending one property to a list appends its byte image.
pub proof fn lemma_enc_props_push(props: Seq<(Seq<u8>, AmfSpec)>, p: (Seq<u8>, AmfSpec))
    ensures
        enc_props(props + seq![p]) == enc_props(props) + enc_prop(p),
    decreases props,
{
    if props.len() == 0 {
        reveal_with_fuel(enc_props, 3);
        assert(props + seq![p] =~= seq![p]);
        assert((props + seq![p]).subrange(1, 1) =~= Seq::<(Seq<u8>, AmfSpec)>::empty());
        assert(enc_props(props + seq![p]) =~= enc_props(props) + enc_prop(p));
    } else {
        let w = props + seq![p];
        let ps = props.subrange(1, props.len() as int);
        assert(w.subrange(1, w.len() as int) =~= ps + seq![p]);
        lemma_enc_props_push(ps, p);
        assert(enc_props(w) == enc_prop(w[0]) + enc_props(w.subrange(1, w.len() as int)));
        assert(w[0] == props[0]);
        assert(enc_props(w.subrange(1, w.len() as int)) == enc_props(ps) + enc_prop(p));
        assert(enc_props(props) == enc_prop(props[0]) + enc_props(ps));
        assert(enc_props(w) =~= enc_props(props) + enc_prop(p));
    }
}

/// Appending one item to a list appends its byte image.
pub proof fn lemma_enc_items_push(items: Seq<AmfSpec>, v: AmfSpec)
    ensures
        enc_items(items + seq![v]) == enc_items(items) + enc(v),
    decreases items,
{
    if items.len() == 0 {
        reveal_with_fuel(enc_items, 3);
        assert(items + seq![v] =~= seq![v]);
        assert((items + seq![v]).subrange(1, 1) =~= Seq::<AmfSpec>::empty());
        assert(enc_items(items + seq![v]) =~= enc_items(items) + enc(v));
    } else {
        let w = items + seq![v];
        let ts = items.subrange(1, items.len() as int);
        assert(w.subrange(1, w.len() as int) =~= ts + seq![v]);
        lemma_enc_items_push(ts, v);
        assert(enc_items(w) == enc(w[0]) + enc_items(w.subrange(1, w.len() as int)));
        assert(w[0] == items[0]);
        assert(enc_items(w.subrange(1, w.len() as int)) == enc_items(ts) + enc(v));
        assert(enc_items(items) == enc(items[0]) + enc_items(ts));
        assert(enc_items(w) =~= enc_items(items) + enc(v));
    }
}

/// Decoding: the value at the front of `b` and the count of bytes it
/// occupies. `None` means `b` does not begin with a complete value.
pub open spec fn dec(b: Seq<u8>) -> Option<(AmfSpec, int)>
    decreases b.len(), 0int,
{
    if b.len() < 1 {
        None
    } else {
        let m = b[0];
        if m == 0x00 {
            if b.len() < 9 {
                None
            } else {
                Some(
                    (
                        AmfSpec::Number(be64(b[1], b[2], b[3], b[4], b[5], b[6], b[7], b[8])),
                        9,
                    ),
                )
            }
        } else if m == 0x01 {
            if b.len() < 2 {
                None
            } else {
                Some((AmfSpec::Boolean(b[1] != 0), 2))
            }
        } else if m == 0x02 {
            if b.len() < 3 {
                None
            } else {
                let n = be16(b[1], b[2]) as int;
                if b.len() < 3 + n {
                    None
                } else {
                    Some((AmfSpec::Str(b.subrange(3, 3 + n)), 3 + n))
                }
            }
        } else if m == 0x03 {
            match dec_props(b.skip(1)) {
                Some(pr) => Some((AmfSpec::Object(pr.0), 1 + pr.1)),
                None => None,
            }
        } else if m == 0x05 {
            Some((AmfSpec::Null, 1))
        } else if m == 0x06 {
            Some((AmfSpec::Undefined, 1))
        } else if m == 0x08 {
            if b.len() < 5 {
                None
            } else {
                match dec_props(b.skip(5)) {
                    Some(pr) => Some((AmfSpec::EcmaArray(pr.0), 5 + pr.1)),
                    None => None,
                }
            }
        } else if m == 0x0A {
            if b.len() < 5 {
                None
            } else {
                let c = be32(b[1], b[2], b[3], b[4]) as int;
                match dec_items(b.skip(5), c) {
                    Some(pr) => Some((AmfSpec::StrictArray(pr.0), 5 + pr.1)),
                    None => None,
                }
            }
        } else if m == 0x0B {
            if b.len() < 11 {
                None
            } else {
                Some(
                    (
                        AmfSpec::Date(
                            be64(b[1], b[2], b[3], b[4], b[5], b[6], b[7], b[8]),
                            be16(b[9], b[10]),
                        ),
                        11,
                    ),
                )
            }
        } else if m == 0x0C {
            if b.len() < 5 {
                None
            } else {
                let n = be32(b[1], b[2], b[3], b[4]) as int;
                if b.len() < 5 + n {
                    None
                } else {
                    Some((AmfSpec::LongStr(b.subrange(5, 5 + n)), 5 + n))
                }
            }
        } else {
            None
        }
    }
}

/// Decodes object properties up to and including the end-of-object
/// marker 00 00 09.
pub open spec fn dec_props(b: Seq<u8>) -> Option<(Seq<(Seq<u8>, AmfSpec)>, int)>
    decreases b.len(), 1int,
{
    if b.len() < 3 {
        None
    } else if b[0] == 0 && b[1] == 0 && b[2] == 9 {
        Some((Seq::empty(), 3))
    } else {
        let kl = be16(b[0], b[1]) as int;
        if kl == 0 {
            None
        } else if b.len() < 2 + kl {
            None
        } else {
            let key = b.subrange(2, 2 + kl);
            match dec(b.skip(2 + kl)) {
                Some(pr) => {
                    if pr.1 < 1 || 2 + kl + pr.1 > b.len() {
                        None
                    } else {
                        match dec_props(b.skip(2 + kl + pr.1)) {
                            Some(rest) => Some(
                                (seq![(key, pr.0)] + rest.0, 2 + kl + pr.1 + rest.1),
                            ),
                            None => None,
                        }
                    }
                },
                None => None,
            }
        }
    }
}

/// Every byte image starts with its marker, so it is never empty.
pub proof fn lemma_enc_nonempty(v: AmfSpec)
    ensures
        enc(v).len() >= 1,
{
    match v {
        AmfSpec::Number(bits) => assert(enc(v).len() >= 1),
        AmfSpec::Boolean(x) => assert(enc(v).len() >= 1),
        AmfSpec::Str(s) => assert(enc(v).len() >= 1),
        AmfSpec::Object(props) => assert(enc(v).len() >= 1),
        AmfSpec::Null => assert(enc(v).len() >= 1),
        AmfSpec::Undefined => assert(enc(v).len() >= 1),
        AmfSpec::EcmaArray(props) => assert(enc(v).len() >= 1),
        AmfSpec::StrictArray(items) => assert(enc(v).len() >= 1),
        AmfSpec::Date(bits, tz) => assert(enc(v).len() >= 1),
        AmfSpec::LongStr(s) => assert(enc(v).len() >= 1),
    }
}

/// Decodes exactly `count` consecutive values.
pub open spec fn dec_items(b: Seq<u8>, count: int) -> Option<(Seq<AmfSpec>, int)>
    decreases b.len(), 1int,
{
    if count <= 0 {
        Some((Seq::empty(), 0))
    } else {
        match dec(b) {
            Some(pr) => {
                if pr.1 < 1 || pr.1 > b.len() {
                    None
                } else {
                    match dec_items(b.skip(pr.1), count - 1) {
                        Some(rest) => Some((seq![pr.0] + rest.0, pr.1 + rest.1)),
                        None => None,
                    }
                }
            },
            None => None,
        }
    }
}

/// Decoding inverts encoding: a well-formed value's byte image,
/// followed by anything, decodes back to that value, consuming exactly
/// the image. Numbers and dates compare on their raw 64-bit wire bits,
/// and object key order is preserved.
#[verifier::rlimit(100)]
#[verifier::spinoff_prover]
pub proof fn lemma_amf_round_trip(v: AmfSpec, rest: Seq<u8>)
    requires
        wf_amf(v),
    ensures
        dec(enc(v) + rest) == Some((v, enc(v).len() as int)),
    decreases v,
{
    let b = enc(v) + rest;
    match v {
        AmfSpec::Number(bits) => {
            let u = spec_u64_be(bits);
            assert(b =~= seq![0x00u8] + (u + rest));
            assert(forall|i: int| 1 <= i < 9 ==> b[i] == u[i - 1]);
            lemma_u64_be_round_trip(bits);
            assert(dec(b) == Some((AmfSpec::Number(bits), 9int)));
        },
        AmfSpec::Boolean(x) => {
            assert(b[0] == 0x01 && b[1] == (if x { 1u8 } else { 0u8 }));
            assert(dec(b) == Some((AmfSpec::Boolean(x), 2int)));
        },
        AmfSpec::Str(s) => {
            let kb = spec_u16_be(s.len() as u16);
            let hd = seq![0x02u8] + kb;
            assert(b =~= hd + (s + rest));
            assert(b[0] == 0x02 && b[1] == kb[0] && b[2] == kb[1]);
            lemma_u16_be_round_trip(s.len() as u16);
            assert(be16(b[1], b[2]) as int == s.len());
            assert(b.subrange(3, 3 + s.len() as int) =~= s);
            assert(dec(b) == Some((AmfSpec::Str(s), 3 + s.len() as int)));
        },
        AmfSpec::Object(props) => {
            assert(b[0] == 0x03);
            assert(b.skip(1) =~= enc_props(props) + seq![0u8, 0u8, 9u8] + rest);
            lemma_amf_props_round_trip(props, rest);
            assert(dec(b) == Some((AmfSpec::Object(props), enc(v).len() as int)));
        },
        AmfSpec::Null => {
            assert(b[0] == 0x05);
            assert(dec(b) == Some((AmfSpec::Null, 1int)));
        },
        AmfSpec::Undefined => {
            assert(b[0] == 0x06);
            assert(dec(b) == Some((AmfSpec::Undefined, 1int)));
        },
        AmfSpec::EcmaArray(props) => {
            assert(b[0] == 0x08);
            assert(b.len() >= 5);
            assert(b.skip(5) =~= enc_props(props) + seq![0u8, 0u8, 9u8] + rest);
            lemma_amf_props_round_trip(props, rest);
            assert(dec(b) == Some((AmfSpec::EcmaArray(props), enc(v).len() as int)));
        },
        AmfSpec::StrictArray(items) => {
            let c = spec_u32_be(items.len() as u32);
            assert(b =~= seq![0x0Au8] + (c + (enc_items(items) + rest)));
            assert(b[0] == 0x0A);
            assert(forall|i: int| 1 <= i < 5 ==> b[i] == c[i - 1]);
            lemma_u32_be_round_trip(items.len() as u32);
            assert(be32(b[1], b[2], b[3], b[4]) as int == items.len());
            assert(b.skip(5) =~= enc_items(items) + rest);
            lemma_amf_items_round_trip(items, rest);
            assert(dec(b) == Some((AmfSpec::StrictArray(items), enc(v).len() as int)));
        },
        AmfSpec::Date(bits, tz) => {
            let u = spec_u64_be(bits);
            let t = spec_u16_be(tz);
            assert(b =~= seq![0x0Bu8] + (u + (t + rest)));
            assert(b[0] == 0x0B);
            assert(forall|i: int| 1 <= i < 9 ==> b[i] == u[i - 1]);
            assert(b[9] == t[0] && b[10] == t[1]);
            lemma_u64_be_round_trip(bits);
            lemma_u16_be_round_trip(tz);
            assert(dec(b) == Some((AmfSpec::Date(bits, tz), 11int)));
        },
        AmfSpec::LongStr(s) => {
            let c = spec_u32_be(s.len() as u32);
            let hd = seq![0x0Cu8] + c;
            assert(b =~= hd + (s + rest));
            assert(b[0] == 0x0C);
            assert(b[1] == c[0] && b[2] == c[1] && b[3] == c[2] && b[4] == c[3]);
            lemma_u32_be_round_trip(s.len() as u32);
            assert(be32(b[1], b[2], b[3], b[4]) as int == s.len());
            assert(b.subrange(5, 5 + s.len() as int) =~= s);
            assert(dec(b) == Some((AmfSpec::LongStr(s), 5 + s.len() as int)));
        },
    }
}

/// Decoding inverts encoding for a property list followed by the
/// end-of-object marker.
#[verifier::rlimit(100)]
#[verifier::spinoff_prover]
pub proof fn lemma_amf_props_round_trip(props: Seq<(Seq<u8>, AmfSpec)>, rest: Seq<u8>)
    requires
        wf_props(props),
    ensures
        dec_props(enc_props(props) + seq![0u8, 0u8, 9u8] + rest) == Some(
            (props, enc_props(props).len() as int + 3),
        ),
    decreases props,
{
    let m3 = seq![0u8, 0u8, 9u8];
    let b = enc_props(props) + m3 + rest;
    if props.len() == 0 {
        assert(b =~= m3 + rest);
        assert(b[0] == 0 && b[1] == 0 && b[2] == 9);
        assert(dec_props(b) == Some((Seq::<(Seq<u8>, AmfSpec)>::empty(), 3int)));
        assert(props =~= Seq::<(Seq<u8>, AmfSpec)>::empty());
    } else {
        let key = props[0].0;
        let val = props[0].1;
        let ps = props.subrange(1, props.len() as int);
        let kb = spec_u16_be(key.len() as u16);
        let kl = key.len() as int;
        let tail = enc_props(ps) + m3 + rest;
        lemma_enc_nonempty(val);
        let n = enc(val).len() as int;
        let c = kb + (key + (enc(val) + tail));
        assert(b =~= c) by {
            assert(enc_props(props) == enc_prop(props[0]) + enc_props(ps));
            assert(enc_prop(props[0]) == kb + key + enc(val));
        }
        assert(b.len() == 2 + kl + n + tail.len());
        assert(b[0] == kb[0] && b[1] == kb[1]);
        assert(be16(b[0], b[1]) as int == kl && kl >= 1) by {
            lemma_u16_be_round_trip(key.len() as u16);
        }
        assert(!(b[0] == 0 && b[1] == 0)) by {
            lemma_be16_zero();
            lemma_u16_be_round_trip(key.len() as u16);
        }
        assert(b.subrange(2, 2 + kl) =~= key) by {
            assert(forall|i: int| 0 <= i < kl ==> c[2 + i] == key[i]);
        }
        assert(b.skip(2 + kl) =~= enc(val) + tail) by {
            assert(forall|i: int| 0 <= i < n + tail.len() ==> c[2 + kl + i] == (enc(val) + tail)[i]);
        }
        lemma_amf_round_trip(val, tail);
        assert(dec(b.skip(2 + kl)) == Some((val, n)));
        assert(2 + kl + n <= b.len());
        assert(b.skip(2 + kl + n) =~= enc_props(ps) + m3 + rest) by {
            assert(forall|i: int| 0 <= i < tail.len() ==> c[2 + kl + n + i] == tail[i]);
        }
        lemma_amf_props_round_trip(ps, rest);
        assert(dec_props(b.skip(2 + kl + n)) == Some((ps, enc_props(ps).len() as int + 3)));
        assert(seq![(key, val)] + ps =~= props);
        assert(enc_props(props).len() as int + 3 == 2 + kl + n + (enc_props(ps).len() as int + 3));
        assert(dec_props(b) == Some((props, enc_props(props).len() as int + 3)));
    }
}

/// Decoding inverts encoding for a counted list of values.
pub proof fn lemma_amf_items_round_trip(items: Seq<AmfSpec>, rest: Seq<u8>)
    requires
        wf_items(items),
    ensures
        dec_items(enc_items(items) + rest, items.len() as int) == Some(
            (items, enc_items(items).len() as int),
        ),
    decreases items,
{
    let b = enc_items(items) + rest;
    if items.len() == 0 {
        assert(dec_items(b, 0) == Some((Seq::<AmfSpec>::empty(), 0int)));
        assert(items =~= Seq::<AmfSpec>::empty());
    } else {
        let v0 = items[0];
        let ts = items.subrange(1, items.len() as int);
        let tail = enc_items(ts) + rest;
        assert(enc_items(items) == enc(v0) + enc_items(ts));
        lemma_enc_nonempty(v0);
        assert(b =~= enc(v0) + tail);
        lemma_amf_round_trip(v0, tail);
        assert(dec(b) == Some((v0, enc(v0).len() as int)));
        let n = enc(v0).len() as int;
        assert(n <= b.len());
        assert(b.skip(n) =~= enc_items(ts) + rest);
        lemma_amf_items_round_trip(ts, rest);
        assert(dec_items(b.skip(n), items.len() - 1) == Some((ts, enc_items(ts).len() as int)));
        assert(seq![v0] + ts =~= items);
        assert(dec_items(b, items.len() as int) == Some((items, enc_items(items).len() as int)));
    }
}

/// Appends the AMF0 byte image of `v` to `out`.
pub fn encode_value(v: &AmfValue, out: &mut Vec<u8>)
    requires
        wf_amf(view_amf(*v)),
    ensures
        final(out)@ == old(out)@ + enc(view_amf(*v)),
    decreases *v,
{
    match v {
        AmfValue::Number(bits) => {
            out.push(0x00);
            push_u64_be(out, *bits);
            proof {
                assert(out@ =~= old(out)@ + enc(view_amf(*v)));
            }
        },
        AmfValue::Boolean(x) => {
            out.push(0x01);
            out.push(if *x { 1 } else { 0 });
            proof {
                assert(out@ =~= old(out)@ + enc(view_amf(*v)));
            }
        },
        AmfValue::Str(s) => {
            out.push(0x02);
            push_u16_be(out, s.len() as u16);
            push_bytes(out, s.as_slice());
            proof {
                assert(out@ =~= old(out)@ + enc(view_amf(*v)));
            }
        },
        AmfValue::Object(props) => {
            out.push(0x03);
            encode_props(props, out);
            out.push(0);
            out.push(0);
            out.push(9);
            proof {
                assert(out@ =~= old(out)@ + enc(view_amf(*v)));
            }
        },
        AmfValue::Null => {
            out.push(0x05);
            proof {
                assert(out@ =~= old(out)@ + enc(view_amf(*v)));
            }
        },
        AmfValue::Undefined => {
            out.push(0x06);
            proof {
                assert(out@ =~= old(out)@ + enc(view_amf(*v)));
            }
        },
        AmfValue::EcmaArray(props) => {
            out.push(0x08);
            proof {
                lemma_view_props_index(props@);
            }
            push_u32_be(out, props.len() as u32);
            encode_props(props, out);
            out.push(0);
            out.push(0);
            out.push(9);
            proof {
                assert(out@ =~= old(out)@ + enc(view_amf(*v)));
            }
        },
        AmfValue::StrictArray(items) => {
            out.push(0x0A);
            proof {
                lemma_view_items_index(items@);
            }
            push_u32_be(out, items.len() as u32);
            encode_items(items, out);
            proof {
                assert(out@ =~= old(out)@ + enc(view_amf(*v)));
            }
        },
        AmfValue::Date(bits, tz) => {
            out.push(0x0B);
            push_u64_be(out, *bits);
            push_u16_be(out, *tz);
            proof {
                assert(out@ =~= old(out)@ + enc(view_amf(*v)));
            }
        },
        AmfValue::LongStr(s) => {
            out.push(0x0C);
            push_u32_be(out, s.len() as u32);
            push_bytes(out, s.as_slice());
            proof {
                assert(out@ =~= old(out)@ + enc(view_amf(*v)));
            }
        },
    }
}

/// Appends the byte images of a property list, without the
/// end-of-object marker.
fn encode_props(props: &Vec<(Vec<u8>, AmfValue)>, out: &mut Vec<u8>)
    requires
        wf_props(view_props(props@)),
    ensures
        final(out)@ == old(out)@ + enc_props(view_props(props@)),
    decreases *props,
{
    proof {
        lemma_view_props_index(props@);
        lemma_wf_props_index(view_props(props@));
    }
    let ghost vp = view_props(props@);
    let n = props.len();
    let mut i: usize = 0;
    proof {
        assert(vp.subrange(0, 0) =~= Seq::<(Seq<u8>, AmfSpec)>::empty());
        assert(out@ =~= old(out)@ + enc_props(vp.subrange(0, 0)));
    }
    while i < n
        invariant
            i <= n,
            n == props@.len(),
            vp == view_props(props@),
            vp.len() == n,
            forall|j: int|
                0 <= j < n ==> vp[j] == (props@[j].0@, view_amf(props@[j].1)),
            forall|j: int| 0 <= j < n ==> 1 <= (#[trigger] vp[j]).0.len() <= 0xFFFF && wf_amf(vp[j].1),
            out@ == old(out)@ + enc_props(vp.subrange(0, i as int)),
        decreases n - i,
    {
        let key_len = props[i].0.len();
        proof {
            assert(vp[i as int] == (props@[i as int].0@, view_amf(props@[i as int].1)));
            assert(wf_amf(view_amf(props@[i as int].1)));
        }
        push_u16_be(out, key_len as u16);
        push_bytes(out, props[i].0.as_slice());
        encode_value(&props[i].1, out);
        proof {
            lemma_enc_props_push(vp.subrange(0, i as int), vp[i as int]);
            assert(vp.subrange(0, i + 1) =~= vp.subrange(0, i as int) + seq![vp[i as int]]);
            assert(enc_prop(vp[i as int]) == spec_u16_be(props@[i as int].0@.len() as u16)
                + props@[i as int].0@ + enc(view_amf(props@[i as int].1)));
            assert(out@ =~= old(out)@ + enc_props(vp.subrange(0, i + 1)));
        }
        i += 1;
    }
    proof {
        assert(vp.subrange(0, n as int) =~= vp);
    }
}

/// Appends the byte images of consecutive values.
fn encode_items(items: &Vec<AmfValue>, out: &mut Vec<u8>)
    requires
        wf_items(view_items(items@)),
    ensures
        final(out)@ == old(out)@ + enc_items(view_items(items@)),
    decreases *items,
{
    proof {
        lemma_view_items_index(items@);
        lemma_wf_items_index(view_items(items@));
    }
    let ghost vi = view_items(items@);
    let n = items.len();
    let mut i: usize = 0;
    proof {
        assert(vi.subrange(0, 0) =~= Seq::<AmfSpec>::empty());
        assert(out@ =~= old(out)@ + enc_items(vi.subrange(0, 0)));
    }
    while i < n
        invariant
            i <= n,
            n == items@.len(),
            vi == view_items(items@),
            vi.len() == n,
            forall|j: int| 0 <= j < n ==> vi[j] == view_amf(items@[j]),
            forall|j: int| 0 <= j < n ==> wf_amf(#[trigger] vi[j]),
            out@ == old(out)@ + enc_items(vi.subrange(0, i as int)),
        decreases n - i,
    {
        encode_value(&items[i], out);
        proof {
            lemma_enc_items_push(vi.subrange(0, i as int), vi[i as int]);
            assert(vi.subrange(0, i + 1) =~= vi.subrange(0, i as int) + seq![vi[i as int]]);
            assert(out@ =~= old(out)@ + enc_items(vi.subrange(0, i + 1)));
        }
        i += 1;
    }
    proof {
        assert(vi.subrange(0, n as int) =~= vi);
    }
}

/// Viewing a list after a push appends the view of the new entry.
pub proof fn lemma_view_props_push(props: Seq<(Vec<u8>, AmfValue)>, p: (Vec<u8>, AmfValue))
    ensures
        view_props(props.push(p)) == view_props(props) + seq![(p.0@, view_amf(p.1))],
{
    lemma_view_props_index(props.push(p));
    lemma_view_props_index(props);
    assert(view_props(props.push(p)) =~= view_props(props) + seq![(p.0@, view_amf(p.1))]);
}

/// Viewing a list after a push appends the view of the new item.
pub proof fn lemma_view_items_push(items: Seq<AmfValue>, v: AmfValue)
    ensures
        view_items(items.push(v)) == view_items(items) + seq![view_amf(v)],
{
    lemma_view_items_index(items.push(v));
    lemma_view_items_index(items);
    assert(view_items(items.push(v)) =~= view_items(items) + seq![view_amf(v)]);
}

/// Decodes the value starting at `off`. On success the new absolute
/// offset points just past the value; the decoded value and the count
/// of bytes consumed agree exactly with `dec` on the byte suffix. On
/// failure the suffix does not begin with a complete value.
pub fn decode_value(b: &[u8], off: usize) -> (r: Result<(AmfValue, usize), StreamError>)
    requires
        off <= b@.len(),
    ensures
        match r {
            Ok(p) => off < p.1 && p.1 <= b@.len() && dec(b@.skip(off as int)) == Some(
                (view_amf(p.0), p.1 - off),
            ),
            Err(e) => dec(b@.skip(off as int)) is None && e == StreamError::AmfDecodeError,
        },
    decreases b@.len() - off, 0int,
{
    let ghost s = b@.skip(off as int);
    proof {
        assert(s.len() == b@.len() - off);
        assert(forall|i: int| 0 <= i < s.len() ==> s[i] == b@[off + i]);
    }
    let n = b.len();
    if off >= n {
        return Err(StreamError::AmfDecodeError);
    }
    let m = b[off];
    if m == 0x00 {
        if n - off < 9 {
            return Err(StreamError::AmfDecodeError);
        }
        let bits = read_u64_be(b, off + 1);
        proof {
            assert(dec(s) == Some((AmfSpec::Number(bits), 9int)));
        }
        Ok((AmfValue::Number(bits), off + 9))
    } else if m == 0x01 {
        if n - off < 2 {
            return Err(StreamError::AmfDecodeError);
        }
        let x = b[off + 1] != 0;
        proof {
            assert(dec(s) == Some((AmfSpec::Boolean(x), 2int)));
        }
        Ok((AmfValue::Boolean(x), off + 2))
    } else if m == 0x02 {
        if n - off < 3 {
            return Err(StreamError::AmfDecodeError);
        }
        let sl = read_u16_be(b, off + 1) as usize;
        if sl > n - off - 3 {
            return Err(StreamError::AmfDecodeError);
        }
        let mut sv: Vec<u8> = Vec::new();
        sv.extend_from_slice(&b[off + 3..off + 3 + sl]);
        proof {
            assert(sv@ =~= s.subrange(3, 3 + sl as int));
            assert(dec(s) == Some((AmfSpec::Str(sv@), 3 + sl as int)));
        }
        Ok((AmfValue::Str(sv), off + 3 + sl))
    } else if m == 0x03 {
        proof {
            assert(s.skip(1) =~= b@.skip(off + 1));
        }
        match decode_props(b, off + 1) {
            Ok(pr) => {
                proof {
                    assert(dec(s) == Some(
                        (AmfSpec::Object(view_props(pr.0@)), 1 + (pr.1 - (off + 1))),
                    ));
                }
                Ok((AmfValue::Object(pr.0), pr.1))
            },
            Err(e) => Err(e),
        }
    } else if m == 0x05 {
        proof {
            assert(dec(s) == Some((AmfSpec::Null, 1int)));
        }
        Ok((AmfValue::Null, off + 1))
    } else if m == 0x06 {
        proof {
            assert(dec(s) == Some((AmfSpec::Undefined, 1int)));
        }
        Ok((AmfValue::Undefined, off + 1))
    } else if m == 0x08 {
        if n - off < 5 {
            return Err(StreamError::AmfDecodeError);
        }
        proof {
            assert(s.skip(5) =~= b@.skip(off + 5));
        }
        match decode_props(b, off + 5) {
            Ok(pr) => {
                proof {
                    assert(dec(s) == Some(
                        (AmfSpec::EcmaArray(view_props(pr.0@)), 5 + (pr.1 - (off + 5))),
                    ));
                }
                Ok((AmfValue::EcmaArray(pr.0), pr.1))
            },
            Err(e) => Err(e),
        }
    } else if m == 0x0A {
        if n - off < 5 {
            return Err(StreamError::AmfDecodeError);
        }
        let c = read_u32_be(b, off + 1);
        proof {
            assert(s.skip(5) =~= b@.skip(off + 5));
        }
        match decode_items(b, off + 5, c) {
            Ok(pr) => {
                proof {
                    assert(dec(s) == Some(
                        (AmfSpec::StrictArray(view_items(pr.0@)), 5 + (pr.1 - (off + 5))),
                    ));
                }
                Ok((AmfValue::StrictArray(pr.0), pr.1))
            },
            Err(e) => Err(e),
        }
    } else if m == 0x0B {
        if n - off < 11 {
            return Err(StreamError::AmfDecodeError);
        }
        let bits = read_u64_be(b, off + 1);
        let tz = read_u16_be(b, off + 9);
        proof {
            assert(dec(s) == Some((AmfSpec::Date(bits, tz), 11int)));
        }
        Ok((AmfValue::Date(bits, tz), off + 11))
    } else if m == 0x0C {
        if n - off < 5 {
            return Err(StreamError::AmfDecodeError);
        }
        let sl = read_u32_be(b, off + 1) as usize;
        if sl > n - off - 5 {
            return Err(StreamError::AmfDecodeError);
        }
        let mut sv: Vec<u8> = Vec::new();
        sv.extend_from_slice(&b[off + 5..off + 5 + sl]);
        proof {
            assert(sv@ =~= s.subrange(5, 5 + sl as int));
            assert(dec(s) == Some((AmfSpec::LongStr(sv@), 5 + sl as int)));
        }
        Ok((AmfValue::LongStr(sv), off + 5 + sl))
    } else {
        Err(StreamError::AmfDecodeError)
    }
}

/// Decodes object properties starting at `off`, up to and including the
/// end-of-object marker.
fn decode_props(b: &[u8], off: usize) -> (r: Result<(Vec<(Vec<u8>, AmfValue)>, usize), StreamError>)
    requires
        off <= b@.len(),
    ensures
        match r {
            Ok(p) => off < p.1 && p.1 <= b@.len() && dec_props(b@.skip(off as int)) == Some(
                (view_props(p.0@), p.1 - off),
            ),
            Err(e) => dec_props(b@.skip(off as int)) is None && e == StreamError::AmfDecodeError,
        },
    decreases b@.len() - off, 1int,
{
    let n = b.len();
    let mut acc: Vec<(Vec<u8>, AmfValue)> = Vec::new();
    let mut cur: usize = off;
    proof {
        assert(view_props(acc@) =~= Seq::<(Seq<u8>, AmfSpec)>::empty());
    }
    loop
        invariant
            off <= cur <= b@.len(),
            n == b@.len(),
            match dec_props(b@.skip(cur as int)) {
                Some(t) => dec_props(b@.skip(off as int)) == Some(
                    (view_props(acc@) + t.0, cur - off + t.1),
                ),
                None => dec_props(b@.skip(off as int)) is None,
            },
        decreases b@.len() - cur,
    {
        let ghost s = b@.skip(cur as int);
        proof {
            assert(s.len() == b@.len() - cur);
            assert(forall|i: int| 0 <= i < s.len() ==> s[i] == b@[cur + i]);
        }
        if n - cur < 3 {
            return Err(StreamError::AmfDecodeError);
        }
        if b[cur] == 0 && b[cur + 1] == 0 && b[cur + 2] == 9 {
            proof {
                assert(dec_props(s) == Some((Seq::<(Seq<u8>, AmfSpec)>::empty(), 3int)));
                assert(view_props(acc@) + Seq::<(Seq<u8>, AmfSpec)>::empty() =~= view_props(acc@));
            }
            return Ok((acc, cur + 3));
        }
        let kl = read_u16_be(b, cur) as usize;
        if kl == 0 {
            return Err(StreamError::AmfDecodeError);
        }
        if kl > n - cur - 2 {
            return Err(StreamError::AmfDecodeError);
        }
        let mut key: Vec<u8> = Vec::new();
        key.extend_from_slice(&b[cur + 2..cur + 2 + kl]);
        proof {
            assert(key@ =~= s.subrange(2, 2 + kl as int));
            assert(s.skip(2 + kl as int) =~= b@.skip(cur + 2 + kl));
        }
        match decode_value(b, cur + 2 + kl) {
            Ok(pr) => {
                let val = pr.0;
                let newoff = pr.1;
                proof {
                    assert(dec(s.skip(2 + kl as int)) == Some(
                        (view_amf(val), newoff - (cur + 2 + kl)),
                    ));
                    assert(s.skip(2 + kl + (newoff - (cur + 2 + kl))) =~= b@.skip(newoff as int));
                }
                let ghost old_acc = acc@;
                let ghost gk = key@;
                let ghost gv = view_amf(val);
                acc.push((key, val));
                proof {
                    lemma_view_props_push(old_acc, acc@[old_acc.len() as int]);
                    assert(acc@[old_acc.len() as int].0@ == gk);
                    assert(view_amf(acc@[old_acc.len() as int].1) == gv);
                    assert(view_props(acc@) == view_props(old_acc) + seq![(gk, gv)]);
                    assert(match dec_props(b@.skip(newoff as int)) {
                        Some(t) => dec_props(b@.skip(cur as int)) == Some(
                            (seq![(gk, gv)] + t.0, (newoff - cur) + t.1),
                        ),
                        None => dec_props(b@.skip(cur as int)) is None,
                    });
                    assert(match dec_props(b@.skip(newoff as int)) {
                        Some(t) => {
                            &&& view_props(acc@) + t.0 =~= view_props(old_acc) + (seq![
                                (gk, gv),
                            ] + t.0)
                            &&& dec_props(b@.skip(off as int)) == Some(
                                (view_props(acc@) + t.0, newoff - off + t.1),
                            )
                        },
                        None => dec_props(b@.skip(off as int)) is None,
                    });
                }
                cur = newoff;
            },
            Err(e) => {
                return Err(e);
            },
        }
    }
}

/// Decodes exactly `count` consecutive values starting at `off`.
fn decode_items(b: &[u8], off: usize, count: u32) -> (r: Result<(Vec<AmfValue>, usize), StreamError>)
    requires
        off <= b@.len(),
    ensures
        match r {
            Ok(p) => off <= p.1 && p.1 <= b@.len() && dec_items(b@.skip(off as int), count as int)
                == Some((view_items(p.0@), p.1 - off)),
            Err(e) => dec_items(b@.skip(off as int), count as int) is None && e
                == StreamError::AmfDecodeError,
        },
    decreases b@.len() - off, 1int,
{
    let mut acc: Vec<AmfValue> = Vec::new();
    let mut cur: usize = off;
    let mut i: u32 = 0;
    proof {
        assert(view_items(acc@) =~= Seq::<AmfSpec>::empty());
    }
    while i < count
        invariant
            off <= cur <= b@.len(),
            i <= count,
            match dec_items(b@.skip(cur as int), count - i) {
                Some(t) => dec_items(b@.skip(off as int), count as int) == Some(
                    (view_items(acc@) + t.0, cur - off + t.1),
                ),
                None => dec_items(b@.skip(off as int), count as int) is None,
            },
        decreases count - i,
    {
        let ghost s = b@.skip(cur as int);
        match decode_value(b, cur) {
            Ok(pr) => {
                let val = pr.0;
                let newoff = pr.1;
                proof {
                    assert(s.skip(newoff - cur) =~= b@.skip(newoff as int));
                }
                let ghost old_acc = acc@;
                acc.push(val);
                proof {
                    lemma_view_items_push(old_acc, acc@[old_acc.len() as int]);
                    assert(view_items(acc@) == view_items(old_acc) + seq![
                        view_amf(acc@[old_acc.len() as int]),
                    ]);
                    assert(match dec_items(b@.skip(newoff as int), count - i - 1) {
                        Some(t) => {
                            &&& view_items(acc@) + t.0 =~= view_items(old_acc) + (seq![
                                view_amf(acc@[old_acc.len() as int]),
                            ] + t.0)
                            &&& dec_items(b@.skip(off as int), count as int) == Some(
                                (view_items(acc@) + t.0, newoff - off + t.1),
                            )
                        },
                        None => dec_items(b@.skip(off as int), count as int) is None,
                    });
                }
                cur = newoff;
                i += 1;
            },
            Err(e) => {
                return Err(e);
            },
        }
    }
    proof {
        assert(dec_items(b@.skip(cur as int), 0) == Some((Seq::<AmfSpec>::empty(), 0int)));
        assert(view_items(acc@) + Seq::<AmfSpec>::empty() =~= view_items(acc@));
    }
    Ok((acc, cur))
}

} // verus!
