use vstd::prelude::*;

use crate::chunk::spec_chunk0_header;
use crate::command::{
    ascii_of, create_checkbw_response, create_connect_response, create_createstream_response,
    create_generic_response, create_onbwcheck_message, create_onbwdone_message,
    create_onstatus_response, create_publish_response, dec_cmd, parse_rtmp_connect,
    parse_rtmp_publish, spec_connect_obj,
    spec_connect_response, spec_generic_response, spec_onbwcheck_message,
    spec_onbwdone_message, spec_onstatus_response, spec_publish_parts, spec_publish_response,
    spec_result_number_response, str_prop, vec_of_str,
};
use crate::ack::AckCounter;
use crate::demux::{Demuxer, DemuxStep, Message};
use crate::error::StreamError;
use crate::flv::{flv_file_header, flv_tag, spec_flv_header, spec_flv_tag};
use crate::wire::{be32, bytes_eq, push_bytes, read_u32_be, spec_u32_be};

verus! {

/// Where a connection stands on its way from raw socket to a
/// publishing stream.
#[derive(Clone, Copy, Debug, PartialEq, Eq, Structural)]
pub enum Phase {
    Handshaking,
    AwaitingConnect,
    Connected,
    StreamCreated,
    Publishing,
    Closed,
}

/// What the surrounding runtime must do after a step of the state
/// machine: write bytes to the socket, start the segmenter for a key,
/// push FLV bytes to the segmenter's input, or tear the session down.
pub enum Action {
    Send(Vec<u8>),
    SendAck(Vec<u8>),
    StartSegmenter(Vec<u8>),
    WriteMedia(Vec<u8>),
    Close,
}

pub open spec fn act_send(a: Action, b: Seq<u8>) -> bool {
    match a {
        Action::Send(v) => v@ == b,
        _ => false,
    }
}

pub open spec fn act_start(a: Action, k: Seq<u8>) -> bool {
    match a {
        Action::StartSegmenter(v) => v@ == k,
        _ => false,
    }
}

pub open spec fn act_write(a: Action, b: Seq<u8>) -> bool {
    match a {
        Action::WriteMedia(v) => v@ == b,
        _ => false,
    }
}

pub open spec fn act_close(a: Action) -> bool {
    a is Close
}

/// The wire image of one Acknowledgement: a protocol-control chunk of
/// type 3 carrying the running received-byte count.
pub open spec fn spec_ack_chunk(total: u32) -> Seq<u8> {
    spec_chunk0_header(2, 0, 4, 3, 0) + spec_u32_be(total)
}

/// No acknowledgement send stands among these actions: the state
/// machine never emits one, only the framing driver does.
pub open spec fn no_acks(s: Seq<Action>) -> bool {
    forall|i: int| 0 <= i < s.len() ==> !((#[trigger] s[i]) is SendAck)
}

/// How many acknowledgement sends these actions hold.
pub open spec fn count_acks(s: Seq<Action>) -> int
    decreases s.len(),
{
    if s.len() == 0 {
        0
    } else {
        (if s[0] is SendAck {
            1int
        } else {
            0int
        }) + count_acks(s.subrange(1, s.len() as int))
    }
}

/// An acknowledgement send carries a well-formed Acknowledgement
/// chunk; any other action is unconstrained here.
pub open spec fn ack_shaped(a: Action) -> bool {
    match a {
        Action::SendAck(v) => exists|t: u32| v@ == spec_ack_chunk(t),
        _ => true,
    }
}

/// Every acknowledgement send among these actions is a well-formed
/// Acknowledgement chunk.
pub open spec fn acks_well_formed(s: Seq<Action>) -> bool {
    forall|i: int| 0 <= i < s.len() ==> ack_shaped(#[trigger] s[i])
}

proof fn lemma_count_acks_push(s: Seq<Action>, a: Action)
    ensures
        count_acks(s.push(a)) == count_acks(s) + (if a is SendAck {
            1int
        } else {
            0int
        }),
    decreases s.len(),
{
    if s.len() == 0 {
        reveal_with_fuel(count_acks, 3);
        assert(s.push(a) =~= seq![a]);
        assert(seq![a].subrange(1, 1) =~= Seq::<Action>::empty());
    } else {
        let w = s.push(a);
        let ps = s.subrange(1, s.len() as int);
        assert(w.subrange(1, w.len() as int) =~= ps.push(a));
        lemma_count_acks_push(ps, a);
        assert(w[0] == s[0]);
    }
}

proof fn lemma_count_acks_append(s: Seq<Action>, t: Seq<Action>)
    ensures
        count_acks(s + t) == count_acks(s) + count_acks(t),
    decreases s.len(),
{
    if s.len() == 0 {
        assert(s + t =~= t);
    } else {
        let w = s + t;
        let ps = s.subrange(1, s.len() as int);
        assert(w.subrange(1, w.len() as int) =~= ps + t);
        lemma_count_acks_append(ps, t);
        assert(w[0] == s[0]);
    }
}

proof fn lemma_no_acks_count_zero(s: Seq<Action>)
    requires
        no_acks(s),
    ensures
        count_acks(s) == 0,
    decreases s.len(),
{
    if s.len() > 0 {
        let ps = s.subrange(1, s.len() as int);
        assert(forall|i: int| 0 <= i < ps.len() ==> ps[i] == s[i + 1]);
        lemma_no_acks_count_zero(ps);
    }
}

/// The wire image of one command reply: a format-0 chunk on
/// chunk-stream id 3, type id 20, around the AMF0 payload.
pub open spec fn spec_command_chunk(p: Seq<u8>) -> Seq<u8> {
    spec_chunk0_header(3, 0, p.len() as u32, 20, 0) + p
}

/// The Stream-Begin user-control chunk for one message-stream id.
pub open spec fn spec_stream_begin_chunk(sid: u32) -> Seq<u8> {
    spec_chunk0_header(2, 0, 6, 4, 0) + seq![0u8, 0u8] + spec_u32_be(sid)
}

/// The three control messages sent right after the handshake: Window
/// Acknowledgement Size 5000000, Set Peer Bandwidth 5000000 hard, and
/// Set Chunk Size 4096.
pub open spec fn spec_initial_control_burst() -> Seq<u8> {
    spec_chunk0_header(2, 0, 4, 5, 0) + spec_u32_be(5000000) + spec_chunk0_header(2, 0, 5, 6, 0)
        + spec_u32_be(5000000) + seq![0u8] + spec_chunk0_header(2, 0, 4, 1, 0) + spec_u32_be(4096)
}

/// A key a publisher may use: non-empty, at most 255 bytes, free of
/// path separators.
pub open spec fn valid_stream_key(k: Seq<u8>) -> bool {
    &&& 1 <= k.len() <= 255
    &&& forall|i: int| 0 <= i < k.len() ==> k[i] != 0x2F && k[i] != 0x5C
}

/// Checks a stream key against `valid_stream_key`.
pub fn validate_stream_key(k: &[u8]) -> (r: bool)
    ensures
        r == valid_stream_key(k@),
{
    if k.len() == 0 || k.len() > 255 {
        return false;
    }
    let n = k.len();
    let mut i: usize = 0;
    while i < n
        invariant
            i <= n,
            n == k@.len(),
            1 <= n <= 255,
            forall|j: int| 0 <= j < i ==> k@[j] != 0x2F && k@[j] != 0x5C,
        decreases n - i,
    {
        if k[i] == 0x2F || k[i] == 0x5C {
            return false;
        }
        i += 1;
    }
    true
}

/// The process-wide set of active stream keys, with the concurrent
/// publisher cap. The runtime holds it behind its lock; a key enters
/// on the transition to Publishing and leaves when the session closes.
pub struct KeyRegistry {
    pub keys: Vec<Vec<u8>>,
    pub max_streams: usize,
}

impl KeyRegistry {
    pub open spec fn has_key(self, k: Seq<u8>) -> bool {
        exists|i: int| 0 <= i < self.keys@.len() && (#[trigger] self.keys@[i])@ == k
    }

    pub fn new(max_streams: usize) -> (r: KeyRegistry)
        ensures
            r.max_streams == max_streams,
            r.keys@.len() == 0,
            forall|k: Seq<u8>| !(#[trigger] r.has_key(k)),
    {
        KeyRegistry { keys: Vec::new(), max_streams }
    }

    /// Whether some active publisher holds this key.
    pub fn contains(&self, k: &[u8]) -> (r: bool)
        ensures
            r == self.has_key(k@),
    {
        let n = self.keys.len();
        let mut i: usize = 0;
        while i < n
            invariant
                i <= n,
                n == self.keys@.len(),
                forall|j: int| 0 <= j < i ==> (#[trigger] self.keys@[j])@ != k@,
            decreases n - i,
        {
            if bytes_eq(self.keys[i].as_slice(), k) {
                return true;
            }
            i += 1;
        }
        false
    }

    /// Removes every entry holding this key.
    #[verifier::rlimit(100)]
    #[verifier::spinoff_prover]
    pub fn release(&mut self, k: &[u8])
        ensures
            final(self).max_streams == old(self).max_streams,
            !final(self).has_key(k@),
            forall|k2: Seq<u8>|
                k2 != k@ ==> #[trigger] final(self).has_key(k2) == old(self).has_key(k2),
    {
        let n = self.keys.len();
        let mut kept: Vec<Vec<u8>> = Vec::new();
        let mut i: usize = 0;
        while i < n
            invariant
                i <= n,
                n == old(self).keys@.len(),
                self.keys@ == old(self).keys@,
                self.max_streams == old(self).max_streams,
                forall|j: int| 0 <= j < kept@.len() ==> (#[trigger] kept@[j])@ != k@,
                forall|j: int|
                    0 <= j < kept@.len() ==> exists|l: int|
                        0 <= l < i && (#[trigger] kept@[j])@ == old(self).keys@[l]@,
                forall|l: int|
                    0 <= l < i ==> ((#[trigger] old(self).keys@[l])@ == k@ || exists|j: int|
                        0 <= j < kept@.len() && kept@[j]@ == old(self).keys@[l]@),
            decreases n - i,
        {
            if !bytes_eq(self.keys[i].as_slice(), k) {
                let mut copy: Vec<u8> = Vec::new();
                copy.extend_from_slice(self.keys[i].as_slice());
                proof {
                    assert(copy@ =~= old(self).keys@[i as int]@);
                }
                let ghost pre_kept = kept@;
                kept.push(copy);
                proof {
                    assert(kept@[pre_kept.len() as int]@ == old(self).keys@[i as int]@);
                    assert forall|j: int|
                        0 <= j < kept@.len() implies exists|l: int|
                        0 <= l < i + 1 && (#[trigger] kept@[j])@ == old(self).keys@[l]@ by {
                        if j < pre_kept.len() {
                            let l0 = choose|l: int|
                                0 <= l < i && (#[trigger] pre_kept[j])@ == old(self).keys@[l]@;
                            assert(kept@[j]@ == old(self).keys@[l0]@);
                        } else {
                            assert(kept@[j]@ == old(self).keys@[i as int]@);
                        }
                    }
                    assert forall|l: int|
                        0 <= l < i + 1 implies ((#[trigger] old(self).keys@[l])@ == k@ || exists|
                        j: int,
                    |
                        0 <= j < kept@.len() && kept@[j]@ == old(self).keys@[l]@) by {
                        if l < i as int {
                            if old(self).keys@[l]@ != k@ {
                                let j0 = choose|j: int|
                                    0 <= j < pre_kept.len() && pre_kept[j]@ == old(self).keys@[l]@;
                                assert(kept@[j0]@ == old(self).keys@[l]@);
                            }
                        } else {
                            assert(kept@[pre_kept.len() as int]@ == old(self).keys@[l]@);
                        }
                    }
                }
            } else {
                proof {
                    assert(old(self).keys@[i as int]@ == k@);
                }
            }
            i += 1;
        }
        let ghost kept_snap = kept@;
        self.keys = kept;
        proof {
            assert(self.keys@ == kept_snap);
            assert forall|k2: Seq<u8>|
                k2 != k@ implies #[trigger] final(self).has_key(k2) == old(self).has_key(k2) by {
                if old(self).has_key(k2) {
                    let l = choose|l: int|
                        0 <= l < old(self).keys@.len() && (#[trigger] old(self).keys@[l])@ == k2;
                    assert(old(self).keys@[l]@ != k@);
                    let j0 = choose|j: int|
                        0 <= j < kept_snap.len() && (#[trigger] kept_snap[j])@ == old(self).keys@[l]@;
                    assert(self.keys@[j0]@ == k2);
                }
                if self.has_key(k2) {
                    let j = choose|j: int|
                        0 <= j < self.keys@.len() && (#[trigger] self.keys@[j])@ == k2;
                    let l0 = choose|l: int|
                        0 <= l < n && (#[trigger] kept_snap[j])@ == old(self).keys@[l]@;
                    assert(old(self).keys@[l0]@ == k2);
                }
            }
        }
    }
}

/// What a publish attempt found when it asked for its key's slot.
#[derive(Clone, Copy, Debug, PartialEq, Eq, Structural)]
pub enum AcquireOutcome {
    Acquired,
    Busy,
    AtCapacity,
}

impl KeyRegistry {
    /// Claims a key slot: refused when the key is already live or the
    /// publisher cap is reached, recorded otherwise.
    pub fn try_acquire(&mut self, k: &[u8]) -> (r: AcquireOutcome)
        ensures
            final(self).max_streams == old(self).max_streams,
            old(self).has_key(k@) ==> r == AcquireOutcome::Busy && *final(self) == *old(self),
            !old(self).has_key(k@) && old(self).keys@.len() >= old(self).max_streams ==> r
                == AcquireOutcome::AtCapacity && *final(self) == *old(self),
            !old(self).has_key(k@) && old(self).keys@.len() < old(self).max_streams ==> r
                == AcquireOutcome::Acquired && final(self).has_key(k@) && (forall|k2: Seq<u8>|
                k2 != k@ ==> #[trigger] final(self).has_key(k2) == old(self).has_key(k2)),
    {
        if self.contains(k) {
            return AcquireOutcome::Busy;
        }
        if self.keys.len() >= self.max_streams {
            return AcquireOutcome::AtCapacity;
        }
        let mut copy: Vec<u8> = Vec::new();
        copy.extend_from_slice(k);
        proof {
            assert(copy@ =~= k@);
        }
        let ghost pre = self.keys@;
        self.keys.push(copy);
        proof {
            assert(self.keys@[pre.len() as int]@ == k@);
            assert(self.has_key(k@));
            assert forall|k2: Seq<u8>|
                k2 != k@ implies #[trigger] final(self).has_key(k2) == old(self).has_key(k2) by {
                if old(self).has_key(k2) {
                    let l = choose|l: int| 0 <= l < pre.len() && (#[trigger] pre[l])@ == k2;
                    assert(self.keys@[l]@ == k2);
                }
                if self.has_key(k2) {
                    let j = choose|j: int|
                        0 <= j < self.keys@.len() && (#[trigger] self.keys@[j])@ == k2;
                    assert(j < pre.len());
                }
            }
        }
        AcquireOutcome::Acquired
    }
}

/// Parses the command name and transaction id that open a command
/// payload.
fn parse_cmd(payload: &[u8]) -> (r: Option<(Vec<u8>, u64)>)
    ensures
        match r {
            Some(p) => dec_cmd(payload@) matches Some(c) && c.0 == p.0@ && c.1 == p.1,
            None => dec_cmd(payload@) is None,
        },
{
    proof {
        assert(payload@.skip(0) =~= payload@);
    }
    let n0 = match crate::amf::decode_value(payload, 0) {
        Ok(p) => p,
        Err(_) => {
            return None;
        },
    };
    let name = match n0.0 {
        crate::amf::AmfValue::Str(s) => s,
        _ => {
            return None;
        },
    };
    let n1 = match crate::amf::decode_value(payload, n0.1) {
        Ok(p) => p,
        Err(_) => {
            return None;
        },
    };
    match n1.0 {
        crate::amf::AmfValue::Number(tx) => Some((name, tx)),
        _ => None,
    }
}

/// One connection's protocol state: its phase and what the connect and
/// publish commands recorded.
pub struct Session {
    pub phase: Phase,
    pub app: Vec<u8>,
    pub tc_url: Vec<u8>,
    pub flash_ver: Vec<u8>,
    pub stream_key: Vec<u8>,
    pub flv_started: bool,
    pub out_chunk_size: u32,
}

/// The parts of the session record a reply-only step leaves alone:
/// everything but the phase.
pub open spec fn same_record(a: Session, b: Session) -> bool {
    &&& a.app == b.app
    &&& a.tc_url == b.tc_url
    &&& a.flash_ver == b.flash_ver
    &&& a.stream_key == b.stream_key
    &&& a.flv_started == b.flv_started
    &&& a.out_chunk_size == b.out_chunk_size
}

impl Session {
    /// A fresh session, still handshaking.
    pub fn new() -> (r: Session)
        ensures
            r.phase == Phase::Handshaking,
            r.flv_started == false,
            r.out_chunk_size == 128,
    {
        Session {
            phase: Phase::Handshaking,
            app: Vec::new(),
            tc_url: Vec::new(),
            flash_ver: Vec::new(),
            stream_key: Vec::new(),
            flv_started: false,
            out_chunk_size: 128,
        }
    }

    /// Leaves Handshaking and yields the initial control burst, after
    /// which the server's outbound chunk size is 4096.
    pub fn on_handshake_complete(&mut self) -> (r: Vec<u8>)
        requires
            old(self).phase == Phase::Handshaking,
        ensures
            final(self).phase == Phase::AwaitingConnect,
            final(self).out_chunk_size == 4096,
            r@ == spec_initial_control_burst(),
    {
        self.phase = Phase::AwaitingConnect;
        self.out_chunk_size = 4096;
        let mut wnd: Vec<u8> = Vec::new();
        crate::wire::push_u32_be(&mut wnd, 5000000);
        let c1 = crate::chunk::create_control_message(5, wnd.as_slice());
        let mut bw: Vec<u8> = Vec::new();
        crate::wire::push_u32_be(&mut bw, 5000000);
        bw.push(0);
        let c2 = crate::chunk::create_control_message(6, bw.as_slice());
        let mut cs: Vec<u8> = Vec::new();
        crate::wire::push_u32_be(&mut cs, 4096);
        let c3 = crate::chunk::create_control_message(1, cs.as_slice());
        let mut out: Vec<u8> = Vec::new();
        push_bytes(&mut out, c1.as_slice());
        push_bytes(&mut out, c2.as_slice());
        push_bytes(&mut out, c3.as_slice());
        proof {
            assert(bw@ =~= spec_u32_be(5000000) + seq![0u8]);
            assert(out@ =~= spec_initial_control_burst());
        }
        out
    }

    /// The Stream-Begin user-control chunk for one message-stream id.
    pub fn stream_begin_message(stream_id: u32) -> (r: Vec<u8>)
        ensures
            r@ == spec_stream_begin_chunk(stream_id),
    {
        let mut p: Vec<u8> = Vec::new();
        p.push(0);
        p.push(0);
        crate::wire::push_u32_be(&mut p, stream_id);
        let r = crate::chunk::create_control_message(4, p.as_slice());
        proof {
            assert(p@ =~= seq![0u8, 0u8] + spec_u32_be(stream_id));
            assert(r@ =~= spec_stream_begin_chunk(stream_id));
        }
        r
    }

    /// Advances the state machine on one command payload, with the
    /// key registry at hand for publish decisions. The actions carry
    /// the exact reply bytes the peer must see.
    #[verifier::rlimit(100)]
    #[verifier::spinoff_prover]
    pub fn handle_command(&mut self, payload: &[u8], reg: &mut KeyRegistry) -> (r: Vec<Action>)
        ensures
            // a session that was already closed ignores everything
            old(self).phase == Phase::Closed ==> *final(self) == *old(self) && *final(reg) == *old(reg) && r@.len() == 0,
            // a command during the handshake is a protocol violation
            old(self).phase == Phase::Handshaking ==> final(self).phase == Phase::Closed && same_record(*final(self), *old(self)) && *final(reg) == *old(reg) && r@.len() == 1 && act_close(r@[0]),
            // connect carries the client's application triple and is
            // answered by the connect reply, Stream-Begin 0, onBWDone
            spec_connect_obj(payload@) matches Some(o) ==> (dec_cmd(payload@) matches Some(c)
                ==> (old(self).phase == Phase::AwaitingConnect ==> final(self).phase
                == Phase::Connected && final(self).app@ == str_prop(o, ascii_of("app")) && final(self).flash_ver@ == str_prop(
                o,
                ascii_of("flashVer"),
            ) && final(self).tc_url@ == str_prop(o, ascii_of("tcUrl")) && final(self).stream_key
                == old(self).stream_key && final(self).flv_started == old(self).flv_started
                && final(self).out_chunk_size == old(self).out_chunk_size && *final(reg) == *old(reg)
                && r@.len() == 3 && act_send(
                r@[0],
                spec_command_chunk(spec_connect_response(c.1)),
            ) && act_send(r@[1], spec_stream_begin_chunk(0)) && act_send(
                r@[2],
                spec_command_chunk(spec_onbwdone_message()),
            ))),
            // anything else while awaiting connect closes the session
            old(self).phase == Phase::AwaitingConnect && spec_connect_obj(payload@) is None
                ==> final(self).phase == Phase::Closed && same_record(*final(self), *old(self))
                && *final(reg) == *old(reg) && r@.len() == 1 && act_close(r@[0]),
            // a well-formed command in Connected
            dec_cmd(payload@) matches Some(c) ==> (old(self).phase == Phase::Connected ==> *final(reg) == *old(reg) && same_record(*final(self), *old(self)) && (if c.0 == ascii_of("createStream") {
                &&& final(self).phase == Phase::StreamCreated
                &&& r@.len() == 1
                &&& act_send(
                    r@[0],
                    spec_command_chunk(
                        spec_result_number_response(c.1, 0x3FF0000000000000u64),
                    ),
                )
            } else if c.0 == ascii_of("_checkbw") {
                &&& final(self).phase == Phase::Connected
                &&& r@.len() == 2
                &&& act_send(
                    r@[0],
                    spec_command_chunk(
                        spec_result_number_response(c.1, 0x412E848000000000u64),
                    ),
                )
                &&& act_send(r@[1], spec_command_chunk(spec_onbwcheck_message()))
            } else if c.0 == ascii_of("publish") {
                &&& final(self).phase == Phase::Connected
                &&& r@.len() == 1
                &&& act_send(
                    r@[0],
                    spec_command_chunk(
                        spec_onstatus_response(
                            ascii_of("NetStream.Publish.Failed"),
                            ascii_of("Publish requires createStream"),
                        ),
                    ),
                )
            } else {
                &&& final(self).phase == Phase::Connected
                &&& r@.len() == 1
                &&& act_send(r@[0], spec_command_chunk(spec_generic_response(c.1)))
            })),
            // a malformed command in Connected closes the session
            old(self).phase == Phase::Connected && dec_cmd(payload@) is None ==> final(self).phase
                == Phase::Closed && same_record(*final(self), *old(self)) && *final(reg) == *old(reg)
                && r@.len() == 1 && act_close(r@[0]),
            // publish after createStream: the key is validated and
            // claimed, or the session ends with the proper onStatus
            spec_publish_parts(payload@) matches Some(pp) ==> (old(self).phase
                == Phase::StreamCreated ==> (if !valid_stream_key(pp.0) || old(reg).has_key(pp.0) {
                &&& final(self).phase == Phase::Closed
                &&& same_record(*final(self), *old(self))
                &&& *final(reg) == *old(reg)
                &&& r@.len() == 2
                &&& act_send(
                    r@[0],
                    spec_command_chunk(
                        spec_onstatus_response(
                            ascii_of("NetStream.Publish.BadName"),
                            ascii_of("Stream key rejected"),
                        ),
                    ),
                )
                &&& act_close(r@[1])
            } else if old(reg).keys@.len() >= old(reg).max_streams {
                &&& final(self).phase == Phase::Closed
                &&& same_record(*final(self), *old(self))
                &&& *final(reg) == *old(reg)
                &&& r@.len() == 2
                &&& act_send(
                    r@[0],
                    spec_command_chunk(
                        spec_onstatus_response(
                            ascii_of("NetConnection.Connect.Rejected"),
                            ascii_of("Too many active publishers"),
                        ),
                    ),
                )
                &&& act_close(r@[1])
            } else {
                &&& final(self).phase == Phase::Publishing
                &&& final(self).stream_key@ == pp.0
                &&& final(self).app == old(self).app
                &&& final(self).tc_url == old(self).tc_url
                &&& final(self).flash_ver == old(self).flash_ver
                &&& final(self).flv_started == old(self).flv_started
                &&& final(self).out_chunk_size == old(self).out_chunk_size
                &&& final(reg).has_key(pp.0)
                &&& (forall|k2: Seq<u8>|
                    k2 != pp.0 ==> #[trigger] final(reg).has_key(k2) == old(reg).has_key(k2))
                &&& r@.len() == 2
                &&& act_send(r@[0], spec_command_chunk(spec_publish_response(pp.0)))
                &&& act_start(r@[1], pp.0)
            })),
            // other commands after createStream: _checkbw is answered,
            // a broken publish closes, anything else gets the minimal
            // reply
            dec_cmd(payload@) matches Some(c) ==> (old(self).phase == Phase::StreamCreated
                && spec_publish_parts(payload@) is None ==> *final(reg) == *old(reg)
                && same_record(*final(self), *old(self)) && (if c.0
                == ascii_of("publish") {
                &&& final(self).phase == Phase::Closed
                &&& r@.len() == 1
                &&& act_close(r@[0])
            } else if c.0 == ascii_of("_checkbw") {
                &&& final(self).phase == Phase::StreamCreated
                &&& r@.len() == 2
                &&& act_send(
                    r@[0],
                    spec_command_chunk(
                        spec_result_number_response(c.1, 0x412E848000000000u64),
                    ),
                )
                &&& act_send(r@[1], spec_command_chunk(spec_onbwcheck_message()))
            } else {
                &&& final(self).phase == Phase::StreamCreated
                &&& r@.len() == 1
                &&& act_send(r@[0], spec_command_chunk(spec_generic_response(c.1)))
            })),
            old(self).phase == Phase::StreamCreated && dec_cmd(payload@) is None ==> final(self).phase == Phase::Closed && same_record(*final(self), *old(self)) && *final(reg)
                == *old(reg) && r@.len() == 1 && act_close(r@[0]),
            // while publishing, deleteStream and FCUnpublish end the
            // stream and free the key; other commands get the minimal
            // reply; a malformed one closes and frees the key
            dec_cmd(payload@) matches Some(c) ==> (old(self).phase == Phase::Publishing
                ==> same_record(*final(self), *old(self)) && (if c.0
                == ascii_of("deleteStream") || c.0 == ascii_of("FCUnpublish") {
                &&& final(self).phase == Phase::Closed
                &&& !final(reg).has_key(old(self).stream_key@)
                &&& (forall|k2: Seq<u8>|
                    k2 != old(self).stream_key@ ==> #[trigger] final(reg).has_key(k2) == old(reg).has_key(k2))
                &&& r@.len() == 1
                &&& act_close(r@[0])
            } else {
                &&& final(self).phase == Phase::Publishing
                &&& *final(reg) == *old(reg)
                &&& r@.len() == 1
                &&& act_send(r@[0], spec_command_chunk(spec_generic_response(c.1)))
            })),
            old(self).phase == Phase::Publishing && dec_cmd(payload@) is None ==> final(self).phase
                == Phase::Closed && same_record(*final(self), *old(self)) && !final(reg).has_key(
                old(self).stream_key@,
            ) && r@.len() == 1 && act_close(r@[0]),
            // the state machine never emits acknowledgements
            no_acks(r@),
    {
        let mut r: Vec<Action> = Vec::new();
        match self.phase {
            Phase::Closed => r,
            Phase::Handshaking => {
                self.phase = Phase::Closed;
                r.push(Action::Close);
                r
            },
            Phase::AwaitingConnect => {
                match parse_cmd(payload) {
                    Some(nt) => {
                        match parse_rtmp_connect(payload) {
                            Some(c) => {
                                self.app = c.app;
                                self.flash_ver = c.flash_ver;
                                self.tc_url = c.tc_url;
                                self.phase = Phase::Connected;
                                let resp = create_connect_response(nt.1);
                                r.push(
                                    Action::Send(
                                        crate::chunk::create_command_chunk(resp.as_slice()),
                                    ),
                                );
                                r.push(Action::Send(Session::stream_begin_message(0)));
                                let bw = create_onbwdone_message();
                                r.push(
                                    Action::Send(crate::chunk::create_command_chunk(bw.as_slice())),
                                );
                                r
                            },
                            None => {
                                self.phase = Phase::Closed;
                                r.push(Action::Close);
                                r
                            },
                        }
                    },
                    None => {
                        self.phase = Phase::Closed;
                        r.push(Action::Close);
                        r
                    },
                }
            },
            Phase::Connected => {
                match parse_cmd(payload) {
                    Some(nt) => {
                        proof {
                            reveal_strlit("createStream");
                            reveal_strlit("_checkbw");
                            reveal_strlit("publish");
                            assert(vstd::string::is_ascii("createStream"));
                            assert(vstd::string::is_ascii("_checkbw"));
                            assert(vstd::string::is_ascii("publish"));
                        }
                        let n_create = vec_of_str("createStream");
                        let n_checkbw = vec_of_str("_checkbw");
                        let n_publish = vec_of_str("publish");
                        if bytes_eq(nt.0.as_slice(), n_create.as_slice()) {
                            self.phase = Phase::StreamCreated;
                            let resp = create_createstream_response(nt.1);
                            r.push(
                                Action::Send(crate::chunk::create_command_chunk(resp.as_slice())),
                            );
                            r
                        } else if bytes_eq(nt.0.as_slice(), n_checkbw.as_slice()) {
                            let resp = create_checkbw_response(nt.1);
                            r.push(
                                Action::Send(crate::chunk::create_command_chunk(resp.as_slice())),
                            );
                            let chk = create_onbwcheck_message();
                            r.push(
                                Action::Send(crate::chunk::create_command_chunk(chk.as_slice())),
                            );
                            r
                        } else if bytes_eq(nt.0.as_slice(), n_publish.as_slice()) {
                            proof {
                                reveal_strlit("NetStream.Publish.Failed");
                                reveal_strlit("Publish requires createStream");
                                assert(vstd::string::is_ascii("NetStream.Publish.Failed"));
                                assert(vstd::string::is_ascii("Publish requires createStream"));
                            }
                            let code = vec_of_str("NetStream.Publish.Failed");
                            let desc = vec_of_str("Publish requires createStream");
                            let resp = create_onstatus_response(code.as_slice(), desc.as_slice());
                            r.push(
                                Action::Send(crate::chunk::create_command_chunk(resp.as_slice())),
                            );
                            r
                        } else {
                            let resp = create_generic_response(nt.1);
                            r.push(
                                Action::Send(crate::chunk::create_command_chunk(resp.as_slice())),
                            );
                            r
                        }
                    },
                    None => {
                        self.phase = Phase::Closed;
                        r.push(Action::Close);
                        r
                    },
                }
            },
            Phase::StreamCreated => {
                match parse_rtmp_publish(payload) {
                    Some(p) => {
                        if !validate_stream_key(p.stream_key.as_slice()) {
                            proof {
                                reveal_strlit("NetStream.Publish.BadName");
                                reveal_strlit("Stream key rejected");
                                assert(vstd::string::is_ascii("NetStream.Publish.BadName"));
                                assert(vstd::string::is_ascii("Stream key rejected"));
                            }
                            let code = vec_of_str("NetStream.Publish.BadName");
                            let desc = vec_of_str("Stream key rejected");
                            let resp = create_onstatus_response(code.as_slice(), desc.as_slice());
                            self.phase = Phase::Closed;
                            r.push(
                                Action::Send(crate::chunk::create_command_chunk(resp.as_slice())),
                            );
                            r.push(Action::Close);
                            r
                        } else {
                            match reg.try_acquire(p.stream_key.as_slice()) {
                                AcquireOutcome::Busy => {
                                    proof {
                                        reveal_strlit("NetStream.Publish.BadName");
                                        reveal_strlit("Stream key rejected");
                                        assert(vstd::string::is_ascii("NetStream.Publish.BadName"));
                                        assert(vstd::string::is_ascii("Stream key rejected"));
                                    }
                                    let code = vec_of_str("NetStream.Publish.BadName");
                                    let desc = vec_of_str("Stream key rejected");
                                    let resp = create_onstatus_response(
                                        code.as_slice(),
                                        desc.as_slice(),
                                    );
                                    self.phase = Phase::Closed;
                                    r.push(
                                        Action::Send(
                                            crate::chunk::create_command_chunk(resp.as_slice()),
                                        ),
                                    );
                                    r.push(Action::Close);
                                    r
                                },
                                AcquireOutcome::AtCapacity => {
                                    proof {
                                        reveal_strlit("NetConnection.Connect.Rejected");
                                        reveal_strlit("Too many active publishers");
                                        assert(vstd::string::is_ascii(
                                            "NetConnection.Connect.Rejected",
                                        ));
                                        assert(vstd::string::is_ascii(
                                            "Too many active publishers",
                                        ));
                                    }
                                    let code = vec_of_str("NetConnection.Connect.Rejected");
                                    let desc = vec_of_str("Too many active publishers");
                                    let resp = create_onstatus_response(
                                        code.as_slice(),
                                        desc.as_slice(),
                                    );
                                    self.phase = Phase::Closed;
                                    r.push(
                                        Action::Send(
                                            crate::chunk::create_command_chunk(resp.as_slice()),
                                        ),
                                    );
                                    r.push(Action::Close);
                                    r
                                },
                                AcquireOutcome::Acquired => {
                                    let resp = create_publish_response(p.stream_key.as_slice());
                                    self.phase = Phase::Publishing;
                                    self.stream_key = p.stream_key;
                                    r.push(
                                        Action::Send(
                                            crate::chunk::create_command_chunk(resp.as_slice()),
                                        ),
                                    );
                                    let mut kcopy: Vec<u8> = Vec::new();
                                    kcopy.extend_from_slice(self.stream_key.as_slice());
                                    proof {
                                        assert(kcopy@ =~= final(self).stream_key@);
                                    }
                                    r.push(Action::StartSegmenter(kcopy));
                                    r
                                },
                            }
                        }
                    },
                    None => {
                        match parse_cmd(payload) {
                            Some(nt) => {
                                proof {
                                    reveal_strlit("publish");
                                    reveal_strlit("_checkbw");
                                    assert(vstd::string::is_ascii("publish"));
                                    assert(vstd::string::is_ascii("_checkbw"));
                                }
                                let n_publish = vec_of_str("publish");
                                let n_checkbw = vec_of_str("_checkbw");
                                if bytes_eq(nt.0.as_slice(), n_publish.as_slice()) {
                                    self.phase = Phase::Closed;
                                    r.push(Action::Close);
                                    r
                                } else if bytes_eq(nt.0.as_slice(), n_checkbw.as_slice()) {
                                    let resp = create_checkbw_response(nt.1);
                                    r.push(
                                        Action::Send(
                                            crate::chunk::create_command_chunk(resp.as_slice()),
                                        ),
                                    );
                                    let chk = create_onbwcheck_message();
                                    r.push(
                                        Action::Send(
                                            crate::chunk::create_command_chunk(chk.as_slice()),
                                        ),
                                    );
                                    r
                                } else {
                                    let resp = create_generic_response(nt.1);
                                    r.push(
                                        Action::Send(
                                            crate::chunk::create_command_chunk(resp.as_slice()),
                                        ),
                                    );
                                    r
                                }
                            },
                            None => {
                                self.phase = Phase::Closed;
                                r.push(Action::Close);
                                r
                            },
                        }
                    },
                }
            },
            Phase::Publishing => {
                match parse_cmd(payload) {
                    Some(nt) => {
                        proof {
                            reveal_strlit("deleteStream");
                            reveal_strlit("FCUnpublish");
                            assert(vstd::string::is_ascii("deleteStream"));
                            assert(vstd::string::is_ascii("FCUnpublish"));
                        }
                        let n_delete = vec_of_str("deleteStream");
                        let n_unpub = vec_of_str("FCUnpublish");
                        if bytes_eq(nt.0.as_slice(), n_delete.as_slice()) || bytes_eq(
                            nt.0.as_slice(),
                            n_unpub.as_slice(),
                        ) {
                            reg.release(self.stream_key.as_slice());
                            self.phase = Phase::Closed;
                            r.push(Action::Close);
                            r
                        } else {
                            let resp = create_generic_response(nt.1);
                            r.push(
                                Action::Send(crate::chunk::create_command_chunk(resp.as_slice())),
                            );
                            r
                        }
                    },
                    None => {
                        reg.release(self.stream_key.as_slice());
                        self.phase = Phase::Closed;
                        r.push(Action::Close);
                        r
                    },
                }
            },
        }
    }

    /// Forwards one media message while publishing: audio, video and
    /// metadata are wrapped in an FLV tag, preceded the first time by
    /// the FLV file header. In any other phase media is dropped.
    pub fn handle_media(&mut self, msg: &crate::demux::Message) -> (r: Vec<Action>)
        requires
            msg.payload@.len() < 0x1000000,
        ensures
            no_acks(r@),
            final(self).phase == old(self).phase,
            old(self).phase != Phase::Publishing || (msg.message_type_id != 8
                && msg.message_type_id != 9 && msg.message_type_id != 18) ==> *final(self) == *old(self) && r@.len() == 0,
            old(self).phase == Phase::Publishing && (msg.message_type_id == 8
                || msg.message_type_id == 9 || msg.message_type_id == 18) ==> final(self).flv_started == true && (if old(self).flv_started {
                r@.len() == 1 && act_write(
                    r@[0],
                    spec_flv_tag(msg.message_type_id, msg.timestamp, msg.payload@),
                )
            } else {
                r@.len() == 2 && act_write(r@[0], spec_flv_header()) && act_write(
                    r@[1],
                    spec_flv_tag(msg.message_type_id, msg.timestamp, msg.payload@),
                )
            }),
    {
        let mut r: Vec<Action> = Vec::new();
        match self.phase {
            Phase::Publishing => {
                if msg.message_type_id == 8 || msg.message_type_id == 9 || msg.message_type_id
                    == 18 {
                    if !self.flv_started {
                        self.flv_started = true;
                        r.push(Action::WriteMedia(flv_file_header()));
                    }
                    r.push(
                        Action::WriteMedia(
                            flv_tag(msg.message_type_id, msg.timestamp, msg.payload.as_slice()),
                        ),
                    );
                    r
                } else {
                    r
                }
            },
            _ => r,
        }
    }
}

/// Applies one protocol-control message to the framing state: Set
/// Chunk Size reconfigures the demuxer, Abort discards an in-progress
/// message, Window Acknowledgement Size retargets the ack cadence.
/// Acknowledgement and Set Peer Bandwidth are noted and ignored. A
/// control payload shorter than its 4-byte field is malformed. On
/// success the result counts the acknowledgements a window change made
/// fall due, always by exactly the counter's increment.
pub fn apply_control(demux: &mut Demuxer, ack: &mut AckCounter, msg: &Message) -> (r: Result<
    u64,
    StreamError,
>)
    requires
        old(demux).wf(),
        old(ack).wf(),
    ensures
        final(demux).wf(),
        final(ack).wf(),
        msg.message_type_id == 1 || msg.message_type_id == 2 || msg.message_type_id == 5
            ==> msg.payload@.len() < 4 ==> (r matches Err(e) && e
            == StreamError::MalformedChunkHeader && *final(demux) == *old(demux) && *final(ack)
            == *old(ack)),
        msg.message_type_id == 1 && msg.payload@.len() >= 4 ==> ({
            let v = be32(msg.payload@[0], msg.payload@[1], msg.payload@[2], msg.payload@[3]);
            &&& *final(ack) == *old(ack)
            &&& final(demux).streams@ == old(demux).streams@
            &&& (v == 0 || v > 0x7FFFFFFF ==> (r matches Err(e) && e
                == StreamError::ChunkSizeOutOfRange && final(demux).chunk_size == old(
                demux,
            ).chunk_size))
            &&& (1 <= v <= 0x7FFFFFFF ==> (r matches Ok(d) && d == 0 && final(demux).chunk_size
                == vstd::math::min(v as int, 0xFFFFFF)))
        }),
        msg.message_type_id == 2 && msg.payload@.len() >= 4 ==> ({
            let v = be32(msg.payload@[0], msg.payload@[1], msg.payload@[2], msg.payload@[3]);
            &&& r matches Ok(d) && d == 0
            &&& *final(ack) == *old(ack)
            &&& final(demux).chunk_size == old(demux).chunk_size
            &&& (match old(demux).stream_view(v) {
                Some(c) => final(demux).stream_view(v) matches Some(c2) && c2.buf.len() == 0
                    && c2.len == c.len,
                None => final(demux).stream_view(v) is None,
            })
            &&& (forall|id2: u32|
                id2 != v ==> #[trigger] final(demux).stream_view(id2) == old(demux).stream_view(
                    id2,
                ))
        }),
        msg.message_type_id == 5 && msg.payload@.len() >= 4 ==> ({
            let v = be32(msg.payload@[0], msg.payload@[1], msg.payload@[2], msg.payload@[3]);
            &&& *final(demux) == *old(demux)
            &&& (v >= 1 ==> (r matches Ok(d) && final(ack).window == v && final(ack).received
                == old(ack).received && final(ack).acks_sent == old(ack).acks_sent + d))
            &&& (v == 0 ==> (r matches Ok(d) && d == 0 && *final(ack) == *old(ack)))
        }),
        msg.message_type_id == 3 || msg.message_type_id == 6 || msg.message_type_id == 4 ==> (r
            matches Ok(d) && d == 0 && *final(demux) == *old(demux) && *final(ack) == *old(ack)),
{
    if msg.message_type_id == 1 {
        if msg.payload.len() < 4 {
            return Err(StreamError::MalformedChunkHeader);
        }
        let v = read_u32_be(msg.payload.as_slice(), 0);
        match demux.set_chunk_size(v) {
            Ok(()) => Ok(0),
            Err(e) => Err(e),
        }
    } else if msg.message_type_id == 2 {
        if msg.payload.len() < 4 {
            return Err(StreamError::MalformedChunkHeader);
        }
        let v = read_u32_be(msg.payload.as_slice(), 0);
        demux.abort(v);
        Ok(0)
    } else if msg.message_type_id == 5 {
        if msg.payload.len() < 4 {
            return Err(StreamError::MalformedChunkHeader);
        }
        let v = read_u32_be(msg.payload.as_slice(), 0);
        if v >= 1 {
            Ok(ack.set_window(v))
        } else {
            Ok(0)
        }
    } else {
        Ok(0)
    }
}

/// One connection's whole protocol state: the state machine, the
/// inbound chunk demuxer, and the acknowledgement cadence.
pub struct Connection {
    pub session: Session,
    pub demux: Demuxer,
    pub ack: AckCounter,
}

impl Connection {
    pub open spec fn wf(self) -> bool {
        self.demux.wf() && self.ack.wf()
    }

    /// A fresh connection: handshaking, inbound chunk size 128, and a
    /// 5000000-byte acknowledgement window until the peer sets one.
    pub fn new() -> (r: Connection)
        ensures
            r.wf(),
            r.session.phase == Phase::Handshaking,
            r.demux.chunk_size == 128,
            r.ack.received == 0,
    {
        Connection { session: Session::new(), demux: Demuxer::new(), ack: AckCounter::new(5000000) }
    }

    /// Drains every complete chunk from the front of `data`: framing
    /// control reconfigures the demuxer and the ack cadence, commands
    /// advance the state machine, media flows to the segmenter, and
    /// every acknowledgement that falls due is queued. On success the
    /// unconsumed rest no longer holds a whole chunk, the byte counter
    /// absorbed exactly the consumed count, and the actions hold one
    /// well-formed Acknowledgement send per acknowledgement the
    /// counter recorded as sent.
    pub fn process_bytes(&mut self, data: &[u8], reg: &mut KeyRegistry) -> (r: Result<
        (usize, Vec<Action>),
        StreamError,
    >)
        requires
            old(self).wf(),
            data@.len() <= 0xFFFFFFFF,
            old(self).ack.received + data@.len() <= u64::MAX,
        ensures
            final(self).wf(),
            old(self).session.phase == Phase::Closed ==> final(self).session.phase
                == Phase::Closed,
            r matches Ok(p) ==> {
                &&& p.0 <= data@.len()
                &&& crate::demux::spec_needs_more(final(self).demux, data@.skip(p.0 as int))
                &&& final(self).ack.received == old(self).ack.received + p.0
                &&& count_acks(p.1@) == final(self).ack.acks_sent - old(self).ack.acks_sent
                &&& acks_well_formed(p.1@)
            },
    {
        let mut consumed: usize = 0;
        let mut acts: Vec<Action> = Vec::new();
        let n = data.len();
        proof {
            assert(count_acks(acts@) == 0);
        }
        loop
            invariant
                self.wf(),
                consumed <= n,
                n == data@.len(),
                n <= 0xFFFFFFFF,
                self.ack.received == old(self).ack.received + consumed,
                old(self).ack.received + data@.len() <= u64::MAX,
                count_acks(acts@) == self.ack.acks_sent - old(self).ack.acks_sent,
                acks_well_formed(acts@),
                old(self).session.phase == Phase::Closed ==> self.session.phase == Phase::Closed,
            decreases n - consumed,
        {
            let step = match self.demux.demux_chunk(&data[consumed..n]) {
                Ok(s) => s,
                Err(e) => {
                    return Err(e);
                },
            };
            match step {
                DemuxStep::NeedMoreData => {
                    proof {
                        assert(data@.subrange(consumed as int, n as int) =~= data@.skip(
                            consumed as int,
                        ));
                    }
                    return Ok((consumed, acts));
                },
                DemuxStep::Consumed(sz, maybe_msg) => {
                    consumed = consumed + sz;
                    let due = self.ack.on_bytes(sz as u32);
                    let total = self.ack.received;
                    push_acks(&mut acts, total, due);
                    match maybe_msg {
                        Some(msg) => {
                            let ty = msg.message_type_id;
                            if ty == 1 || ty == 2 || ty == 3 || ty == 4 || ty == 5 || ty == 6 {
                                match apply_control(&mut self.demux, &mut self.ack, &msg) {
                                    Ok(d) => {
                                        let total2 = self.ack.received;
                                        push_acks(&mut acts, total2, d);
                                    },
                                    Err(e) => {
                                        return Err(e);
                                    },
                                }
                            } else if ty == 20 || ty == 17 {
                                let ghost pre_acts = acts@;
                                let mut cmds = self.session.handle_command(
                                    msg.payload.as_slice(),
                                    reg,
                                );
                                let ghost cmds_snap = cmds@;
                                acts.append(&mut cmds);
                                proof {
                                    lemma_count_acks_append(pre_acts, cmds_snap);
                                    lemma_no_acks_count_zero(cmds_snap);
                                    assert forall|i: int|
                                        0 <= i < acts@.len() implies ack_shaped(
                                        #[trigger] acts@[i],
                                    ) by {
                                        if i >= pre_acts.len() {
                                            assert(!(cmds_snap[i - pre_acts.len()] is SendAck));
                                        }
                                    }
                                }
                            } else if ty == 8 || ty == 9 || ty == 18 {
                                let ghost pre_acts = acts@;
                                let mut media = self.session.handle_media(&msg);
                                let ghost media_snap = media@;
                                acts.append(&mut media);
                                proof {
                                    lemma_count_acks_append(pre_acts, media_snap);
                                    lemma_no_acks_count_zero(media_snap);
                                    assert forall|i: int|
                                        0 <= i < acts@.len() implies ack_shaped(
                                        #[trigger] acts@[i],
                                    ) by {
                                        if i >= pre_acts.len() {
                                            assert(!(media_snap[i - pre_acts.len()] is SendAck));
                                        }
                                    }
                                }
                            }
                        },
                        None => {},
                    }
                },
            }
        }
    }
}

/// Queues `due` Acknowledgement sends, each carrying the running
/// received-byte count.
fn push_acks(acts: &mut Vec<Action>, total: u64, due: u64)
    ensures
        count_acks(final(acts)@) == count_acks(old(acts)@) + due,
        acks_well_formed(old(acts)@) ==> acks_well_formed(final(acts)@),
{
    let mut k: u64 = 0;
    while k < due
        invariant
            k <= due,
            count_acks(acts@) == count_acks(old(acts)@) + k,
            acks_well_formed(old(acts)@) ==> acks_well_formed(acts@),
        decreases due - k,
    {
        let mut total_bytes: Vec<u8> = Vec::new();
        crate::wire::push_u32_be(&mut total_bytes, total as u32);
        let chunk = crate::chunk::create_control_message(3, total_bytes.as_slice());
        proof {
            assert(chunk@ =~= spec_ack_chunk(total as u32));
        }
        let ghost pre = acts@;
        acts.push(Action::SendAck(chunk));
        proof {
            lemma_count_acks_push(pre, acts@[pre.len() as int]);
            assert(acts@ =~= pre.push(acts@[pre.len() as int]));
            assert(acts@[pre.len() as int] is SendAck);
            if acks_well_formed(old(acts)@) {
                assert forall|i: int| 0 <= i < acts@.len() implies ack_shaped(
                    #[trigger] acts@[i],
                ) by {
                    if i == pre.len() {
                        assert(acts@[i] matches Action::SendAck(v) && v@ == spec_ack_chunk(
                            total as u32,
                        ));
                    }
                }
            }
        }
        k = k + 1;
    }
}

} // verus!
