use vstd::prelude::*;

use crate::chunk::{
    lemma_parse_chunk0_header, lemma_parse_chunk3_header, lemma_parse_header_len,
    spec_chunk0_header, spec_chunk3_header, spec_chunks_of, spec_mux_message, spec_parse_header,
    RtmpHeader,
};
use crate::error::StreamError;

verus! {

/// Per-chunk-stream cache and reassembly state, as it stands between
/// chunks: the last-seen header fields and the bytes gathered so far
/// for the in-progress message.
pub struct CsState {
    pub timestamp: u32,
    pub timestamp_delta: u32,
    pub message_length: u32,
    pub message_type_id: u8,
    pub message_stream_id: u32,
    pub buffer: Vec<u8>,
}

/// The mathematical image of `CsState`.
pub struct CsSpec {
    pub ts: u32,
    pub delta: u32,
    pub len: u32,
    pub ty: u8,
    pub sid: u32,
    pub buf: Seq<u8>,
}

pub open spec fn cs_view(c: CsState) -> CsSpec {
    CsSpec {
        ts: c.timestamp,
        delta: c.timestamp_delta,
        len: c.message_length,
        ty: c.message_type_id,
        sid: c.message_stream_id,
        buf: c.buffer@,
    }
}

/// A whole message handed up to the session layer.
#[derive(Debug, PartialEq, Eq)]
pub struct Message {
    pub chunk_stream_id: u32,
    pub timestamp: u32,
    pub message_type_id: u8,
    pub message_stream_id: u32,
    pub payload: Vec<u8>,
}

/// The mathematical image of `Message`.
pub struct MsgSpec {
    pub cs: u32,
    pub ts: u32,
    pub ty: u8,
    pub sid: u32,
    pub payload: Seq<u8>,
}

pub open spec fn msg_view(m: Message) -> MsgSpec {
    MsgSpec {
        cs: m.chunk_stream_id,
        ts: m.timestamp,
        ty: m.message_type_id,
        sid: m.message_stream_id,
        payload: m.payload@,
    }
}

/// The reassembly state of the chunk stream `id`: the first entry with
/// that id, if one exists. An entry exists exactly when a format-0
/// header has been seen for the id.
pub open spec fn find_view(s: Seq<(u32, CsState)>, id: u32) -> Option<CsSpec>
    decreases s.len(),
{
    if s.len() == 0 {
        None
    } else if s[0].0 == id {
        Some(cs_view(s[0].1))
    } else {
        find_view(s.subrange(1, s.len() as int), id)
    }
}

proof fn lemma_find_view_skip(s: Seq<(u32, CsState)>, id: u32, i: int)
    requires
        0 <= i <= s.len(),
        forall|j: int| 0 <= j < i ==> (#[trigger] s[j]).0 != id,
    ensures
        find_view(s, id) == find_view(s.subrange(i, s.len() as int), id),
    decreases i,
{
    if i == 0 {
        assert(s.subrange(0, s.len() as int) =~= s);
    } else {
        let ps = s.subrange(1, s.len() as int);
        assert(s[0].0 != id);
        assert(forall|j: int| 0 <= j < i - 1 ==> (#[trigger] ps[j]).0 != id);
        lemma_find_view_skip(ps, id, i - 1);
        assert(ps.subrange(i - 1, ps.len() as int) =~= s.subrange(i, s.len() as int));
    }
}

proof fn lemma_find_view_update(s: Seq<(u32, CsState)>, i: int, id: u32, st: CsState)
    requires
        0 <= i < s.len(),
        s[i].0 == id,
        forall|j: int| 0 <= j < i ==> (#[trigger] s[j]).0 != id,
    ensures
        find_view(s.update(i, (id, st)), id) == Some(cs_view(st)),
        forall|id2: u32|
            id2 != id ==> #[trigger] find_view(s.update(i, (id, st)), id2) == find_view(s, id2),
    decreases i,
{
    let w = s.update(i, (id, st));
    if i == 0 {
        assert(w[0] == (id, st));
        assert(w.subrange(1, w.len() as int) =~= s.subrange(1, s.len() as int));
        assert(find_view(w, id) == Some(cs_view(st)));
        assert forall|id2: u32| id2 != id implies #[trigger] find_view(w, id2) == find_view(
            s,
            id2,
        ) by {
            assert(find_view(w, id2) == find_view(w.subrange(1, w.len() as int), id2));
            assert(find_view(s, id2) == find_view(s.subrange(1, s.len() as int), id2));
        }
    } else {
        let ps = s.subrange(1, s.len() as int);
        assert(forall|j: int| 0 <= j < i - 1 ==> (#[trigger] ps[j]).0 != id);
        assert(ps[i - 1] == s[i]);
        lemma_find_view_update(ps, i - 1, id, st);
        assert(w.subrange(1, w.len() as int) =~= ps.update(i - 1, (id, st)));
        assert(w[0] == s[0]);
        assert(s[0].0 != id);
        assert(find_view(w, id) == find_view(ps.update(i - 1, (id, st)), id));
        assert forall|id2: u32| id2 != id implies #[trigger] find_view(w, id2) == find_view(
            s,
            id2,
        ) by {
            if s[0].0 != id2 {
                assert(find_view(w, id2) == find_view(ps.update(i - 1, (id, st)), id2));
                assert(find_view(s, id2) == find_view(ps, id2));
            }
        }
    }
}

proof fn lemma_find_view_push(s: Seq<(u32, CsState)>, id: u32, st: CsState)
    requires
        find_view(s, id) is None,
    ensures
        find_view(s.push((id, st)), id) == Some(cs_view(st)),
        forall|id2: u32|
            id2 != id ==> #[trigger] find_view(s.push((id, st)), id2) == find_view(s, id2),
    decreases s.len(),
{
    let w = s.push((id, st));
    if s.len() == 0 {
        assert(w[0] == (id, st));
        assert(w.subrange(1, 1) =~= Seq::<(u32, CsState)>::empty());
        assert(find_view(w, id) == Some(cs_view(st)));
        assert forall|id2: u32| id2 != id implies #[trigger] find_view(w, id2) == find_view(
            s,
            id2,
        ) by {
            assert(find_view(w, id2) == find_view(w.subrange(1, 1), id2));
        }
    } else {
        assert(s[0].0 != id);
        let ps = s.subrange(1, s.len() as int);
        lemma_find_view_push(ps, id, st);
        assert(w.subrange(1, w.len() as int) =~= ps.push((id, st)));
        assert(w[0] == s[0]);
        assert(find_view(w, id) == find_view(ps.push((id, st)), id));
        assert forall|id2: u32| id2 != id implies #[trigger] find_view(w, id2) == find_view(
            s,
            id2,
        ) by {
            if s[0].0 != id2 {
                assert(find_view(w, id2) == find_view(ps.push((id, st)), id2));
                assert(find_view(s, id2) == find_view(ps, id2));
            }
        }
    }
}

/// Applies a chunk header to the cached state: format 0 replaces every
/// field and empties the buffer; formats 1 and 2 add their delta to
/// the timestamp (format 2 keeps length and type); format 3 reuses the
/// cache, adding the delta once when it opens a new message. `None`
/// means the header is illegal: a compressed format with no format-0
/// history on the id, or a format-1 header whose declared length is
/// already exceeded by the bytes gathered.
pub open spec fn merge_header(c: Option<CsSpec>, h: RtmpHeader) -> Option<CsSpec> {
    match c {
        None => {
            if h.format == 0 {
                Some(
                    CsSpec {
                        ts: h.timestamp,
                        delta: 0,
                        len: h.message_length,
                        ty: h.message_type_id,
                        sid: h.message_stream_id,
                        buf: Seq::empty(),
                    },
                )
            } else {
                None
            }
        },
        Some(s0) => {
            if h.format == 0 {
                Some(
                    CsSpec {
                        ts: h.timestamp,
                        delta: 0,
                        len: h.message_length,
                        ty: h.message_type_id,
                        sid: h.message_stream_id,
                        buf: Seq::empty(),
                    },
                )
            } else if h.format == 1 {
                if s0.buf.len() > h.message_length {
                    None
                } else {
                    Some(
                        CsSpec {
                            ts: s0.ts.wrapping_add(h.timestamp),
                            delta: h.timestamp,
                            len: h.message_length,
                            ty: h.message_type_id,
                            sid: s0.sid,
                            buf: s0.buf,
                        },
                    )
                }
            } else if h.format == 2 {
                Some(
                    CsSpec {
                        ts: s0.ts.wrapping_add(h.timestamp),
                        delta: h.timestamp,
                        len: s0.len,
                        ty: s0.ty,
                        sid: s0.sid,
                        buf: s0.buf,
                    },
                )
            } else {
                if s0.buf.len() == 0 {
                    Some(
                        CsSpec {
                            ts: s0.ts.wrapping_add(s0.delta),
                            delta: s0.delta,
                            len: s0.len,
                            ty: s0.ty,
                            sid: s0.sid,
                            buf: s0.buf,
                        },
                    )
                } else {
                    Some(s0)
                }
            }
        },
    }
}

/// How many payload bytes the next chunk of this stream carries: the
/// rest of the declared message, capped by the inbound chunk size.
pub open spec fn frag_need(c: CsSpec, chunk_size: u32) -> int {
    vstd::math::min(c.len - c.buf.len(), chunk_size as int)
}

/// Appends a fragment; the message completes exactly when the buffer
/// reaches the declared length, and completion empties the buffer.
pub open spec fn apply_frag(id: u32, c: CsSpec, frag: Seq<u8>) -> (CsSpec, Option<MsgSpec>) {
    let grown = c.buf + frag;
    if grown.len() == c.len {
        (
            CsSpec { ts: c.ts, delta: c.delta, len: c.len, ty: c.ty, sid: c.sid, buf: Seq::empty() },
            Some(MsgSpec { cs: id, ts: c.ts, ty: c.ty, sid: c.sid, payload: grown }),
        )
    } else {
        (
            CsSpec { ts: c.ts, delta: c.delta, len: c.len, ty: c.ty, sid: c.sid, buf: grown },
            None,
        )
    }
}

/// A well-formed per-stream state: the buffer never exceeds the
/// declared length, which fits its 3-byte field.
pub open spec fn wf_cs(c: CsSpec) -> bool {
    c.buf.len() <= c.len && c.len < 0x1000000
}

/// True when `data` does not yet hold one whole chunk for `d`: the
/// header is incomplete, or the payload fragment the merged header
/// calls for has not fully arrived.
pub open spec fn spec_needs_more(d: Demuxer, data: Seq<u8>) -> bool {
    match spec_parse_header(data) {
        None => true,
        Some(p) => match merge_header(d.stream_view(p.0.chunk_stream_id), p.0) {
            Some(c1) => data.len() < p.1 + frag_need(c1, d.chunk_size),
            None => false,
        },
    }
}

/// True when `data` opens with a compressed header on a chunk stream
/// that has no format-0 history.
pub open spec fn spec_malformed(d: Demuxer, data: Seq<u8>) -> bool {
    match spec_parse_header(data) {
        None => false,
        Some(p) => merge_header(d.stream_view(p.0.chunk_stream_id), p.0) is None,
    }
}

/// Describes one consumed chunk: `sz` covers the header and the
/// fragment, the addressed stream advances by `apply_frag` over the
/// merged header, the message is delivered exactly on completion, and
/// every other chunk stream keeps its state.
pub open spec fn spec_consumed(
    d0: Demuxer,
    d1: Demuxer,
    data: Seq<u8>,
    sz: usize,
    m: Option<Message>,
) -> bool {
    match spec_parse_header(data) {
        None => false,
        Some(p) => {
            let h = p.0;
            let hs = p.1;
            match merge_header(d0.stream_view(h.chunk_stream_id), h) {
                None => false,
                Some(c1) => {
                    let stepped = apply_frag(h.chunk_stream_id, c1, data.subrange(hs, sz as int));
                    &&& sz == hs + frag_need(c1, d0.chunk_size)
                    &&& sz <= data.len()
                    &&& d1.stream_view(h.chunk_stream_id) == Some(stepped.0)
                    &&& (match m {
                        Some(msg) => stepped.1 == Some(msg_view(msg)),
                        None => stepped.1 is None,
                    })
                    &&& (forall|id2: u32|
                        id2 != h.chunk_stream_id ==> #[trigger] d1.stream_view(id2)
                            == d0.stream_view(id2))
                },
            }
        },
    }
}

/// What one call to `demux_chunk` produced: the buffer still lacks
/// bytes, or one chunk was consumed, possibly completing a message.
#[derive(Debug, PartialEq, Eq)]
pub enum DemuxStep {
    NeedMoreData,
    Consumed(usize, Option<Message>),
}

/// The inbound half of the chunk layer: per-chunk-stream caches and
/// reassembly buffers, and the negotiated inbound chunk size.
pub struct Demuxer {
    pub streams: Vec<(u32, CsState)>,
    pub chunk_size: u32,
}

impl Demuxer {
    pub open spec fn wf(self) -> bool {
        &&& 1 <= self.chunk_size <= 0xFFFFFF
        &&& forall|i: int|
            0 <= i < self.streams@.len() ==> wf_cs(cs_view((#[trigger] self.streams@[i]).1))
    }

    /// The state of one chunk stream.
    pub open spec fn stream_view(self, id: u32) -> Option<CsSpec> {
        find_view(self.streams@, id)
    }

    /// A fresh demuxer: no chunk streams yet, inbound chunk size at
    /// the protocol default of 128 bytes.
    pub fn new() -> (r: Demuxer)
        ensures
            r.wf(),
            r.chunk_size == 128,
            forall|id: u32| #[trigger] r.stream_view(id) is None,
    {
        Demuxer { streams: Vec::new(), chunk_size: 128 }
    }

    /// Applies a Set Chunk Size control value: zero and values with
    /// the top bit set are rejected, anything else is capped at the
    /// protocol bound of 0xFFFFFF.
    pub fn set_chunk_size(&mut self, v: u32) -> (r: Result<(), StreamError>)
        requires
            old(self).wf(),
        ensures
            final(self).wf(),
            final(self).streams@ == old(self).streams@,
            v == 0 || v > 0x7FFFFFFF ==> (r matches Err(e) && e == StreamError::ChunkSizeOutOfRange
                && final(self).chunk_size == old(self).chunk_size),
            1 <= v <= 0x7FFFFFFF ==> r is Ok && final(self).chunk_size == vstd::math::min(
                v as int,
                0xFFFFFF,
            ),
    {
        if v == 0 || v > 0x7FFFFFFF {
            return Err(StreamError::ChunkSizeOutOfRange);
        }
        if v > 0xFFFFFF {
            self.chunk_size = 0xFFFFFF;
        } else {
            self.chunk_size = v;
        }
        Ok(())
    }

    /// Applies an Abort control message: the in-progress message on
    /// the id, if any, is discarded.
    pub fn abort(&mut self, id: u32)
        requires
            old(self).wf(),
        ensures
            final(self).wf(),
            final(self).chunk_size == old(self).chunk_size,
            match old(self).stream_view(id) {
                Some(c) => final(self).stream_view(id) == Some(
                    CsSpec {
                        ts: c.ts,
                        delta: c.delta,
                        len: c.len,
                        ty: c.ty,
                        sid: c.sid,
                        buf: Seq::<u8>::empty(),
                    },
                ),
                None => final(self).stream_view(id) is None,
            },
            forall|id2: u32|
                id2 != id ==> #[trigger] final(self).stream_view(id2) == old(self).stream_view(id2),
    {
        let n = self.streams.len();
        let mut i: usize = 0;
        while i < n
            invariant
                i <= n,
                n == self.streams@.len(),
                *self == *old(self),
                old(self).wf(),
                forall|j: int| 0 <= j < i ==> (#[trigger] self.streams@[j]).0 != id,
            decreases n - i,
        {
            if self.streams[i].0 == id {
                proof {
                    lemma_find_view_skip(self.streams@, id, i as int);
                    assert(self.streams@.subrange(i as int, n as int)[0] == self.streams@[i as int]);
                }
                let e = &mut self.streams[i];
                e.1.buffer.clear();
                proof {
                    lemma_find_view_update(
                        old(self).streams@,
                        i as int,
                        id,
                        self.streams@[i as int].1,
                    );
                    assert(self.streams@ =~= old(self).streams@.update(
                        i as int,
                        (id, self.streams@[i as int].1),
                    ));
                    assert forall|j: int|
                        0 <= j < self.streams@.len() implies wf_cs(
                        cs_view((#[trigger] self.streams@[j]).1),
                    ) by {
                        if j != i as int {
                            assert(self.streams@[j] == old(self).streams@[j]);
                        } else {
                            assert(wf_cs(cs_view(old(self).streams@[j].1)));
                            assert(self.streams@[j].1.message_length == old(
                                self,
                            ).streams@[j].1.message_length);
                            assert(self.streams@[j].1.buffer@.len() == 0);
                        }
                    }
                    assert(self.chunk_size == old(self).chunk_size);
                    assert(1 <= self.chunk_size <= 0xFFFFFF);
                    assert(self.wf());
                }
                return ;
            }
            i += 1;
        }
        proof {
            lemma_find_view_skip(self.streams@, id, n as int);
            assert(self.streams@.subrange(n as int, n as int).len() == 0);
        }
    }

    /// Consumes at most one chunk from the front of `data`.
    ///
    /// `NeedMoreData` is returned exactly when the buffer does not yet
    /// hold the whole header or the whole payload fragment, and leaves
    /// the state unchanged. A compressed header on an id with no
    /// format-0 history is an error. Otherwise the header merges into
    /// the id's cache, the fragment is appended to its buffer, and the
    /// message is delivered exactly when the buffer reaches the
    /// declared length. Chunk streams other than the one addressed
    /// keep their state: interleaving cannot reorder any single
    /// stream's bytes.
    pub fn demux_chunk(&mut self, data: &[u8]) -> (r: Result<DemuxStep, StreamError>)
        requires
            old(self).wf(),
        ensures
            final(self).wf(),
            final(self).chunk_size == old(self).chunk_size,
            match r {
                Ok(DemuxStep::NeedMoreData) => *final(self) == *old(self) && spec_needs_more(
                    *old(self),
                    data@,
                ),
                Ok(DemuxStep::Consumed(sz, m)) => spec_consumed(
                    *old(self),
                    *final(self),
                    data@,
                    sz,
                    m,
                ),
                Err(e) => *final(self) == *old(self) && e == StreamError::MalformedChunkHeader
                    && spec_malformed(*old(self), data@),
            },
            match r {
                Ok(DemuxStep::Consumed(_, Some(msg))) => msg.payload@.len() < 0x1000000,
                _ => true,
            },
            match r {
                Ok(DemuxStep::Consumed(sz, _)) => sz >= 1,
                _ => true,
            },
    {
        let parsed = RtmpHeader::parse(data);
        let (h, hs) = match parsed {
            Some(p) => p,
            None => {
                return Ok(DemuxStep::NeedMoreData);
            },
        };
        let id = h.chunk_stream_id;
        let n = self.streams.len();
        let mut idx: usize = 0;
        let mut found = false;
        while idx < n && !found
            invariant
                idx <= n,
                n == self.streams@.len(),
                *self == *old(self),
                found ==> idx < n && self.streams@[idx as int].0 == id,
                forall|j: int| 0 <= j < idx ==> (#[trigger] self.streams@[j]).0 != id,
            decreases n - idx + (if found { 0int } else { 1int }),
        {
            if self.streams[idx].0 == id {
                found = true;
            } else {
                idx += 1;
            }
        }
        proof {
            if found {
                lemma_find_view_skip(self.streams@, id, idx as int);
                assert(self.streams@.subrange(idx as int, n as int)[0]
                    == self.streams@[idx as int]);
                assert(self.stream_view(id) == Some(cs_view(self.streams@[idx as int].1)));
            } else {
                lemma_find_view_skip(self.streams@, id, n as int);
                assert(self.streams@.subrange(n as int, n as int).len() == 0);
                assert(self.stream_view(id) is None);
            }
        }
        if !found {
            if h.format != 0 {
                return Err(StreamError::MalformedChunkHeader);
            }
            let ghost c1 = merge_header(old(self).stream_view(id), h).unwrap();
            let need: usize = if (h.message_length as usize) < (self.chunk_size as usize) {
                h.message_length as usize
            } else {
                self.chunk_size as usize
            };
            proof {
                assert(need == frag_need(c1, self.chunk_size));
            }
            if data.len() - hs < need {
                return Ok(DemuxStep::NeedMoreData);
            }
            let mut buf: Vec<u8> = Vec::new();
            buf.extend_from_slice(&data[hs..hs + need]);
            proof {
                assert(buf@ =~= c1.buf + data@.subrange(hs as int, (hs + need) as int));
            }
            let complete = buf.len() == h.message_length as usize;
            let msg: Option<Message>;
            let fresh: CsState;
            if complete {
                fresh = CsState {
                    timestamp: h.timestamp,
                    timestamp_delta: 0,
                    message_length: h.message_length,
                    message_type_id: h.message_type_id,
                    message_stream_id: h.message_stream_id,
                    buffer: Vec::new(),
                };
                msg = Some(
                    Message {
                        chunk_stream_id: id,
                        timestamp: h.timestamp,
                        message_type_id: h.message_type_id,
                        message_stream_id: h.message_stream_id,
                        payload: buf,
                    },
                );
            } else {
                fresh = CsState {
                    timestamp: h.timestamp,
                    timestamp_delta: 0,
                    message_length: h.message_length,
                    message_type_id: h.message_type_id,
                    message_stream_id: h.message_stream_id,
                    buffer: buf,
                };
                msg = None;
            }
            proof {
                lemma_find_view_push(self.streams@, id, fresh);
                lemma_parse_header_len(data@);
            }
            self.streams.push((id, fresh));
            proof {
                let frag = data@.subrange(hs as int, (hs + need) as int);
                let stepped = apply_frag(id, c1, frag);
                assert(cs_view(fresh).buf =~= stepped.0.buf);
                assert(self.stream_view(id) == Some(stepped.0));
                assert forall|j: int|
                    0 <= j < self.streams@.len() implies wf_cs(
                    cs_view((#[trigger] self.streams@[j]).1),
                ) by {
                    if j < self.streams@.len() - 1 {
                        assert(self.streams@[j] == old(self).streams@[j]);
                    } else {
                        assert(self.streams@[j].1 == fresh);
                    }
                }
            }
            return Ok(DemuxStep::Consumed(hs + need, msg));
        }
        // a cached stream exists at idx; merge the header into copies
        // of its fields first
        let cur_ts = self.streams[idx].1.timestamp;
        let cur_delta = self.streams[idx].1.timestamp_delta;
        let cur_len = self.streams[idx].1.message_length;
        let cur_ty = self.streams[idx].1.message_type_id;
        let cur_sid = self.streams[idx].1.message_stream_id;
        let cur_buf_len = self.streams[idx].1.buffer.len();
        let ghost c1 = merge_header(old(self).stream_view(id), h).unwrap();
        let new_ts: u32;
        let new_delta: u32;
        let new_len: u32;
        let new_ty: u8;
        let new_sid: u32;
        let reset_buf: bool;
        if h.format == 0 {
            new_ts = h.timestamp;
            new_delta = 0;
            new_len = h.message_length;
            new_ty = h.message_type_id;
            new_sid = h.message_stream_id;
            reset_buf = true;
        } else if h.format == 1 {
            if cur_buf_len > h.message_length as usize {
                return Err(StreamError::MalformedChunkHeader);
            }
            new_ts = cur_ts.wrapping_add(h.timestamp);
            new_delta = h.timestamp;
            new_len = h.message_length;
            new_ty = h.message_type_id;
            new_sid = cur_sid;
            reset_buf = false;
        } else if h.format == 2 {
            new_ts = cur_ts.wrapping_add(h.timestamp);
            new_delta = h.timestamp;
            new_len = cur_len;
            new_ty = cur_ty;
            new_sid = cur_sid;
            reset_buf = false;
        } else {
            if cur_buf_len == 0 {
                new_ts = cur_ts.wrapping_add(cur_delta);
            } else {
                new_ts = cur_ts;
            }
            new_delta = cur_delta;
            new_len = cur_len;
            new_ty = cur_ty;
            new_sid = cur_sid;
            reset_buf = false;
        }
        let buffered: usize = if reset_buf {
            0
        } else {
            cur_buf_len
        };
        proof {
            assert(c1.ts == new_ts && c1.delta == new_delta && c1.len == new_len && c1.ty == new_ty
                && c1.sid == new_sid);
            assert(c1.buf.len() == buffered);
        }
        let need: usize = if (new_len as usize) - buffered < (self.chunk_size as usize) {
            (new_len as usize) - buffered
        } else {
            self.chunk_size as usize
        };
        proof {
            assert(need == frag_need(c1, self.chunk_size));
        }
        if data.len() - hs < need {
            return Ok(DemuxStep::NeedMoreData);
        }
        let ghost pre_streams = self.streams@;
        let e = &mut self.streams[idx];
        e.1.timestamp = new_ts;
        e.1.timestamp_delta = new_delta;
        e.1.message_length = new_len;
        e.1.message_type_id = new_ty;
        e.1.message_stream_id = new_sid;
        if reset_buf {
            e.1.buffer.clear();
        }
        e.1.buffer.extend_from_slice(&data[hs..hs + need]);
        proof {
            assert(e.1.buffer@ =~= c1.buf + data@.subrange(hs as int, (hs + need) as int));
        }
        let complete = e.1.buffer.len() == new_len as usize;
        let msg: Option<Message>;
        if complete {
            let mut payload: Vec<u8> = Vec::new();
            payload.extend_from_slice(e.1.buffer.as_slice());
            e.1.buffer.clear();
            proof {
                assert(payload@ =~= c1.buf + data@.subrange(hs as int, (hs + need) as int));
            }
            msg = Some(
                Message {
                    chunk_stream_id: id,
                    timestamp: new_ts,
                    message_type_id: new_ty,
                    message_stream_id: new_sid,
                    payload,
                },
            );
        } else {
            msg = None;
        }
        proof {
            let frag = data@.subrange(hs as int, (hs + need) as int);
            let stepped = apply_frag(id, c1, frag);
            lemma_parse_header_len(data@);
            lemma_find_view_update(pre_streams, idx as int, id, self.streams@[idx as int].1);
            assert(self.streams@ =~= pre_streams.update(
                idx as int,
                (id, self.streams@[idx as int].1),
            ));
            assert(cs_view(self.streams@[idx as int].1) == stepped.0);
            assert forall|j: int|
                0 <= j < self.streams@.len() implies wf_cs(
                cs_view((#[trigger] self.streams@[j]).1),
            ) by {
                if j != idx as int {
                    assert(self.streams@[j] == old(self).streams@[j]);
                }
            }
        }
        Ok(DemuxStep::Consumed(hs + need, msg))
    }
}

/// A payload cut into fragments of at most `csize` bytes, in order.
/// An empty payload is one empty fragment: its only chunk carries no
/// bytes.
pub open spec fn split_frags(payload: Seq<u8>, csize: int) -> Seq<Seq<u8>>
    decreases payload.len(),
{
    if csize < 1 {
        seq![payload]
    } else if payload.len() <= csize {
        seq![payload]
    } else {
        seq![payload.take(csize)] + split_frags(payload.skip(csize), csize)
    }
}

/// Feeds fragments one after the other into a chunk stream's state,
/// gathering the messages that complete.
pub open spec fn drive_frags(id: u32, c: CsSpec, frags: Seq<Seq<u8>>) -> (CsSpec, Seq<MsgSpec>)
    decreases frags.len(),
{
    if frags.len() == 0 {
        (c, Seq::empty())
    } else {
        let st = apply_frag(id, c, frags[0]);
        let rest = drive_frags(id, st.0, frags.subrange(1, frags.len() as int));
        (
            rest.0,
            (match st.1 {
                Some(m) => seq![m],
                None => Seq::empty(),
            }) + rest.1,
        )
    }
}

proof fn lemma_reassemble_from(id: u32, payload: Seq<u8>, off: int, csize: int, c: CsSpec)
    requires
        1 <= csize,
        0 <= off <= payload.len(),
        off < payload.len() || payload.len() == 0,
        c.len == payload.len(),
        c.buf == payload.take(off),
    ensures
        drive_frags(id, c, split_frags(payload.skip(off), csize)) == (
            CsSpec { ts: c.ts, delta: c.delta, len: c.len, ty: c.ty, sid: c.sid, buf: Seq::empty() },
            seq![MsgSpec { cs: id, ts: c.ts, ty: c.ty, sid: c.sid, payload: payload }],
        ),
    decreases payload.len() - off,
{
    let rem = payload.skip(off);
    if rem.len() <= csize {
        reveal_with_fuel(drive_frags, 3);
        assert(split_frags(rem, csize) == seq![rem]);
        assert(c.buf + rem =~= payload);
        let st = apply_frag(id, c, rem);
        assert(st.1 == Some(MsgSpec { cs: id, ts: c.ts, ty: c.ty, sid: c.sid, payload: payload }));
        assert(seq![rem].subrange(1, 1) =~= Seq::<Seq<u8>>::empty());
        assert((match st.1 {
            Some(m) => seq![m],
            None => Seq::<MsgSpec>::empty(),
        }) + Seq::<MsgSpec>::empty() =~= seq![
            MsgSpec { cs: id, ts: c.ts, ty: c.ty, sid: c.sid, payload: payload },
        ]);
    } else {
        let frags = split_frags(rem, csize);
        assert(frags == seq![rem.take(csize)] + split_frags(rem.skip(csize), csize));
        assert(frags[0] == rem.take(csize));
        let st = apply_frag(id, c, rem.take(csize));
        assert(c.buf + rem.take(csize) =~= payload.take(off + csize));
        assert(st.1 is None);
        assert(st.0.buf == payload.take(off + csize));
        assert(rem.skip(csize) =~= payload.skip(off + csize));
        assert(frags.subrange(1, frags.len() as int) =~= split_frags(
            payload.skip(off + csize),
            csize,
        ));
        lemma_reassemble_from(id, payload, off + csize, csize, st.0);
        assert(Seq::<MsgSpec>::empty() + seq![
            MsgSpec { cs: id, ts: c.ts, ty: c.ty, sid: c.sid, payload: payload },
        ] =~= seq![MsgSpec { cs: id, ts: c.ts, ty: c.ty, sid: c.sid, payload: payload }]);
    }
}

/// Splitting a message into chunk-sized fragments and reassembling
/// them yields the original payload: from a fresh state that declares
/// the payload's length, feeding the fragments completes exactly one
/// message, carrying the payload byte for byte, and leaves the buffer
/// empty.
pub proof fn lemma_split_reassemble(id: u32, ts: u32, ty: u8, sid: u32, payload: Seq<u8>, csize: int)
    requires
        1 <= csize,
        payload.len() < 0x1000000,
    ensures
        ({
            let c0 = CsSpec {
                ts: ts,
                delta: 0,
                len: payload.len() as u32,
                ty: ty,
                sid: sid,
                buf: Seq::empty(),
            };
            drive_frags(id, c0, split_frags(payload, csize)) == (
                CsSpec {
                    ts: ts,
                    delta: 0,
                    len: payload.len() as u32,
                    ty: ty,
                    sid: sid,
                    buf: Seq::empty(),
                },
                seq![MsgSpec { cs: id, ts: ts, ty: ty, sid: sid, payload: payload }],
            )
        }),
{
    let c0 = CsSpec {
        ts: ts,
        delta: 0,
        len: payload.len() as u32,
        ty: ty,
        sid: sid,
        buf: Seq::empty(),
    };
    assert(c0.buf =~= payload.take(0));
    assert(payload.skip(0) =~= payload);
    lemma_reassemble_from(id, payload, 0, csize, c0);
}

/// Demultiplexes one chunk stream from raw bytes: parse a header,
/// merge it, take the fragment the merged state calls for, and go on
/// with the rest. `None` marks a stream this single-id reading cannot
/// consume (a foreign id, a truncated chunk, an illegal header).
pub open spec fn demux_bytes(cs: u32, c: Option<CsSpec>, csize: u32, b: Seq<u8>) -> Option<
    (Option<CsSpec>, Seq<MsgSpec>),
>
    decreases b.len(),
{
    if b.len() == 0 {
        Some((c, Seq::empty()))
    } else {
        match spec_parse_header(b) {
            None => None,
            Some(p) => {
                if p.0.chunk_stream_id != cs || p.1 < 1 {
                    None
                } else {
                    match merge_header(c, p.0) {
                        None => None,
                        Some(c1) => {
                            let f = frag_need(c1, csize);
                            if f < 0 || b.len() < p.1 + f {
                                None
                            } else {
                                let stepped = apply_frag(cs, c1, b.subrange(p.1, p.1 + f));
                                match demux_bytes(cs, Some(stepped.0), csize, b.skip(p.1 + f)) {
                                    None => None,
                                    Some(rest) => Some(
                                        (
                                            rest.0,
                                            (match stepped.1 {
                                                Some(m) => seq![m],
                                                None => Seq::empty(),
                                            }) + rest.1,
                                        ),
                                    ),
                                }
                            }
                        },
                    }
                }
            },
        }
    }
}


/// The last fragment of a message: consuming it completes the message
/// and empties the buffer, and the byte stream ends with it.
#[verifier::rlimit(100)]
#[verifier::spinoff_prover]
proof fn lemma_demux_last_frag(
    cs: u32,
    ts: u32,
    ty: u8,
    sid: u32,
    payload: Seq<u8>,
    off: int,
    csize: u32,
    b: Seq<u8>,
    h: RtmpHeader,
    hlen: int,
)
    requires
        1 <= csize,
        payload.len() < 0x1000000,
        0 <= off <= payload.len(),
        payload.len() - off <= csize,
        spec_parse_header(b) == Some((h, hlen)),
        h.chunk_stream_id == cs,
        1 <= hlen,
        merge_header(
            Some(
                CsSpec {
                    ts: ts,
                    delta: 0,
                    len: payload.len() as u32,
                    ty: ty,
                    sid: sid,
                    buf: payload.take(off),
                },
            ),
            h,
        ) == Some(
            CsSpec {
                ts: ts,
                delta: 0,
                len: payload.len() as u32,
                ty: ty,
                sid: sid,
                buf: payload.take(off),
            },
        ),
        b.len() == hlen + (payload.len() - off),
        b.subrange(hlen, b.len() as int) == payload.skip(off),
    ensures
        demux_bytes(
            cs,
            Some(
                CsSpec {
                    ts: ts,
                    delta: 0,
                    len: payload.len() as u32,
                    ty: ty,
                    sid: sid,
                    buf: payload.take(off),
                },
            ),
            csize,
            b,
        ) == Some(
            (
                Some(
                    CsSpec {
                        ts: ts,
                        delta: 0,
                        len: payload.len() as u32,
                        ty: ty,
                        sid: sid,
                        buf: Seq::empty(),
                    },
                ),
                seq![MsgSpec { cs: cs, ts: ts, ty: ty, sid: sid, payload: payload }],
            ),
        ),
{
    let c = CsSpec {
        ts: ts,
        delta: 0,
        len: payload.len() as u32,
        ty: ty,
        sid: sid,
        buf: payload.take(off),
    };
    let f = frag_need(c, csize);
    assert(f == payload.len() - off);
    assert(b.subrange(hlen, hlen + f) == payload.skip(off));
    let stepped = apply_frag(cs, c, payload.skip(off));
    assert(c.buf + payload.skip(off) =~= payload);
    assert(stepped.1 == Some(MsgSpec { cs: cs, ts: ts, ty: ty, sid: sid, payload: payload }));
    assert(b.skip(hlen + f) =~= Seq::<u8>::empty());
    assert(demux_bytes(cs, Some(stepped.0), csize, b.skip(hlen + f)) == Some(
        (Some(stepped.0), Seq::<MsgSpec>::empty()),
    ));
    assert(seq![MsgSpec { cs: cs, ts: ts, ty: ty, sid: sid, payload: payload }]
        + Seq::<MsgSpec>::empty() =~= seq![
        MsgSpec { cs: cs, ts: ts, ty: ty, sid: sid, payload: payload },
    ]);
}

/// A middle fragment: consuming it grows the buffer and hands the rest
/// of the work to the remaining byte stream.
#[verifier::rlimit(100)]
#[verifier::spinoff_prover]
proof fn lemma_demux_middle_frag(
    cs: u32,
    ts: u32,
    ty: u8,
    sid: u32,
    payload: Seq<u8>,
    off: int,
    csize: u32,
    b: Seq<u8>,
    h: RtmpHeader,
    hlen: int,
)
    requires
        1 <= csize,
        payload.len() < 0x1000000,
        0 <= off,
        off + csize < payload.len(),
        spec_parse_header(b) == Some((h, hlen)),
        h.chunk_stream_id == cs,
        1 <= hlen,
        merge_header(
            Some(
                CsSpec {
                    ts: ts,
                    delta: 0,
                    len: payload.len() as u32,
                    ty: ty,
                    sid: sid,
                    buf: payload.take(off),
                },
            ),
            h,
        ) == Some(
            CsSpec {
                ts: ts,
                delta: 0,
                len: payload.len() as u32,
                ty: ty,
                sid: sid,
                buf: payload.take(off),
            },
        ),
        b.len() >= hlen + csize,
        b.subrange(hlen, hlen + csize) == payload.subrange(off, off + csize),
        demux_bytes(
            cs,
            Some(
                CsSpec {
                    ts: ts,
                    delta: 0,
                    len: payload.len() as u32,
                    ty: ty,
                    sid: sid,
                    buf: payload.take(off + csize),
                },
            ),
            csize,
            b.skip(hlen + csize),
        ) == Some(
            (
                Some(
                    CsSpec {
                        ts: ts,
                        delta: 0,
                        len: payload.len() as u32,
                        ty: ty,
                        sid: sid,
                        buf: Seq::empty(),
                    },
                ),
                seq![MsgSpec { cs: cs, ts: ts, ty: ty, sid: sid, payload: payload }],
            ),
        ),
    ensures
        demux_bytes(
            cs,
            Some(
                CsSpec {
                    ts: ts,
                    delta: 0,
                    len: payload.len() as u32,
                    ty: ty,
                    sid: sid,
                    buf: payload.take(off),
                },
            ),
            csize,
            b,
        ) == Some(
            (
                Some(
                    CsSpec {
                        ts: ts,
                        delta: 0,
                        len: payload.len() as u32,
                        ty: ty,
                        sid: sid,
                        buf: Seq::empty(),
                    },
                ),
                seq![MsgSpec { cs: cs, ts: ts, ty: ty, sid: sid, payload: payload }],
            ),
        ),
{
    let c = CsSpec {
        ts: ts,
        delta: 0,
        len: payload.len() as u32,
        ty: ty,
        sid: sid,
        buf: payload.take(off),
    };
    let f = frag_need(c, csize);
    assert(f == csize as int);
    let stepped = apply_frag(cs, c, b.subrange(hlen, hlen + f));
    assert(c.buf + payload.subrange(off, off + csize) =~= payload.take(off + csize));
    assert(payload.take(off + csize).len() < payload.len());
    assert(stepped.1 is None);
    assert(stepped.0 == CsSpec {
        ts: ts,
        delta: 0,
        len: payload.len() as u32,
        ty: ty,
        sid: sid,
        buf: payload.take(off + csize),
    });
    assert(Seq::<MsgSpec>::empty() + seq![
        MsgSpec { cs: cs, ts: ts, ty: ty, sid: sid, payload: payload },
    ] =~= seq![MsgSpec { cs: cs, ts: ts, ty: ty, sid: sid, payload: payload }]);
}

#[verifier::rlimit(100)]
#[verifier::spinoff_prover]
proof fn lemma_demux_tail(cs: u32, ts: u32, ty: u8, sid: u32, payload: Seq<u8>, off: int, csize: u32)
    requires
        2 <= cs < 65600,
        1 <= csize,
        payload.len() < 0x1000000,
        1 <= off < payload.len(),
    ensures
        demux_bytes(
            cs,
            Some(
                CsSpec {
                    ts: ts,
                    delta: 0,
                    len: payload.len() as u32,
                    ty: ty,
                    sid: sid,
                    buf: payload.take(off),
                },
            ),
            csize,
            spec_chunk3_header(cs) + spec_chunks_of(cs, payload.skip(off), csize as int),
        ) == Some(
            (
                Some(
                    CsSpec {
                        ts: ts,
                        delta: 0,
                        len: payload.len() as u32,
                        ty: ty,
                        sid: sid,
                        buf: Seq::empty(),
                    },
                ),
                seq![MsgSpec { cs: cs, ts: ts, ty: ty, sid: sid, payload: payload }],
            ),
        ),
    decreases payload.len() - off,
{
    let c = CsSpec {
        ts: ts,
        delta: 0,
        len: payload.len() as u32,
        ty: ty,
        sid: sid,
        buf: payload.take(off),
    };
    let rem = payload.skip(off);
    let chunks = spec_chunks_of(cs, rem, csize as int);
    let b = spec_chunk3_header(cs) + chunks;
    lemma_parse_chunk3_header(cs, chunks);
    let hlen = spec_chunk3_header(cs).len() as int;
    assert(1 <= hlen <= 3);
    let h3 = RtmpHeader {
        format: 3,
        chunk_stream_id: cs,
        timestamp: 0,
        message_length: 0,
        message_type_id: 0,
        message_stream_id: 0,
    };
    assert(spec_parse_header(b) == Some((h3, hlen)));
    assert(merge_header(Some(c), h3) == Some(c));
    if rem.len() <= csize {
        assert(chunks == rem);
        assert(b.len() == hlen + (payload.len() - off));
        assert(b.subrange(hlen, b.len() as int) =~= payload.skip(off));
        lemma_demux_last_frag(cs, ts, ty, sid, payload, off, csize, b, h3, hlen);
    } else {
        assert(chunks == rem.take(csize as int) + spec_chunk3_header(cs) + spec_chunks_of(
            cs,
            rem.skip(csize as int),
            csize as int,
        ));
        assert(b.len() >= hlen + csize);
        assert(b.subrange(hlen, hlen + csize) =~= payload.subrange(off, off + csize));
        assert(rem.skip(csize as int) =~= payload.skip(off + csize));
        assert(b.skip(hlen + csize) =~= spec_chunk3_header(cs) + spec_chunks_of(
            cs,
            payload.skip(off + csize),
            csize as int,
        ));
        lemma_demux_tail(cs, ts, ty, sid, payload, off + csize, csize);
        lemma_demux_middle_frag(cs, ts, ty, sid, payload, off, csize, b, h3, hlen);
    }
}

/// Encoding one message as chunks and demultiplexing the bytes yields
/// the message back: same type id, stream id, timestamp and payload,
/// and the stream's reassembly buffer ends empty. Messages in a row
/// follow by applying this to each in turn.
#[verifier::rlimit(100)]
#[verifier::spinoff_prover]
pub proof fn lemma_mux_demux_round_trip(
    cs: u32,
    ts: u32,
    ty: u8,
    sid: u32,
    payload: Seq<u8>,
    csize: u32,
)
    requires
        2 <= cs < 65600,
        payload.len() < 0x1000000,
        1 <= csize,
    ensures
        demux_bytes(cs, None, csize, spec_mux_message(cs, ts, ty, sid, payload, csize as int))
            == Some(
            (
                Some(
                    CsSpec {
                        ts: ts,
                        delta: 0,
                        len: payload.len() as u32,
                        ty: ty,
                        sid: sid,
                        buf: Seq::empty(),
                    },
                ),
                seq![MsgSpec { cs: cs, ts: ts, ty: ty, sid: sid, payload: payload }],
            ),
        ),
{
    let plen = payload.len() as u32;
    let hdr = spec_chunk0_header(cs, ts, plen, ty, sid);
    let chunks = spec_chunks_of(cs, payload, csize as int);
    let b = spec_mux_message(cs, ts, ty, sid, payload, csize as int);
    assert(b == hdr + chunks);
    lemma_parse_chunk0_header(cs, ts, plen, ty, sid, chunks);
    let h0 = RtmpHeader {
        format: 0,
        chunk_stream_id: cs,
        timestamp: ts,
        message_length: plen,
        message_type_id: ty,
        message_stream_id: sid,
    };
    let hlen = hdr.len() as int;
    assert(spec_parse_header(b) == Some((h0, hlen)));
    assert(hlen >= 12);
    let c0 = CsSpec { ts: ts, delta: 0, len: plen, ty: ty, sid: sid, buf: Seq::empty() };
    assert(merge_header(None, h0) == Some(c0));
    assert(payload.take(0) =~= Seq::<u8>::empty());
    if payload.len() <= csize {
        assert(chunks == payload);
        assert(b.len() == hlen + payload.len());
        assert(b.subrange(hlen, b.len() as int) =~= payload.skip(0));
        assert(payload.skip(0) =~= payload);
        lemma_demux_last_frag(cs, ts, ty, sid, payload, 0, csize, b, h0, hlen);
    } else {
        assert(chunks == payload.take(csize as int) + spec_chunk3_header(cs) + spec_chunks_of(
            cs,
            payload.skip(csize as int),
            csize as int,
        ));
        assert(b.len() >= hlen + csize);
        assert(b.subrange(hlen, hlen + csize) =~= payload.subrange(0, csize as int));
        assert(b.skip(hlen + csize) =~= spec_chunk3_header(cs) + spec_chunks_of(
            cs,
            payload.skip(csize as int),
            csize as int,
        ));
        lemma_demux_tail(cs, ts, ty, sid, payload, csize as int, csize);
        lemma_demux_middle_frag(cs, ts, ty, sid, payload, 0, csize, b, h0, hlen);
    }
}



/// Completed messages keep per-stream FIFO order however chunks of
/// different streams interleave: one consumed chunk advances only the
/// stream its header names, every other stream keeps its reassembly
/// state, and a message it completes belongs to the named stream. So
/// the messages a stream delivers depend on its own chunks alone, in
/// their arrival order.
pub proof fn lemma_demux_per_stream_isolation(
    d0: Demuxer,
    d1: Demuxer,
    data: Seq<u8>,
    sz: usize,
    m: Option<Message>,
    k: u32,
)
    requires
        spec_consumed(d0, d1, data, sz, m),
        spec_parse_header(data) matches Some(p) && p.0.chunk_stream_id != k,
    ensures
        d1.stream_view(k) == d0.stream_view(k),
        m matches Some(msg) ==> msg.chunk_stream_id != k,
{
}


/// The chunk-stream id a chunk block is addressed to.
pub open spec fn spec_chunk_id(ch: Seq<u8>) -> u32 {
    match spec_parse_header(ch) {
        Some(p) => p.0.chunk_stream_id,
        None => 0,
    }
}

/// The sub-list of chunk blocks addressed to stream `c`, in order.
pub open spec fn chunks_of_stream(chunks: Seq<Seq<u8>>, c: u32) -> Seq<Seq<u8>>
    decreases chunks.len(),
{
    if chunks.len() == 0 {
        Seq::empty()
    } else {
        (if spec_chunk_id(chunks[0]) == c {
            seq![chunks[0]]
        } else {
            Seq::empty()
        }) + chunks_of_stream(chunks.subrange(1, chunks.len() as int), c)
    }
}

/// The sub-list of messages delivered on stream `c`, in order.
pub open spec fn msgs_of_stream(msgs: Seq<MsgSpec>, c: u32) -> Seq<MsgSpec>
    decreases msgs.len(),
{
    if msgs.len() == 0 {
        Seq::empty()
    } else {
        (if msgs[0].cs == c {
            seq![msgs[0]]
        } else {
            Seq::empty()
        }) + msgs_of_stream(msgs.subrange(1, msgs.len() as int), c)
    }
}

/// The reassembly state of one stream in a map of streams.
pub open spec fn stream_entry(st: Map<u32, CsSpec>, id: u32) -> Option<CsSpec> {
    if st.contains_key(id) {
        Some(st[id])
    } else {
        None
    }
}

/// Demultiplexes a list of whole chunk blocks, each holding exactly
/// one header and the fragment its stream's state calls for, over any
/// mix of chunk-stream ids: the same `merge_header` / `apply_frag`
/// step the executable demuxer is proved against, applied chunk by
/// chunk.
pub open spec fn demux_chunk_list(
    st: Map<u32, CsSpec>,
    csize: u32,
    chunks: Seq<Seq<u8>>,
) -> Option<(Map<u32, CsSpec>, Seq<MsgSpec>)>
    decreases chunks.len(),
{
    if chunks.len() == 0 {
        Some((st, Seq::empty()))
    } else {
        let ch = chunks[0];
        match spec_parse_header(ch) {
            None => None,
            Some(p) => {
                match merge_header(stream_entry(st, p.0.chunk_stream_id), p.0) {
                    None => None,
                    Some(c1) => {
                        let f = frag_need(c1, csize);
                        if ch.len() != p.1 + f {
                            None
                        } else {
                            let stepped = apply_frag(
                                p.0.chunk_stream_id,
                                c1,
                                ch.subrange(p.1, ch.len() as int),
                            );
                            match demux_chunk_list(
                                st.insert(p.0.chunk_stream_id, stepped.0),
                                csize,
                                chunks.subrange(1, chunks.len() as int),
                            ) {
                                None => None,
                                Some(rest) => Some(
                                    (
                                        rest.0,
                                        (match stepped.1 {
                                            Some(m) => seq![m],
                                            None => Seq::empty(),
                                        }) + rest.1,
                                    ),
                                ),
                            }
                        }
                    },
                }
            },
        }
    }
}

/// Per-chunk-stream FIFO order: however the chunks of other streams
/// interleave, the messages stream `c` completes are exactly the ones
/// its own chunks alone would complete, in the same order, and its
/// reassembly state ends the same. Taking `st2 == st1` reads: delivery
/// on one id is a function of that id's chunk sub-list alone.
pub proof fn lemma_demux_fifo(
    st1: Map<u32, CsSpec>,
    st2: Map<u32, CsSpec>,
    csize: u32,
    chunks: Seq<Seq<u8>>,
    c: u32,
)
    requires
        stream_entry(st1, c) == stream_entry(st2, c),
    ensures
        demux_chunk_list(st1, csize, chunks) matches Some(full) ==> (demux_chunk_list(
            st2,
            csize,
            chunks_of_stream(chunks, c),
        ) matches Some(own) && msgs_of_stream(full.1, c) == own.1 && stream_entry(full.0, c)
            == stream_entry(own.0, c)),
    decreases chunks.len(),
{
    if demux_chunk_list(st1, csize, chunks) is Some {
        if chunks.len() == 0 {
            assert(chunks_of_stream(chunks, c) == Seq::<Seq<u8>>::empty());
            assert(msgs_of_stream(Seq::empty(), c) == Seq::<MsgSpec>::empty());
        } else {
            let ch = chunks[0];
            let tail = chunks.subrange(1, chunks.len() as int);
            let p = spec_parse_header(ch).unwrap();
            let id = p.0.chunk_stream_id;
            let c1 = merge_header(stream_entry(st1, id), p.0).unwrap();
            let f = frag_need(c1, csize);
            let stepped = apply_frag(id, c1, ch.subrange(p.1, ch.len() as int));
            let rest = demux_chunk_list(st1.insert(id, stepped.0), csize, tail).unwrap();
            let firstm = (match stepped.1 {
                Some(m) => seq![m],
                None => Seq::<MsgSpec>::empty(),
            });
            let full = demux_chunk_list(st1, csize, chunks).unwrap();
            assert(full.0 == rest.0 && full.1 == firstm + rest.1);
            if id == c {
                assert(merge_header(stream_entry(st2, c), p.0) == Some(c1));
                let fown = chunks_of_stream(chunks, c);
                assert(fown == seq![ch] + chunks_of_stream(tail, c));
                assert(fown[0] == ch);
                assert(fown.subrange(1, fown.len() as int) =~= chunks_of_stream(tail, c));
                assert(stream_entry(st1.insert(c, stepped.0), c) == stream_entry(
                    st2.insert(c, stepped.0),
                    c,
                ));
                lemma_demux_fifo(st1.insert(c, stepped.0), st2.insert(c, stepped.0), csize, tail, c);
                let own_tail = demux_chunk_list(
                    st2.insert(c, stepped.0),
                    csize,
                    chunks_of_stream(tail, c),
                ).unwrap();
                assert(demux_chunk_list(st2, csize, fown) == Some(
                    (own_tail.0, firstm + own_tail.1),
                ));
                match stepped.1 {
                    Some(m) => {
                        assert(m.cs == c);
                        assert((firstm + rest.1)[0] == m);
                        assert((firstm + rest.1).subrange(1, (firstm + rest.1).len() as int)
                            =~= rest.1);
                        assert(msgs_of_stream(full.1, c) == seq![m] + msgs_of_stream(rest.1, c));
                        assert(seq![m] + msgs_of_stream(rest.1, c) =~= firstm + own_tail.1);
                    },
                    None => {
                        assert(firstm + rest.1 =~= rest.1);
                        assert(msgs_of_stream(full.1, c) == own_tail.1);
                        assert(firstm + own_tail.1 =~= own_tail.1);
                    },
                }
            } else {
                assert(chunks_of_stream(chunks, c) =~= chunks_of_stream(tail, c));
                assert(stream_entry(st1.insert(id, stepped.0), c) == stream_entry(st1, c));
                lemma_demux_fifo(st1.insert(id, stepped.0), st2, csize, tail, c);
                match stepped.1 {
                    Some(m) => {
                        assert(m.cs == id);
                        assert((firstm + rest.1)[0] == m);
                        assert((firstm + rest.1).subrange(1, (firstm + rest.1).len() as int)
                            =~= rest.1);
                        assert(msgs_of_stream(full.1, c) == msgs_of_stream(rest.1, c));
                    },
                    None => {
                        assert(firstm + rest.1 =~= rest.1);
                    },
                }
            }
        }
    }
}

} // verus!
