//! Chunk encoder: fragments an outbound message into chunks of at most
//! the outbound chunk size, choosing the most compressed header format
//! that the per-chunk-stream history permits, and appends the exact
//! byte image stated by the spec functions here.

use vstd::prelude::*;

use std::collections::HashMap;

use crate::message::Message;
use crate::message::MessageView;
use crate::wire::BytesWriter;
use crate::wire::u24_be_bytes;
use crate::wire::u32_be_bytes;
use crate::wire::u32_le_bytes;

verus! {

broadcast use vstd::std_specs::hash::group_hash_axioms;

/// Timestamp differences are taken modulo 2^32, like the sums.
pub open spec fn wrap_sub(a: u32, b: u32) -> u32 {
    if a >= b {
        (a - b) as u32
    } else {
        (a - b + 0x100000000) as u32
    }
}

/// What the encoder remembers of the last chunk emitted on a chunk
/// stream; `ext` records whether its header carried an extended
/// timestamp, since fmt 3 continuations must then carry one too.
#[derive(Clone, Copy)]
pub struct ChunkWriteState {
    pub timestamp: u32,
    pub delta: u32,
    pub length: u32,
    pub type_id: u8,
    pub msg_stream_id: u32,
    pub ext: bool,
}

/// The bytes of a basic header: fmt in the two high bits, then the one,
/// two or three byte encoding of the chunk stream id.
pub open spec fn basic_header_bytes(fmt: u8, csid: u32) -> Seq<u8>
    recommends
        fmt <= 3,
        2 <= csid < 65600,
{
    if csid < 64 {
        seq![((fmt << 6) | (csid as u8)) as u8]
    } else if csid < 320 {
        seq![(fmt << 6) as u8, (csid - 64) as u8]
    } else {
        seq![
            ((fmt << 6) | 1) as u8,
            (((csid - 64) as u32 & 0xFF) as u8),
            ((((csid - 64) as u32 >> 8) & 0xFF) as u8),
        ]
    }
}

/// The header format the policy selects for a new message: fmt 0 with no
/// history or when stream id, length or type changed; fmt 3 when even
/// the timestamp delta repeats; fmt 2 otherwise, carrying the new delta.
pub open spec fn choose_fmt(prev: Option<ChunkWriteState>, m: MessageView) -> u8 {
    match prev {
        Option::None => 0,
        Option::Some(p) => {
            if p.msg_stream_id != m.msg_stream_id || p.length != m.payload.len() || p.type_id
                != m.type_id {
                0
            } else if wrap_sub(m.timestamp, p.timestamp) == p.delta {
                3
            } else {
                2
            }
        },
    }
}

/// The timestamp-or-delta value the start chunk communicates.
pub open spec fn start_value(prev: Option<ChunkWriteState>, m: MessageView) -> u32 {
    match prev {
        Option::None => m.timestamp,
        Option::Some(p) => {
            if choose_fmt(prev, m) == 0 {
                m.timestamp
            } else {
                wrap_sub(m.timestamp, p.timestamp)
            }
        },
    }
}

/// Whether the start chunk's header (and hence every continuation of the
/// message) carries the 4-byte extended timestamp block.
pub open spec fn start_ext(prev: Option<ChunkWriteState>, m: MessageView) -> bool {
    if choose_fmt(prev, m) == 3 {
        prev->Some_0.ext
    } else {
        start_value(prev, m) >= 0xFFFFFF
    }
}

/// The message header of the start chunk, extended timestamp included.
pub open spec fn start_header_bytes(
    prev: Option<ChunkWriteState>,
    m: MessageView,
    csid: u32,
) -> Seq<u8> {
    let fmt = choose_fmt(prev, m);
    let v = start_value(prev, m);
    let ext = start_ext(prev, m);
    let tsf = if v >= 0xFFFFFF {
        0xFFFFFFu32
    } else {
        v
    };
    basic_header_bytes(fmt, csid) + (if fmt == 0 {
        u24_be_bytes(tsf) + u24_be_bytes(m.payload.len() as u32) + seq![m.type_id] + u32_le_bytes(
            m.msg_stream_id,
        )
    } else if fmt == 2 {
        u24_be_bytes(tsf)
    } else {
        Seq::<u8>::empty()
    }) + (if ext {
        u32_be_bytes(v)
    } else {
        Seq::<u8>::empty()
    })
}

/// The fmt 3 continuation chunks for the payload from `pos` on: each
/// carries the extended timestamp block when the start header did, then
/// at most `csize` payload bytes.
pub open spec fn cont_bytes(
    payload: Seq<u8>,
    csize: u32,
    pos: int,
    csid: u32,
    ext: bool,
    ev: u32,
) -> Seq<u8>
    decreases payload.len() - pos,
{
    if csize < 1 || pos < 0 || pos >= payload.len() {
        Seq::<u8>::empty()
    } else {
        let end = if pos + csize <= payload.len() {
            pos + csize
        } else {
            payload.len() as int
        };
        basic_header_bytes(3, csid) + (if ext {
            u32_be_bytes(ev)
        } else {
            Seq::<u8>::empty()
        }) + payload.subrange(pos, end) + cont_bytes(payload, csize, end, csid, ext, ev)
    }
}

/// The whole byte image of one outbound message: start header, first
/// payload fragment, then the fmt 3 continuations.
pub open spec fn encode_msg_bytes(
    prev: Option<ChunkWriteState>,
    m: MessageView,
    csid: u32,
    csize: u32,
) -> Seq<u8> {
    let end0 = if csize as int <= m.payload.len() {
        csize as int
    } else {
        m.payload.len() as int
    };
    start_header_bytes(prev, m, csid) + m.payload.subrange(0, end0) + cont_bytes(
        m.payload,
        csize,
        end0,
        csid,
        start_ext(prev, m),
        start_value(prev, m),
    )
}

/// The history the encoder keeps for the chunk stream once the message
/// has been emitted.
pub open spec fn next_write_state(prev: Option<ChunkWriteState>, m: MessageView) -> ChunkWriteState {
    ChunkWriteState {
        timestamp: m.timestamp,
        delta: if choose_fmt(prev, m) == 0 {
            0u32
        } else {
            start_value(prev, m)
        },
        length: m.payload.len() as u32,
        type_id: m.type_id,
        msg_stream_id: m.msg_stream_id,
        ext: start_ext(prev, m),
    }
}

/// The chunk encoder: the outbound chunk size and the per-csid history.
pub struct ChunkEncoder {
    chunk_size: u32,
    streams: HashMap<u32, ChunkWriteState>,
}

/// Mathematical image of the encoder.
#[verifier::ext_equal]
pub struct EncoderView {
    pub csize: u32,
    pub streams: Map<u32, ChunkWriteState>,
}

impl ChunkEncoder {
    pub closed spec fn model(&self) -> EncoderView {
        EncoderView { csize: self.chunk_size, streams: self.streams@ }
    }

    pub open spec fn wf(&self) -> bool {
        1 <= self.model().csize <= 0x7FFFFFFF
    }

    /// A fresh encoder with the default outbound chunk size of 128 and
    /// no history.
    pub fn new() -> (r: ChunkEncoder)
        ensures
            r.wf(),
            r.model().csize == 128,
            r.model().streams =~= Map::<u32, ChunkWriteState>::empty(),
    {
        ChunkEncoder { chunk_size: 128, streams: HashMap::new() }
    }

    /// Installs a new outbound chunk size; the caller must already have
    /// advertised it with a Set Chunk Size message.
    pub fn set_chunk_size(&mut self, s: u32)
        requires
            old(self).wf(),
            1 <= s <= 0x7FFFFFFF,
        ensures
            final(self).wf(),
            final(self).model().csize == s,
            final(self).model().streams == old(self).model().streams,
    {
        self.chunk_size = s;
    }

    pub fn chunk_size(&self) -> (r: u32)
        ensures
            r == self.model().csize,
    {
        self.chunk_size
    }

    /// Appends the basic header for `fmt` on `csid`.
    fn write_basic_header(w: &mut BytesWriter, fmt: u8, csid: u32)
        requires
            fmt <= 3,
            2 <= csid < 65600,
        ensures
            final(w)@ == old(w)@ + basic_header_bytes(fmt, csid),
    {
        if csid < 64 {
            w.write_u8((fmt << 6) | (csid as u8));
        } else if csid < 320 {
            w.write_u8(fmt << 6);
            w.write_u8((csid - 64) as u8);
            assert(w@ =~= old(w)@ + basic_header_bytes(fmt, csid));
        } else {
            w.write_u8((fmt << 6) | 1);
            w.write_u8(((csid - 64) & 0xFF) as u8);
            w.write_u8((((csid - 64) >> 8) & 0xFF) as u8);
            assert(w@ =~= old(w)@ + basic_header_bytes(fmt, csid));
        }
    }

    #[verifier::rlimit(100)]
    /// Fragments `m` into chunks on `csid` and appends their exact byte
    /// image to `w`, updating the stream history.
    pub fn encode_message(&mut self, w: &mut BytesWriter, m: &Message, csid: u32)
        requires
            old(self).wf(),
            m@.payload.len() < 0x1000000,
            2 <= csid < 65600,
        ensures
            final(self).wf(),
            final(self).model().csize == old(self).model().csize,
            final(self).model().streams == old(self).model().streams.insert(
                csid,
                next_write_state(
                    if old(self).model().streams.dom().contains(csid) {
                        Some(old(self).model().streams[csid])
                    } else {
                        Option::<ChunkWriteState>::None
                    },
                    m@,
                ),
            ),
            final(w)@ == old(w)@ + encode_msg_bytes(
                if old(self).model().streams.dom().contains(csid) {
                    Some(old(self).model().streams[csid])
                } else {
                    Option::<ChunkWriteState>::None
                },
                m@,
                csid,
                old(self).model().csize,
            ),
    {
        let ghost prev: Option<ChunkWriteState> = if old(self).model().streams.dom().contains(
            csid,
        ) {
            Some(old(self).model().streams[csid])
        } else {
            Option::<ChunkWriteState>::None
        };
        let prev_opt: Option<ChunkWriteState> = match self.streams.get(&csid) {
            Some(p) => Some(*p),
            None => None,
        };
        proof {
            assert(prev_opt == prev);
        }
        let len32: u32 = m.payload.len() as u32;
        let (fmt, v): (u8, u32) = match prev_opt {
            Some(p) => {
                if p.msg_stream_id != m.msg_stream_id || p.length != len32 || p.type_id
                    != m.type_id {
                    (0, m.timestamp)
                } else {
                    let d = m.timestamp.wrapping_sub(p.timestamp);
                    if d == p.delta {
                        (3, d)
                    } else {
                        (2, d)
                    }
                }
            },
            None => (0, m.timestamp),
        };
        let ext: bool = if fmt == 3 {
            match prev_opt {
                Some(p) => p.ext,
                None => false,
            }
        } else {
            v >= 0xFFFFFF
        };
        let tsf: u32 = if v >= 0xFFFFFF {
            0xFFFFFF
        } else {
            v
        };
        proof {
            assert(fmt == choose_fmt(prev, m@));
            assert(v == start_value(prev, m@));
            assert(ext == start_ext(prev, m@));
        }
        Self::write_basic_header(w, fmt, csid);
        if fmt == 0 {
            w.write_u24_be(tsf);
            w.write_u24_be(len32);
            w.write_u8(m.type_id);
            w.write_u32_le(m.msg_stream_id);
        } else if fmt == 2 {
            w.write_u24_be(tsf);
        }
        if ext {
            w.write_u32_be(v);
        }
        proof {
            assert(w@ =~= old(w)@ + start_header_bytes(prev, m@, csid));
        }
        let total = m.payload.len();
        let csize = self.chunk_size as usize;
        let end0: usize = if csize <= total {
            csize
        } else {
            total
        };
        w.write_bytes(vstd::slice::slice_subrange(m.payload.as_slice(), 0, end0));
        proof {
            assert(w@ =~= old(w)@ + start_header_bytes(prev, m@, csid) + m@.payload.subrange(
                0,
                end0 as int,
            ));
        }
        let mut pos: usize = end0;
        while pos < total
            invariant
                old(self).wf(),
                csize == old(self).model().csize,
                total == m@.payload.len(),
                total < 0x1000000,
                2 <= csid < 65600,
                pos <= total,
                w@ + cont_bytes(m@.payload, csize as u32, pos as int, csid, ext, v) == old(w)@
                    + encode_msg_bytes(prev, m@, csid, csize as u32),
            decreases total - pos,
        {
            let end: usize = if pos + csize <= total {
                pos + csize
            } else {
                total
            };
            let ghost w_before = w@;
            Self::write_basic_header(w, 3, csid);
            if ext {
                w.write_u32_be(v);
            }
            w.write_bytes(vstd::slice::slice_subrange(m.payload.as_slice(), pos, end));
            proof {
                assert(w@ =~= w_before + (basic_header_bytes(3, csid) + (if ext {
                    u32_be_bytes(v)
                } else {
                    Seq::<u8>::empty()
                }) + m@.payload.subrange(pos as int, end as int)));
                assert(cont_bytes(m@.payload, csize as u32, pos as int, csid, ext, v)
                    == basic_header_bytes(3, csid) + (if ext {
                    u32_be_bytes(v)
                } else {
                    Seq::<u8>::empty()
                }) + m@.payload.subrange(pos as int, end as int) + cont_bytes(
                    m@.payload,
                    csize as u32,
                    end as int,
                    csid,
                    ext,
                    v,
                ));
                assert(w@ + cont_bytes(m@.payload, csize as u32, end as int, csid, ext, v) =~= (
                w_before + cont_bytes(m@.payload, csize as u32, pos as int, csid, ext, v)));
            }
            pos = end;
        }
        let st2 = ChunkWriteState {
            timestamp: m.timestamp,
            delta: if fmt == 0 {
                0
            } else {
                v
            },
            length: len32,
            type_id: m.type_id,
            msg_stream_id: m.msg_stream_id,
            ext,
        };
        self.streams.insert(csid, st2);
        proof {
            assert(st2 == next_write_state(prev, m@));
            assert(cont_bytes(m@.payload, csize as u32, total as int, csid, ext, v)
                == Seq::<u8>::empty());
            assert(w@ =~= old(w)@ + encode_msg_bytes(prev, m@, csid, csize as u32));
        }
    }
}

} // verus!
