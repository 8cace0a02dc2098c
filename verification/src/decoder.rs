//! Chunk decoder: consumes the inbound byte queue, reconstructs full
//! messages from chunks across multiple chunk streams, and tracks the
//! per-chunk-stream prediction state. The whole step is modelled by the
//! spec function `decode_step`, and the executable decoder is proved to
//! follow it exactly; a step either consumes one whole chunk, asks for
//! more bytes while leaving everything untouched, or reports a malformed
//! stream.

use vstd::prelude::*;

use std::collections::HashMap;

use crate::bytesio::Reader;
use crate::bytesio::bytes_mut_new;
use crate::error::SessionError;
use crate::message::Message;
use crate::message::MessageView;
use crate::wire::u24_be_val;
use crate::wire::u32_be_val;
use crate::wire::u32_le_val;

verus! {

broadcast use vstd::std_specs::hash::group_hash_axioms;

/// Prediction state of one chunk stream: the fields announced by the
/// last full or partial header, and the partially assembled payload.
#[verifier::ext_equal]
pub struct StreamView {
    pub timestamp: u32,
    pub delta: u32,
    pub length: u32,
    pub type_id: u8,
    pub msg_stream_id: u32,
    pub acc: Seq<u8>,
    pub ext: bool,
}

/// The accumulator is empty (between messages) or strictly shorter than
/// the announced length (mid-message); a full accumulator is emitted and
/// cleared within the same step.
pub open spec fn stream_wf(st: StreamView) -> bool {
    st.acc.len() == 0 || st.acc.len() < st.length
}

/// Mathematical image of the decoder: the negotiated inbound chunk size
/// and the per-csid states.
#[verifier::ext_equal]
pub struct DecoderView {
    pub csize: u32,
    pub streams: Map<u32, StreamView>,
}

pub open spec fn decoder_view_wf(d: DecoderView) -> bool {
    &&& 1 <= d.csize <= 0x7FFFFFFF
    &&& forall|k: u32| d.streams.dom().contains(k) ==> stream_wf(#[trigger] d.streams[k])
}

/// The header format, from the two high bits of the basic header byte.
pub open spec fn fmt_of(b0: u8) -> u8 {
    b0 >> 6
}

/// How many bytes the basic header occupies (1, 2 or 3, for the three
/// csid ranges).
pub open spec fn basic_len_of(b0: u8) -> int {
    if b0 & 0x3F == 0 {
        2
    } else if b0 & 0x3F == 1 {
        3
    } else {
        1
    }
}

/// The chunk stream id carried by the basic header.
pub open spec fn csid_of(buf: Seq<u8>) -> u32
    recommends
        buf.len() >= basic_len_of(buf[0]),
{
    let c0 = buf[0] & 0x3F;
    if c0 == 0 {
        (64 + buf[1] as u32) as u32
    } else if c0 == 1 {
        (64 + buf[1] as u32 + 256 * (buf[2] as u32)) as u32
    } else {
        c0 as u32
    }
}

/// The length of the format-specific message header.
pub open spec fn msg_header_len_of(fmt: u8) -> int {
    if fmt == 0 {
        11
    } else if fmt == 1 {
        7
    } else if fmt == 2 {
        3
    } else {
        0
    }
}

/// Timestamp arithmetic is modulo 2^32.
pub open spec fn wrap_add(a: u32, b: u32) -> u32 {
    if a + b > u32::MAX {
        (a + b - 0x100000000) as u32
    } else {
        (a + b) as u32
    }
}

/// Outcome of offering the buffered bytes to the decoder.
pub enum StepResult {
    /// Not a whole chunk yet: consume nothing and yield.
    NeedMore,
    /// A fmt 1/2/3 chunk arrived on a chunk stream with no prior state.
    Malformed,
    /// One whole chunk was consumed: the new stream table, the bytes
    /// consumed, the payload-fragment length within them, and the
    /// message emitted if the chunk completed one.
    Step { streams: Map<u32, StreamView>, consumed: int, frag: int, emitted: Option<MessageView> },
}

/// One decoding step over the buffered bytes `buf`: the meaning of every
/// chunk header format, timestamp prediction, extended timestamps, and
/// payload accumulation up to the inbound chunk size.
#[verifier::opaque]
pub open spec fn decode_step(d: DecoderView, buf: Seq<u8>) -> StepResult
    recommends
        decoder_view_wf(d),
{
    if buf.len() < 1 {
        StepResult::NeedMore
    } else {
        let b0 = buf[0];
        let fmt = fmt_of(b0);
        let bl = basic_len_of(b0);
        if buf.len() < bl {
            StepResult::NeedMore
        } else {
            let csid = csid_of(buf);
            let has_state = d.streams.dom().contains(csid);
            if fmt != 0 && !has_state {
                StepResult::Malformed
            } else {
                let hl = msg_header_len_of(fmt);
                if buf.len() < bl + hl {
                    StepResult::NeedMore
                } else {
                    let prev = if has_state {
                        d.streams[csid]
                    } else {
                        StreamView {
                            timestamp: 0,
                            delta: 0,
                            length: 0,
                            type_id: 0,
                            msg_stream_id: 0,
                            acc: Seq::<u8>::empty(),
                            ext: false,
                        }
                    };
                    let tsf = if fmt <= 2 {
                        u24_be_val(buf[bl], buf[bl + 1], buf[bl + 2])
                    } else {
                        0
                    };
                    let ext = if fmt <= 2 {
                        tsf == 0xFFFFFF
                    } else {
                        prev.ext
                    };
                    let el: int = if ext {
                        4
                    } else {
                        0
                    };
                    if buf.len() < bl + hl + el {
                        StepResult::NeedMore
                    } else {
                        let ev = if ext {
                            u32_be_val(
                                buf[bl + hl],
                                buf[bl + hl + 1],
                                buf[bl + hl + 2],
                                buf[bl + hl + 3],
                            )
                        } else {
                            tsf
                        };
                        let length = if fmt <= 1 {
                            u24_be_val(buf[bl + 3], buf[bl + 4], buf[bl + 5])
                        } else {
                            prev.length
                        };
                        let type_id = if fmt <= 1 {
                            buf[bl + 6]
                        } else {
                            prev.type_id
                        };
                        let msid = if fmt == 0 {
                            u32_le_val(buf[bl + 7], buf[bl + 8], buf[bl + 9], buf[bl + 10])
                        } else {
                            prev.msg_stream_id
                        };
                        let timestamp = if fmt == 0 {
                            ev
                        } else if fmt <= 2 {
                            wrap_add(prev.timestamp, ev)
                        } else if prev.acc.len() == 0 {
                            wrap_add(prev.timestamp, prev.delta)
                        } else {
                            prev.timestamp
                        };
                        let delta = if fmt == 0 {
                            0u32
                        } else if fmt <= 2 {
                            ev
                        } else {
                            prev.delta
                        };
                        let acc0 = if fmt <= 2 {
                            Seq::<u8>::empty()
                        } else {
                            prev.acc
                        };
                        let rem = if acc0.len() <= length {
                            length - acc0.len()
                        } else {
                            0
                        };
                        let frag = if d.csize as int <= rem {
                            d.csize as int
                        } else {
                            rem
                        };
                        if buf.len() < bl + hl + el + frag {
                            StepResult::NeedMore
                        } else {
                            let payload = buf.subrange(bl + hl + el, bl + hl + el + frag);
                            let acc2 = acc0 + payload;
                            let complete = acc2.len() == length;
                            let st2 = StreamView {
                                timestamp,
                                delta,
                                length,
                                type_id,
                                msg_stream_id: msid,
                                acc: if complete {
                                    Seq::<u8>::empty()
                                } else {
                                    acc2
                                },
                                ext,
                            };
                            let emitted = if complete {
                                Some(
                                    MessageView {
                                        type_id,
                                        msg_stream_id: msid,
                                        timestamp,
                                        payload: acc2,
                                    },
                                )
                            } else {
                                Option::<MessageView>::None
                            };
                            StepResult::Step {
                                streams: d.streams.insert(csid, st2),
                                consumed: bl + hl + el + frag,
                                frag,
                                emitted,
                            }
                        }
                    }
                }
            }
        }
    }
}

/// Executable per-chunk-stream state.
pub struct ChunkReadState {
    pub timestamp: u32,
    pub delta: u32,
    pub length: u32,
    pub type_id: u8,
    pub msg_stream_id: u32,
    pub acc: Vec<u8>,
    pub ext: bool,
}

impl View for ChunkReadState {
    type V = StreamView;

    open spec fn view(&self) -> StreamView {
        StreamView {
            timestamp: self.timestamp,
            delta: self.delta,
            length: self.length,
            type_id: self.type_id,
            msg_stream_id: self.msg_stream_id,
            acc: self.acc@,
            ext: self.ext,
        }
    }
}

/// Lifts the executable stream table to its mathematical image.
pub open spec fn lift_streams(m: Map<u32, ChunkReadState>) -> Map<u32, StreamView> {
    Map::new(|k: u32| m.dom().contains(k), |k: u32| m[k]@)
}

/// The chunk decoder: the inbound byte queue, the negotiated inbound
/// chunk size (default 128) and the per-csid stream table.
pub struct ChunkDecoder {
    reader: Reader,
    chunk_size: u32,
    streams: HashMap<u32, ChunkReadState>,
}

impl ChunkDecoder {
    /// Bytes fed but not yet consumed.
    pub closed spec fn buffered(&self) -> Seq<u8> {
        self.reader@
    }

    /// The decoder's mathematical image.
    pub closed spec fn model(&self) -> DecoderView {
        DecoderView { csize: self.chunk_size, streams: lift_streams(self.streams@) }
    }

    pub open spec fn wf(&self) -> bool {
        decoder_view_wf(self.model())
    }

    /// A fresh decoder: chunk size 128, no stream state, nothing
    /// buffered.
    pub fn new() -> (r: ChunkDecoder)
        ensures
            r.wf(),
            r.model().csize == 128,
            r.model().streams =~= Map::<u32, StreamView>::empty(),
            r.buffered() == Seq::<u8>::empty(),
    {
        let r = ChunkDecoder {
            reader: Reader::new(bytes_mut_new()),
            chunk_size: 128,
            streams: HashMap::new(),
        };
        proof {
            assert(lift_streams(r.streams@) =~= Map::<u32, StreamView>::empty());
        }
        r
    }

    /// How many fed bytes wait in the inbound queue.
    pub fn buffered_len(&self) -> (r: usize)
        ensures
            r == self.buffered().len(),
    {
        self.reader.len()
    }

    /// The negotiated inbound chunk size.
    pub fn chunk_size_value(&self) -> (r: u32)
        ensures
            r == self.model().csize,
    {
        self.chunk_size
    }

    /// Installs the chunk size announced by an inbound Set Chunk Size.
    pub fn set_chunk_size(&mut self, s: u32)
        requires
            old(self).wf(),
            1 <= s <= 0x7FFFFFFF,
        ensures
            final(self).wf(),
            final(self).model().csize == s,
            final(self).model().streams == old(self).model().streams,
            final(self).buffered() == old(self).buffered(),
    {
        self.chunk_size = s;
        proof {
            assert(self.model().streams == old(self).model().streams);
            assert forall|k: u32| self.model().streams.dom().contains(k) implies stream_wf(
                self.model().streams[k],
            ) by {
                assert(stream_wf(old(self).model().streams[k]));
            }
        }
    }

    /// Appends transport bytes at the back of the inbound queue.
    pub fn feed(&mut self, data: &[u8])
        requires
            old(self).wf(),
        ensures
            final(self).wf(),
            final(self).model() == old(self).model(),
            final(self).buffered() == old(self).buffered() + data@,
    {
        self.reader.extend_from_slice(data);
    }

    /// Discards the partial payload accumulated on `csid` (the effect of
    /// an inbound Abort); prediction fields are preserved.
    pub fn abort_chunk_stream(&mut self, csid: u32)
        requires
            old(self).wf(),
        ensures
            final(self).wf(),
            final(self).model().csize == old(self).model().csize,
            final(self).buffered() == old(self).buffered(),
            old(self).model().streams.dom().contains(csid) ==> final(self).model().streams
                =~= old(self).model().streams.insert(
                csid,
                StreamView { acc: Seq::<u8>::empty(), ..old(self).model().streams[csid] },
            ),
            !old(self).model().streams.dom().contains(csid) ==> final(self).model().streams
                == old(self).model().streams,
    {
        match self.streams.remove(&csid) {
            Some(st) => {
                let st2 = ChunkReadState {
                    timestamp: st.timestamp,
                    delta: st.delta,
                    length: st.length,
                    type_id: st.type_id,
                    msg_stream_id: st.msg_stream_id,
                    acc: Vec::new(),
                    ext: st.ext,
                };
                self.streams.insert(csid, st2);
                proof {
                    assert(lift_streams(self.streams@) =~= lift_streams(old(self).streams@).insert(
                        csid,
                        StreamView { acc: Seq::<u8>::empty(), ..lift_streams(old(self).streams@)[csid] },
                    ));
                }
            },
            None => {
                proof {
                    assert(lift_streams(self.streams@) =~= lift_streams(old(self).streams@));
                }
            },
        }
    }

    /// Tries to consume exactly one chunk, following `decode_step` on
    /// the current state and buffered bytes: on `NeedMore` it returns
    /// `Ok(None)` leaving everything untouched, on a malformed stream it
    /// returns the protocol error, and on a full chunk it consumes it
    /// and returns the completed message if the chunk finished one.
    #[verifier::rlimit(100)]
    pub fn poll_message(&mut self) -> (r: Result<Option<Message>, SessionError>)
        requires
            old(self).wf(),
        ensures
            final(self).wf(),
            final(self).model().csize == old(self).model().csize,
            ({
                let step = decode_step(old(self).model(), old(self).buffered());
                match step {
                    StepResult::NeedMore => {
                        &&& r is Ok
                        &&& r->Ok_0 is None
                        &&& final(self).model() == old(self).model()
                        &&& final(self).buffered() == old(self).buffered()
                    },
                    StepResult::Malformed => {
                        &&& r is Err
                        &&& r->Err_0 is Protocol
                        &&& final(self).model() == old(self).model()
                        &&& final(self).buffered() == old(self).buffered()
                    },
                    StepResult::Step { streams, consumed, frag, emitted } => {
                        &&& r is Ok
                        &&& final(self).model().streams == streams
                        &&& final(self).buffered() == old(self).buffered().skip(consumed)
                        &&& (match emitted {
                            Some(mv) => r->Ok_0 matches Some(m) && m@ == mv,
                            None => r->Ok_0 is None,
                        })
                    },
                }
            }),
    {
        proof {
            reveal(decode_step);
        }
        let ghost d0 = old(self).model();
        let ghost buf0 = old(self).buffered();
        let avail = self.reader.len();
        if avail < 1 {
            proof {
                assert(decode_step(d0, buf0) is NeedMore);
            }
            return Ok(None);
        }
        let b0 = self.reader.byte_at(0);
        let fmt: u8 = b0 >> 6;
        let cs0: u8 = b0 & 0x3F;
        let bl: usize = if cs0 == 0 {
            2
        } else if cs0 == 1 {
            3
        } else {
            1
        };
        if avail < bl {
            proof {
                assert(decode_step(d0, buf0) is NeedMore);
            }
            return Ok(None);
        }
        let csid: u32 = if cs0 == 0 {
            64 + self.reader.byte_at(1) as u32
        } else if cs0 == 1 {
            64 + self.reader.byte_at(1) as u32 + 256 * (self.reader.byte_at(2) as u32)
        } else {
            cs0 as u32
        };
        let prev_opt = self.streams.get(&csid);
        let has_state = prev_opt.is_some();
        if fmt != 0 && !has_state {
            proof {
                assert(decode_step(d0, buf0) is Malformed);
            }
            return Err(SessionError::Protocol);
        }
        let (p_ts, p_delta, p_len, p_type, p_msid, p_ext, p_accn): (
            u32,
            u32,
            u32,
            u8,
            u32,
            bool,
            usize,
        ) = match prev_opt {
            Some(st) => (
                st.timestamp,
                st.delta,
                st.length,
                st.type_id,
                st.msg_stream_id,
                st.ext,
                st.acc.len(),
            ),
            None => (0, 0, 0, 0, 0, false, 0),
        };
        let hl: usize = if fmt == 0 {
            11
        } else if fmt == 1 {
            7
        } else if fmt == 2 {
            3
        } else {
            0
        };
        if avail < bl + hl {
            proof {
                assert(decode_step(d0, buf0) is NeedMore);
            }
            return Ok(None);
        }
        let tsf: u32 = if fmt <= 2 {
            ((self.reader.byte_at(bl) as u32) << 16) | ((self.reader.byte_at(bl + 1) as u32) << 8)
                | (self.reader.byte_at(bl + 2) as u32)
        } else {
            0
        };
        let ext: bool = if fmt <= 2 {
            tsf == 0xFFFFFF
        } else {
            p_ext
        };
        let el: usize = if ext {
            4
        } else {
            0
        };
        if avail < bl + hl + el {
            proof {
                assert(decode_step(d0, buf0) is NeedMore);
            }
            return Ok(None);
        }
        let ev: u32 = if ext {
            ((self.reader.byte_at(bl + hl) as u32) << 24) | ((self.reader.byte_at(
                bl + hl + 1,
            ) as u32) << 16) | ((self.reader.byte_at(bl + hl + 2) as u32) << 8) | (self.reader
                .byte_at(bl + hl + 3) as u32)
        } else {
            tsf
        };
        let length: u32 = if fmt <= 1 {
            ((self.reader.byte_at(bl + 3) as u32) << 16) | ((self.reader.byte_at(bl + 4) as u32)
                << 8) | (self.reader.byte_at(bl + 5) as u32)
        } else {
            p_len
        };
        let type_id: u8 = if fmt <= 1 {
            self.reader.byte_at(bl + 6)
        } else {
            p_type
        };
        let msid: u32 = if fmt == 0 {
            ((self.reader.byte_at(bl + 10) as u32) << 24) | ((self.reader.byte_at(bl + 9) as u32)
                << 16) | ((self.reader.byte_at(bl + 8) as u32) << 8) | (self.reader.byte_at(
                bl + 7,
            ) as u32)
        } else {
            p_msid
        };
        let timestamp: u32 = if fmt == 0 {
            ev
        } else if fmt <= 2 {
            p_ts.wrapping_add(ev)
        } else if p_accn == 0 {
            p_ts.wrapping_add(p_delta)
        } else {
            p_ts
        };
        let delta: u32 = if fmt == 0 {
            0
        } else if fmt <= 2 {
            ev
        } else {
            p_delta
        };
        let acc0_len: usize = if fmt <= 2 {
            0
        } else {
            p_accn
        };
        let rem: usize = if acc0_len <= length as usize {
            length as usize - acc0_len
        } else {
            0
        };
        let frag: usize = if self.chunk_size as usize <= rem {
            self.chunk_size as usize
        } else {
            rem
        };
        if avail < bl + hl + el + frag {
            proof {
                assert(decode_step(d0, buf0) is NeedMore);
            }
            return Ok(None);
        }
        self.reader.advance(bl + hl + el);
        let mut payload = self.reader.read_vec(frag);
        let mut acc: Vec<u8> = Vec::new();
        if fmt > 2 {
            match self.streams.remove(&csid) {
                Some(st) => {
                    acc = st.acc;
                },
                None => {
                    proof {
                        assert(false);
                    }
                },
            }
        }
        acc.append(&mut payload);
        let complete = acc.len() == length as usize;
        proof {
            assert(self.reader@ =~= old(self).buffered().skip((bl + hl + el + frag) as int));
            assert(acc@ =~= (if fmt <= 2 {
                Seq::<u8>::empty()
            } else {
                old(self).model().streams[csid].acc
            }) + old(self).buffered().subrange(
                bl + hl + el as int,
                bl + hl + el + frag as int,
            ));
        }
        if complete {
            let st2 = ChunkReadState {
                timestamp,
                delta,
                length,
                type_id,
                msg_stream_id: msid,
                acc: Vec::new(),
                ext,
            };
            self.streams.insert(csid, st2);
            proof {
                let step = decode_step(old(self).model(), old(self).buffered());
                assert(lift_streams(self.streams@) =~= step->Step_streams);
            }
            Ok(Some(Message { type_id, msg_stream_id: msid, timestamp, payload: acc }))
        } else {
            let st2 = ChunkReadState {
                timestamp,
                delta,
                length,
                type_id,
                msg_stream_id: msid,
                acc,
                ext,
            };
            self.streams.insert(csid, st2);
            proof {
                let step = decode_step(old(self).model(), old(self).buffered());
                assert(lift_streams(self.streams@) =~= step->Step_streams);
            }
            Ok(None)
        }
    }
}

} // verus!
