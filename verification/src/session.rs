//! Session core: owns the decoder/encoder pair and the negotiated
//! parameters, routes decoded control messages to the control handler,
//! accounts every received byte, and schedules acknowledgements against
//! the inbound window.

use vstd::prelude::*;

use crate::control::ControlMessages;
use crate::control::control_message_bytes;
use crate::decoder::ChunkDecoder;
use crate::decoder::DecoderView;
use crate::decoder::StepResult;
use crate::decoder::StreamView;
use crate::decoder::decode_step;
use crate::encoder::ChunkEncoder;
use crate::encoder::ChunkWriteState;
use crate::encoder::EncoderView;
use crate::encoder::encode_msg_bytes;
use crate::encoder::next_write_state;
use crate::error::SessionError;
use crate::message::MSG_TYPE_ACKNOWLEDGEMENT;
use crate::message::MSG_TYPE_WINDOW_ACK_SIZE;
use crate::message::Message;
use crate::message::MessageView;
use crate::message::is_control_type;
use crate::wire::BytesWriter;
use crate::wire::u32_be_val;

verus! {

/// Mathematical image of the session.
#[verifier::ext_equal]
pub struct SessionView {
    pub dec: DecoderView,
    pub enc: EncoderView,
    /// Inbound window acknowledgement size; 0 until the peer announces
    /// one.
    pub in_window: u32,
    /// Session-absolute count of bytes received from the transport.
    pub bytes_received: u64,
    /// The count at which the last acknowledgement was owed.
    pub bytes_at_last_ack: u64,
    /// The window last advertised to the peer via Set Peer Bandwidth.
    pub peer_window: u32,
    pub peer_limit_type: u8,
}

/// The `k` identical acknowledgement messages emitted in one accounting
/// pass, each carrying the current received count.
pub open spec fn ack_run(k: int, v: u32) -> Seq<u8>
    decreases k,
{
    if k <= 0 {
        Seq::<u8>::empty()
    } else {
        control_message_bytes(MSG_TYPE_ACKNOWLEDGEMENT, v) + ack_run(k - 1, v)
    }
}

/// The effect of one inbound control message on the session: the new
/// session state, the control bytes emitted in response, and the error
/// produced, if any. On an error the session is left as it was.
pub open spec fn control_step(pre: SessionView, mv: MessageView) -> (
    SessionView,
    Seq<u8>,
    Option<SessionError>,
) {
    if mv.type_id == 1 {
        if mv.payload.len() < 4 {
            (pre, Seq::<u8>::empty(), Some(SessionError::Protocol))
        } else {
            let v = u32_be_val(mv.payload[0], mv.payload[1], mv.payload[2], mv.payload[3]);
            if v == 0 || v > 0x7FFFFFFF {
                (pre, Seq::<u8>::empty(), Some(SessionError::Policy))
            } else {
                (
                    SessionView { dec: DecoderView { csize: v, ..pre.dec }, ..pre },
                    Seq::<u8>::empty(),
                    Option::<SessionError>::None,
                )
            }
        }
    } else if mv.type_id == 2 {
        if mv.payload.len() < 4 {
            (pre, Seq::<u8>::empty(), Some(SessionError::Protocol))
        } else {
            let cs = u32_be_val(mv.payload[0], mv.payload[1], mv.payload[2], mv.payload[3]);
            let streams2 = if pre.dec.streams.dom().contains(cs) {
                pre.dec.streams.insert(
                    cs,
                    StreamView { acc: Seq::<u8>::empty(), ..pre.dec.streams[cs] },
                )
            } else {
                pre.dec.streams
            };
            (
                SessionView { dec: DecoderView { streams: streams2, ..pre.dec }, ..pre },
                Seq::<u8>::empty(),
                Option::<SessionError>::None,
            )
        }
    } else if mv.type_id == 5 {
        if mv.payload.len() < 4 {
            (pre, Seq::<u8>::empty(), Some(SessionError::Protocol))
        } else {
            let v = u32_be_val(mv.payload[0], mv.payload[1], mv.payload[2], mv.payload[3]);
            (
                SessionView { in_window: v, ..pre },
                Seq::<u8>::empty(),
                Option::<SessionError>::None,
            )
        }
    } else if mv.type_id == 6 {
        if mv.payload.len() < 5 {
            (pre, Seq::<u8>::empty(), Some(SessionError::Protocol))
        } else {
            let w = u32_be_val(mv.payload[0], mv.payload[1], mv.payload[2], mv.payload[3]);
            let lt = mv.payload[4];
            let post = SessionView { peer_window: w, peer_limit_type: lt, ..pre };
            if w != pre.peer_window {
                (post, control_message_bytes(MSG_TYPE_WINDOW_ACK_SIZE, w), Option::<
                    SessionError,
                >::None)
            } else {
                (post, Seq::<u8>::empty(), Option::<SessionError>::None)
            }
        }
    } else {
        (pre, Seq::<u8>::empty(), Option::<SessionError>::None)
    }
}

/// The session core.
pub struct SessionCore {
    decoder: ChunkDecoder,
    encoder: ChunkEncoder,
    control: ControlMessages,
    in_window: u32,
    bytes_received: u64,
    bytes_at_last_ack: u64,
    peer_window: u32,
    peer_limit_type: u8,
}

impl SessionCore {
    pub closed spec fn model(&self) -> SessionView {
        SessionView {
            dec: self.decoder.model(),
            enc: self.encoder.model(),
            in_window: self.in_window,
            bytes_received: self.bytes_received,
            bytes_at_last_ack: self.bytes_at_last_ack,
            peer_window: self.peer_window,
            peer_limit_type: self.peer_limit_type,
        }
    }

    /// Inbound bytes fed to the decoder but not yet consumed.
    pub closed spec fn buffered(&self) -> Seq<u8> {
        self.decoder.buffered()
    }

    pub closed spec fn wf(&self) -> bool {
        &&& self.decoder.wf()
        &&& self.encoder.wf()
        &&& self.control@ == Seq::<u8>::empty()
        &&& self.bytes_at_last_ack <= self.bytes_received
    }

    /// A fresh session: both chunk sizes at the default 128, counters at
    /// zero, no window announced yet.
    pub fn new() -> (r: SessionCore)
        ensures
            r.wf(),
            r.model().dec.csize == 128,
            r.model().dec.streams =~= Map::<u32, StreamView>::empty(),
            r.model().enc.csize == 128,
            r.model().enc.streams =~= Map::<u32, ChunkWriteState>::empty(),
            r.model().in_window == 0,
            r.model().bytes_received == 0,
            r.model().bytes_at_last_ack == 0,
            r.model().peer_window == 0,
            r.buffered() == Seq::<u8>::empty(),
    {
        SessionCore {
            decoder: ChunkDecoder::new(),
            encoder: ChunkEncoder::new(),
            control: ControlMessages::new(BytesWriter::new()),
            in_window: 0,
            bytes_received: 0,
            bytes_at_last_ack: 0,
            peer_window: 0,
            peer_limit_type: 0,
        }
    }

    /// Accounts `n` received bytes and emits every acknowledgement now
    /// owed: one per full window the counter has advanced past, each
    /// carrying the current received count modulo 2^32.
    pub fn account_received(&mut self, n: u32, out: &mut BytesWriter) -> (acks: u64)
        requires
            old(self).wf(),
            old(self).model().bytes_received + n <= u64::MAX,
        ensures
            final(self).wf(),
            final(self).model().bytes_received == old(self).model().bytes_received + n,
            final(self).model() == (SessionView {
                bytes_received: final(self).model().bytes_received,
                bytes_at_last_ack: final(self).model().bytes_at_last_ack,
                ..old(self).model()
            }),
            final(self).buffered() == old(self).buffered(),
            old(self).model().in_window == 0 ==> acks == 0 && final(out)@ == old(out)@
                && final(self).model().bytes_at_last_ack == old(self).model().bytes_at_last_ack,
            old(self).model().in_window > 0 ==> ({
                let w = old(self).model().in_window as int;
                let p = old(self).model().bytes_received + n - old(
                    self,
                ).model().bytes_at_last_ack;
                &&& acks == p / w
                &&& final(self).model().bytes_at_last_ack == old(self).model().bytes_at_last_ack
                    + acks * w
                &&& final(self).model().bytes_received - final(self).model().bytes_at_last_ack
                    < w
                &&& final(out)@ == old(out)@ + ack_run(
                    acks as int,
                    (final(self).model().bytes_received % 0x100000000) as u32,
                )
            }),
    {
        self.bytes_received = self.bytes_received + n as u64;
        if self.in_window == 0 {
            return 0;
        }
        let w64: u64 = self.in_window as u64;
        let seq_no: u32 = (self.bytes_received % 0x100000000) as u32;
        let ghost p: int = self.bytes_received - self.bytes_at_last_ack;
        let mut acks: u64 = 0;
        while self.bytes_received - self.bytes_at_last_ack >= w64
            invariant
                old(self).wf(),
                w64 == old(self).model().in_window,
                w64 >= 1,
                seq_no == self.bytes_received % 0x100000000,
                self.bytes_received == old(self).model().bytes_received + n,
                self.bytes_at_last_ack <= self.bytes_received,
                self.bytes_at_last_ack == old(self).model().bytes_at_last_ack + acks * w64,
                p == self.bytes_received - old(self).model().bytes_at_last_ack,
                self.control@ == Seq::<u8>::empty(),
                self.decoder == old(self).decoder,
                self.encoder == old(self).encoder,
                self.in_window == old(self).model().in_window,
                self.peer_window == old(self).model().peer_window,
                self.peer_limit_type == old(self).model().peer_limit_type,
                out@ == old(out)@ + ack_run(acks as int, seq_no),
            decreases self.bytes_received - self.bytes_at_last_ack,
        {
            proof {
                assert(acks as int * w64 as int + w64 as int <= p);
                assert((acks as int + 1) * (w64 as int) == acks as int * w64 as int
                    + w64 as int) by (nonlinear_arith);
                assert((acks as int + 1) <= (acks as int + 1) * (w64 as int)) by (nonlinear_arith)
                    requires
                        w64 as int >= 1,
                        acks as int + 1 >= 1,
                ;
            }
            self.control.write_acknowledgement(seq_no);
            let bytes = self.control.take_bytes();
            out.write_bytes(bytes.as_slice());
            self.bytes_at_last_ack = self.bytes_at_last_ack + w64;
            acks = acks + 1;
            proof {
                lemma_ack_run_snoc(acks as int, seq_no);
            }
        }
        proof {
            let w = w64 as int;
            let r = self.bytes_received - self.bytes_at_last_ack;
            assert(p == acks * w + r);
            vstd::arithmetic::div_mod::lemma_fundamental_div_mod_converse(p, w, acks as int, r);
        }
        acks
    }

    /// Feeds transport bytes to the decoder and accounts them, emitting
    /// any acknowledgements owed; every received byte is accounted
    /// before any later control-message processing.
    pub fn receive_bytes(&mut self, data: &[u8], out: &mut BytesWriter) -> (acks: u64)
        requires
            old(self).wf(),
            data@.len() < 0x100000000,
            old(self).model().bytes_received + data@.len() <= u64::MAX,
        ensures
            final(self).wf(),
            final(self).buffered() == old(self).buffered() + data@,
            final(self).model().bytes_received == old(self).model().bytes_received
                + data@.len(),
            final(self).model() == (SessionView {
                bytes_received: final(self).model().bytes_received,
                bytes_at_last_ack: final(self).model().bytes_at_last_ack,
                ..old(self).model()
            }),
            old(self).model().in_window > 0 ==> ({
                let w = old(self).model().in_window as int;
                let p = old(self).model().bytes_received + data@.len() - old(
                    self,
                ).model().bytes_at_last_ack;
                &&& acks == p / w
                &&& final(self).model().bytes_received - final(self).model().bytes_at_last_ack
                    < w
                &&& final(out)@ == old(out)@ + ack_run(
                    acks as int,
                    (final(self).model().bytes_received % 0x100000000) as u32,
                )
            }),
            old(self).model().in_window == 0 ==> acks == 0 && final(out)@ == old(out)@,
    {
        self.decoder.feed(data);
        let n: usize = data.len();
        self.account_received(n as u32, out)
    }

    /// Applies one decoded control message: Set Chunk Size, Abort,
    /// Acknowledgement (informational), Window Acknowledgement Size or
    /// Set Peer Bandwidth, exactly as `control_step` states.
    pub fn handle_control_message(&mut self, m: &Message, out: &mut BytesWriter) -> (r: Result<
        (),
        SessionError,
    >)
        requires
            old(self).wf(),
            is_control_type(m@.type_id),
        ensures
            final(self).wf(),
            final(self).buffered() == old(self).buffered(),
            ({
                let (post, bytes, err) = control_step(old(self).model(), m@);
                match err {
                    Option::None => r is Ok && final(self).model() == post && final(out)@ == old(
                        out,
                    )@ + bytes,
                    Option::Some(e) => r is Err && r->Err_0 == e && final(self).model() == old(
                        self,
                    ).model() && final(out)@ == old(out)@,
                }
            }),
    {
        if m.type_id == 1 {
            if m.payload.len() < 4 {
                return Err(SessionError::Protocol);
            }
            let v: u32 = ((m.payload[0] as u32) << 24) | ((m.payload[1] as u32) << 16) | ((
            m.payload[2] as u32) << 8) | (m.payload[3] as u32);
            if v == 0 || v > 0x7FFFFFFF {
                return Err(SessionError::Policy);
            }
            self.decoder.set_chunk_size(v);
            Ok(())
        } else if m.type_id == 2 {
            if m.payload.len() < 4 {
                return Err(SessionError::Protocol);
            }
            let cs: u32 = ((m.payload[0] as u32) << 24) | ((m.payload[1] as u32) << 16) | ((
            m.payload[2] as u32) << 8) | (m.payload[3] as u32);
            self.decoder.abort_chunk_stream(cs);
            proof {
                let (post, bytes, err) = control_step(old(self).model(), m@);
                assert(self.model() =~= post);
            }
            Ok(())
        } else if m.type_id == 5 {
            if m.payload.len() < 4 {
                return Err(SessionError::Protocol);
            }
            let v: u32 = ((m.payload[0] as u32) << 24) | ((m.payload[1] as u32) << 16) | ((
            m.payload[2] as u32) << 8) | (m.payload[3] as u32);
            self.in_window = v;
            Ok(())
        } else if m.type_id == 6 {
            if m.payload.len() < 5 {
                return Err(SessionError::Protocol);
            }
            let w: u32 = ((m.payload[0] as u32) << 24) | ((m.payload[1] as u32) << 16) | ((
            m.payload[2] as u32) << 8) | (m.payload[3] as u32);
            let lt: u8 = m.payload[4];
            if w != self.peer_window {
                self.control.write_window_acknowledgement_size(w);
                let bytes = self.control.take_bytes();
                out.write_bytes(bytes.as_slice());
            }
            self.peer_window = w;
            self.peer_limit_type = lt;
            Ok(())
        } else {
            Ok(())
        }
    }

    /// Tries to decode one chunk and routes the result: control messages
    /// are applied to the session, other messages are handed upward.
    pub fn process_inbound(&mut self, out: &mut BytesWriter) -> (r: Result<
        Option<Message>,
        SessionError,
    >)
        requires
            old(self).wf(),
        ensures
            final(self).wf(),
            ({
                let step = decode_step(old(self).model().dec, old(self).buffered());
                match step {
                    StepResult::NeedMore => {
                        &&& r is Ok
                        &&& r->Ok_0 is None
                        &&& final(self).model() == old(self).model()
                        &&& final(self).buffered() == old(self).buffered()
                        &&& final(out)@ == old(out)@
                    },
                    StepResult::Malformed => {
                        &&& r is Err
                        &&& r->Err_0 is Protocol
                        &&& final(self).model() == old(self).model()
                        &&& final(self).buffered() == old(self).buffered()
                        &&& final(out)@ == old(out)@
                    },
                    StepResult::Step { streams, consumed, frag, emitted } => {
                        let mid = SessionView {
                            dec: DecoderView { streams, ..old(self).model().dec },
                            ..old(self).model()
                        };
                        &&& final(self).buffered() == old(self).buffered().skip(consumed)
                        &&& (match emitted {
                            Option::None => r is Ok && r->Ok_0 is None && final(self).model()
                                == mid && final(out)@ == old(out)@,
                            Option::Some(mv) => {
                                if !is_control_type(mv.type_id) {
                                    &&& r is Ok
                                    &&& r->Ok_0 matches Some(dm) && dm@ == mv
                                    &&& final(self).model() == mid
                                    &&& final(out)@ == old(out)@
                                } else {
                                    let (post, bytes, err) = control_step(mid, mv);
                                    match err {
                                        Option::None => r is Ok && r->Ok_0 is None
                                            && final(self).model() == post
                                            && final(out)@ == old(out)@ + bytes,
                                        Option::Some(e) => r is Err && r->Err_0 == e
                                            && final(self).model() == mid
                                            && final(out)@ == old(out)@,
                                    }
                                }
                            },
                        })
                    },
                }
            }),
    {
        let polled = self.decoder.poll_message();
        match polled {
            Err(e) => Err(e),
            Ok(None) => Ok(None),
            Ok(Some(msg)) => {
                if msg.is_control() {
                    match self.handle_control_message(&msg, out) {
                        Ok(()) => Ok(None),
                        Err(e) => Err(e),
                    }
                } else {
                    Ok(Some(msg))
                }
            },
        }
    }

    /// Fragments and frames an outbound message from a collaborator.
    pub fn send_outbound_message(&mut self, m: &Message, csid: u32, out: &mut BytesWriter)
        requires
            old(self).wf(),
            m@.payload.len() < 0x1000000,
            2 <= csid < 65600,
        ensures
            final(self).wf(),
            final(self).buffered() == old(self).buffered(),
            final(self).model() == (SessionView {
                enc: final(self).model().enc,
                ..old(self).model()
            }),
            final(self).model().enc.csize == old(self).model().enc.csize,
            final(self).model().enc.streams == old(self).model().enc.streams.insert(
                csid,
                next_write_state(
                    if old(self).model().enc.streams.dom().contains(csid) {
                        Some(old(self).model().enc.streams[csid])
                    } else {
                        Option::<ChunkWriteState>::None
                    },
                    m@,
                ),
            ),
            final(out)@ == old(out)@ + encode_msg_bytes(
                if old(self).model().enc.streams.dom().contains(csid) {
                    Some(old(self).model().enc.streams[csid])
                } else {
                    Option::<ChunkWriteState>::None
                },
                m@,
                csid,
                old(self).model().enc.csize,
            ),
    {
        self.encoder.encode_message(out, m, csid);
    }

    /// Advertises a new outbound chunk size with a Set Chunk Size
    /// message and only then installs it in the encoder, so no chunk
    /// ever uses an unannounced size.
    pub fn set_outbound_chunk_size(&mut self, s: u32, out: &mut BytesWriter)
        requires
            old(self).wf(),
            1 <= s <= 0x7FFFFFFF,
        ensures
            final(self).wf(),
            final(self).buffered() == old(self).buffered(),
            final(self).model() == (SessionView {
                enc: (EncoderView { csize: s, ..old(self).model().enc }),
                ..old(self).model()
            }),
            final(out)@ == old(out)@ + control_message_bytes(1, s),
    {
        assert(s & 0x7FFFFFFF == s) by (bit_vector)
            requires
                s <= 0x7FFFFFFF,
        ;
        self.control.write_set_chunk_size(s);
        let bytes = self.control.take_bytes();
        out.write_bytes(bytes.as_slice());
        self.encoder.set_chunk_size(s);
    }

    /// How many fed bytes wait in the inbound queue.
    pub fn buffered_len(&self) -> (r: usize)
        ensures
            r == self.buffered().len(),
    {
        self.decoder.buffered_len()
    }

    pub fn inbound_chunk_size(&self) -> (r: u32)
        ensures
            r == self.model().dec.csize,
    {
        self.decoder.chunk_size_value()
    }

    pub fn bytes_received_total(&self) -> (r: u64)
        ensures
            r == self.model().bytes_received,
    {
        self.bytes_received
    }

    pub fn inbound_window(&self) -> (r: u32)
        ensures
            r == self.model().in_window,
    {
        self.in_window
    }
}

/// Appending one more acknowledgement to a run of `k - 1` gives the run
/// of `k`.
proof fn lemma_ack_run_snoc(k: int, v: u32)
    requires
        k >= 1,
    ensures
        ack_run(k - 1, v) + control_message_bytes(MSG_TYPE_ACKNOWLEDGEMENT, v) == ack_run(k, v),
    decreases k,
{
    if k == 1 {
        assert(ack_run(0, v) + control_message_bytes(MSG_TYPE_ACKNOWLEDGEMENT, v) =~= ack_run(
            1,
            v,
        ));
    } else {
        lemma_ack_run_snoc(k - 1, v);
        assert(ack_run(k - 1, v) + control_message_bytes(MSG_TYPE_ACKNOWLEDGEMENT, v) =~= ack_run(
            k,
            v,
        ));
    }
}

} // verus!
