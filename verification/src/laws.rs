//! The chunk-layer laws: the bounds and round-trip properties the
//! encoder, decoder and acknowledgement scheduler are held to, stated
//! over the same spec functions their contracts use.

use vstd::prelude::*;

use crate::decoder::DecoderView;
use crate::decoder::StepResult;
use crate::decoder::StreamView;
use crate::decoder::basic_len_of;
use crate::decoder::csid_of;
use crate::decoder::decode_step;
use crate::decoder::decoder_view_wf;
use crate::decoder::fmt_of;
use crate::decoder::stream_wf;
use crate::decoder::wrap_add;
use crate::encoder::ChunkWriteState;
use crate::encoder::basic_header_bytes;
use crate::encoder::choose_fmt;
use crate::encoder::cont_bytes;
use crate::encoder::encode_msg_bytes;
use crate::encoder::start_ext;
use crate::encoder::start_header_bytes;
use crate::encoder::start_value;
use crate::encoder::wrap_sub;
use crate::message::MessageView;
use crate::wire::lemma_u24_be_roundtrip;
use crate::wire::lemma_u32_be_roundtrip;
use crate::wire::lemma_u32_le_roundtrip;
use crate::wire::u24_be_bytes;
use crate::wire::u32_be_bytes;
use crate::wire::u32_le_bytes;

verus! {

/// Result of running the decoder until it yields or fails.
pub enum RunResult {
    /// The decoder consumed whole chunks as long as it could, emitted
    /// `msgs` in order, and now waits on `rest`.
    Done { d: DecoderView, rest: Seq<u8>, msgs: Seq<MessageView> },
    /// The stream turned out malformed after emitting `msgs`.
    Bad { msgs: Seq<MessageView> },
}

/// The messages an emitted option contributes.
pub open spec fn emitted_seq(e: Option<MessageView>) -> Seq<MessageView> {
    match e {
        Option::Some(mv) => seq![mv],
        Option::None => Seq::<MessageView>::empty(),
    }
}

/// Runs `decode_step` repeatedly until the decoder needs more bytes or
/// the stream is malformed: the observable behaviour of draining the
/// buffer.
pub open spec fn run_decoder(d: DecoderView, buf: Seq<u8>) -> RunResult
    decreases buf.len(),
{
    match decode_step(d, buf) {
        StepResult::NeedMore => RunResult::Done { d, rest: buf, msgs: Seq::<MessageView>::empty() },
        StepResult::Malformed => RunResult::Bad { msgs: Seq::<MessageView>::empty() },
        StepResult::Step { streams, consumed, frag, emitted } => {
            if 1 <= consumed <= buf.len() {
                let d2 = DecoderView { csize: d.csize, streams };
                match run_decoder(d2, buf.skip(consumed)) {
                    RunResult::Done { d: d3, rest, msgs } => RunResult::Done {
                        d: d3,
                        rest,
                        msgs: emitted_seq(emitted) + msgs,
                    },
                    RunResult::Bad { msgs } => RunResult::Bad {
                        msgs: emitted_seq(emitted) + msgs,
                    },
                }
            } else {
                RunResult::Done { d, rest: buf, msgs: Seq::<MessageView>::empty() }
            }
        },
    }
}

/// A consumed chunk is at least one byte and never more than what is
/// buffered, so running the decoder terminates.
pub proof fn lemma_step_consumed_bounds(d: DecoderView, buf: Seq<u8>)
    ensures
        match decode_step(d, buf) {
            StepResult::Step { streams, consumed, frag, emitted } => 1 <= consumed <= buf.len()
                && 0 <= frag,
            _ => true,
        },
{
    reveal(decode_step);
}

/// A decoding step keeps every stream state well formed.
pub proof fn lemma_step_preserves_wf(d: DecoderView, buf: Seq<u8>)
    requires
        decoder_view_wf(d),
    ensures
        match decode_step(d, buf) {
            StepResult::Step { streams, consumed, frag, emitted } => decoder_view_wf(
                DecoderView { csize: d.csize, streams },
            ),
            _ => true,
        },
{
    reveal(decode_step);
    match decode_step(d, buf) {
        StepResult::Step { streams, consumed, frag, emitted } => {
            let d2 = DecoderView { csize: d.csize, streams };
            assert forall|k: u32| d2.streams.dom().contains(k) implies stream_wf(
                #[trigger] d2.streams[k],
            ) by {
                if d.streams.dom().contains(k) {
                    assert(stream_wf(d.streams[k]));
                }
            }
        },
        _ => {},
    }
}

/// Once the inbound chunk size is `csize`, no chunk the decoder accepts
/// carries a payload fragment longer than `csize` bytes.
pub proof fn lemma_fragment_at_most_chunk_size(d: DecoderView, buf: Seq<u8>)
    requires
        decoder_view_wf(d),
    ensures
        match decode_step(d, buf) {
            StepResult::Step { streams, consumed, frag, emitted } => 0 <= frag <= d.csize,
            _ => true,
        },
{
    reveal(decode_step);
}

/// Timestamp arithmetic is modulo 2^32: the wrapped sum is the
/// mathematical sum reduced mod 2^32.
pub proof fn lemma_timestamp_arithmetic_is_mod(a: u32, b: u32)
    ensures
        wrap_add(a, b) == (a + b) % 0x100000000,
{
    if a + b > u32::MAX {
        assert((a + b) % 0x100000000 == a + b - 0x100000000) by (nonlinear_arith)
            requires
                u32::MAX < a + b < 0x200000000,
        ;
    } else {
        assert((a + b) % 0x100000000 == a + b) by (nonlinear_arith)
            requires
                0 <= a + b <= u32::MAX,
        ;
    }
}

/// A start header (fmt 0 or fmt 2) writes 0xFFFFFF in its 3-byte
/// timestamp field exactly when the 4-byte extended timestamp block
/// follows, and that block carries the true value.
pub proof fn lemma_extended_timestamp_on_emit(
    prev: Option<ChunkWriteState>,
    m: MessageView,
    csid: u32,
)
    requires
        2 <= csid < 65600,
        choose_fmt(prev, m) == 0 || choose_fmt(prev, m) == 2,
    ensures
        ({
            let hdr = start_header_bytes(prev, m, csid);
            let bl = basic_header_bytes(choose_fmt(prev, m), csid).len() as int;
            let v = start_value(prev, m);
            &&& (hdr.subrange(bl, bl + 3) == u24_be_bytes(0xFFFFFF) <==> start_ext(prev, m))
            &&& (start_ext(prev, m) ==> hdr.subrange(hdr.len() - 4, hdr.len() as int)
                == u32_be_bytes(v))
        }),
{
    let hdr = start_header_bytes(prev, m, csid);
    let bl = basic_header_bytes(choose_fmt(prev, m), csid).len() as int;
    let v = start_value(prev, m);
    let tsf: u32 = if v >= 0xFFFFFF {
        0xFFFFFF
    } else {
        v
    };
    assert(hdr.subrange(bl, bl + 3) =~= u24_be_bytes(tsf));
    if v < 0xFFFFFF {
        lemma_u24_be_roundtrip(tsf);
        lemma_u24_be_roundtrip(0xFFFFFF);
        assert(u24_be_bytes(tsf) != u24_be_bytes(0xFFFFFF));
    } else {
        assert(start_ext(prev, m));
        assert(hdr.subrange(hdr.len() - 4, hdr.len() as int) =~= u32_be_bytes(v));
    }
}

/// A basic header parses back to the format and chunk stream id it was
/// built from, whatever bytes follow it.
pub proof fn lemma_basic_header_parse(fmt: u8, csid: u32, rest: Seq<u8>)
    requires
        fmt <= 3,
        2 <= csid < 65600,
    ensures
        ({
            let h = basic_header_bytes(fmt, csid);
            let buf = h + rest;
            &&& h.len() == basic_len_of(buf[0])
            &&& fmt_of(buf[0]) == fmt
            &&& csid_of(buf) == csid
        }),
{
    let h = basic_header_bytes(fmt, csid);
    let buf = h + rest;
    if csid < 64 {
        let c: u8 = csid as u8;
        assert(buf[0] == ((fmt << 6) | c));
        assert((((fmt << 6) | c) >> 6) == fmt && (((fmt << 6) | c) & 0x3F) == c) by (bit_vector)
            requires
                fmt <= 3,
                c < 64,
        ;
    } else if csid < 320 {
        assert(buf[0] == (fmt << 6) && buf[1] == (csid - 64) as u8);
        assert(((fmt << 6) >> 6) == fmt && ((fmt << 6) & 0x3F) == 0) by (bit_vector)
            requires
                fmt <= 3,
        ;
    } else {
        let x: u32 = (csid - 64) as u32;
        assert(buf[0] == ((fmt << 6) | 1) && buf[1] == (x & 0xFF) as u8 && buf[2] == ((x >> 8)
            & 0xFF) as u8);
        assert((((fmt << 6) | 1u8) >> 6) == fmt && (((fmt << 6) | 1u8) & 0x3F) == 1) by (bit_vector)
            requires
                fmt <= 3,
        ;
        assert(64 + (((x & 0xFF) as u8) as u32) + 256 * ((((x >> 8) & 0xFF) as u8) as u32) == 64
            + x) by (bit_vector)
            requires
                x < 65536,
        ;
    }
}

/// Decoding the byte image of a message emitted on a fresh chunk stream
/// peels off exactly its first chunk: a fmt 0 header announcing the
/// message's fields, then up to one chunk size of payload.
#[verifier::rlimit(100)]
pub proof fn lemma_decode_start_chunk(d: DecoderView, m: MessageView, csid: u32)
    requires
        decoder_view_wf(d),
        2 <= csid < 65600,
        m.payload.len() < 0x1000000,
    ensures
        ({
            let enc = encode_msg_bytes(Option::<ChunkWriteState>::None, m, csid, d.csize);
            let ext = m.timestamp >= 0xFFFFFF;
            let hlen = basic_header_bytes(0, csid).len() + 11 + (if ext {
                4int
            } else {
                0int
            });
            let end0 = if d.csize as int <= m.payload.len() {
                d.csize as int
            } else {
                m.payload.len() as int
            };
            let complete = end0 == m.payload.len();
            decode_step(d, enc) == (StepResult::Step {
                streams: d.streams.insert(
                    csid,
                    StreamView {
                        timestamp: m.timestamp,
                        delta: 0,
                        length: m.payload.len() as u32,
                        type_id: m.type_id,
                        msg_stream_id: m.msg_stream_id,
                        acc: if complete {
                            Seq::<u8>::empty()
                        } else {
                            m.payload.take(end0)
                        },
                        ext,
                    },
                ),
                consumed: hlen + end0,
                frag: end0,
                emitted: if complete {
                    Some(m)
                } else {
                    Option::<MessageView>::None
                },
            })
        }),
{
    reveal(decode_step);
    let enc = encode_msg_bytes(Option::<ChunkWriteState>::None, m, csid, d.csize);
    let ext = m.timestamp >= 0xFFFFFF;
    let len32: u32 = m.payload.len() as u32;
    let tsf: u32 = if ext {
        0xFFFFFF
    } else {
        m.timestamp
    };
    let h = basic_header_bytes(0, csid);
    let end0 = if d.csize as int <= m.payload.len() {
        d.csize as int
    } else {
        m.payload.len() as int
    };
    let mid = u24_be_bytes(tsf) + u24_be_bytes(len32) + seq![m.type_id] + u32_le_bytes(
        m.msg_stream_id,
    );
    let extb = if ext {
        u32_be_bytes(m.timestamp)
    } else {
        Seq::<u8>::empty()
    };
    let frag0 = m.payload.subrange(0, end0);
    let cont = cont_bytes(m.payload, d.csize, end0, csid, ext, m.timestamp);
    let rest = mid + extb + frag0 + cont;
    assert(choose_fmt(Option::<ChunkWriteState>::None, m) == 0);
    assert(start_value(Option::<ChunkWriteState>::None, m) == m.timestamp);
    assert(start_ext(Option::<ChunkWriteState>::None, m) == ext);
    assert(enc =~= h + rest);
    lemma_basic_header_parse(0, csid, rest);
    let bl = h.len() as int;
    assert(enc[bl] == u24_be_bytes(tsf)[0] && enc[bl + 1] == u24_be_bytes(tsf)[1] && enc[bl + 2]
        == u24_be_bytes(tsf)[2]);
    lemma_u24_be_roundtrip(tsf);
    lemma_u24_be_roundtrip(0xFFFFFF);
    assert(enc[bl + 3] == u24_be_bytes(len32)[0] && enc[bl + 4] == u24_be_bytes(len32)[1] && enc[bl
        + 5] == u24_be_bytes(len32)[2]);
    lemma_u24_be_roundtrip(len32);
    assert(enc[bl + 6] == m.type_id);
    assert(enc[bl + 7] == u32_le_bytes(m.msg_stream_id)[0] && enc[bl + 8] == u32_le_bytes(
        m.msg_stream_id,
    )[1] && enc[bl + 9] == u32_le_bytes(m.msg_stream_id)[2] && enc[bl + 10] == u32_le_bytes(
        m.msg_stream_id,
    )[3]);
    lemma_u32_le_roundtrip(m.msg_stream_id);
    if ext {
        assert(enc[bl + 11] == u32_be_bytes(m.timestamp)[0] && enc[bl + 12] == u32_be_bytes(
            m.timestamp,
        )[1] && enc[bl + 13] == u32_be_bytes(m.timestamp)[2] && enc[bl + 14] == u32_be_bytes(
            m.timestamp,
        )[3]);
        lemma_u32_be_roundtrip(m.timestamp);
    }
    let el: int = if ext {
        4
    } else {
        0
    };
    assert(enc.len() == bl + 11 + el + end0 + cont.len());
    assert(enc.subrange(bl + 11 + el, bl + 11 + el + end0) =~= frag0);
    match decode_step(d, enc) {
        StepResult::Step { streams, consumed, frag, emitted } => {
            let st = StreamView {
                timestamp: m.timestamp,
                delta: 0,
                length: len32,
                type_id: m.type_id,
                msg_stream_id: m.msg_stream_id,
                acc: if end0 == m.payload.len() {
                    Seq::<u8>::empty()
                } else {
                    m.payload.take(end0)
                },
                ext,
            };
            assert(Seq::<u8>::empty() + frag0 =~= m.payload.take(end0));
            if end0 == m.payload.len() {
                assert(m.payload.take(end0) =~= m.payload);
                assert(emitted matches Some(mv) && mv =~= m);
            }
            assert(streams =~= d.streams.insert(csid, st));
        },
        _ => {
            assert(false);
        },
    }
}

/// Feeding the decoder the fmt 3 continuations of a message it has
/// partially accumulated completes exactly that message, leaves no
/// bytes over, and clears the accumulator while keeping the prediction
/// fields.
#[verifier::rlimit(100)]
pub proof fn lemma_run_continuations(
    d: DecoderView,
    payload: Seq<u8>,
    pos: int,
    csid: u32,
    ext: bool,
    ev: u32,
)
    requires
        decoder_view_wf(d),
        2 <= csid < 65600,
        payload.len() < 0x1000000,
        1 <= pos < payload.len(),
        d.streams.dom().contains(csid),
        d.streams[csid].acc == payload.take(pos),
        d.streams[csid].length == payload.len(),
        d.streams[csid].ext == ext,
    ensures
        ({
            let st = d.streams[csid];
            run_decoder(d, cont_bytes(payload, d.csize, pos, csid, ext, ev)) == (RunResult::Done {
                d: DecoderView {
                    csize: d.csize,
                    streams: d.streams.insert(
                        csid,
                        StreamView { acc: Seq::<u8>::empty(), ..st },
                    ),
                },
                rest: Seq::<u8>::empty(),
                msgs: seq![
                    MessageView {
                        type_id: st.type_id,
                        msg_stream_id: st.msg_stream_id,
                        timestamp: st.timestamp,
                        payload,
                    },
                ],
            })
        }),
    decreases payload.len() - pos,
{
    reveal(decode_step);
    let buf = cont_bytes(payload, d.csize, pos, csid, ext, ev);
    let end = if pos + d.csize <= payload.len() {
        pos + d.csize as int
    } else {
        payload.len() as int
    };
    let h = basic_header_bytes(3, csid);
    let extb = if ext {
        u32_be_bytes(ev)
    } else {
        Seq::<u8>::empty()
    };
    let fragb = payload.subrange(pos, end);
    let tail = cont_bytes(payload, d.csize, end, csid, ext, ev);
    let rest = extb + fragb + tail;
    assert(buf =~= h + rest);
    lemma_basic_header_parse(3, csid, rest);
    let bl = h.len() as int;
    let el: int = if ext {
        4
    } else {
        0
    };
    assert(buf.subrange(bl + el, bl + el + (end - pos)) =~= fragb);
    let st = d.streams[csid];
    match decode_step(d, buf) {
        StepResult::Step { streams, consumed, frag, emitted } => {
            lemma_step_preserves_wf(d, buf);
            lemma_step_consumed_bounds(d, buf);
            assert(frag == end - pos);
            assert(consumed == bl + el + (end - pos));
            assert(st.acc + fragb =~= payload.take(end));
            let msg = MessageView {
                type_id: st.type_id,
                msg_stream_id: st.msg_stream_id,
                timestamp: st.timestamp,
                payload,
            };
            if end == payload.len() {
                assert(payload.take(end) =~= payload);
                assert(emitted matches Some(mv) && mv =~= msg);
                assert(buf.skip(consumed) =~= Seq::<u8>::empty());
                let d2 = DecoderView { csize: d.csize, streams };
                assert(run_decoder(d2, Seq::<u8>::empty()) == (RunResult::Done {
                    d: d2,
                    rest: Seq::<u8>::empty(),
                    msgs: Seq::<MessageView>::empty(),
                }));
                assert(emitted_seq(emitted) + Seq::<MessageView>::empty() =~= seq![msg]);
                assert(streams =~= d.streams.insert(
                    csid,
                    StreamView { acc: Seq::<u8>::empty(), ..st },
                ));
            } else {
                let d2 = DecoderView { csize: d.csize, streams };
                assert(emitted is None);
                assert(buf.skip(consumed) =~= tail);
                assert(streams =~= d.streams.insert(
                    csid,
                    StreamView { acc: payload.take(end), ..st },
                ));
                assert(d2.streams[csid].acc == payload.take(end));
                assert(d2.streams[csid].length == payload.len());
                assert(d2.streams[csid].ext == ext);
                lemma_run_continuations(d2, payload, end, csid, ext, ev);
                let st2 = d2.streams[csid];
                assert(StreamView { acc: Seq::<u8>::empty(), ..st2 } =~= StreamView {
                    acc: Seq::<u8>::empty(),
                    ..st
                });
                assert(d2.streams.insert(csid, StreamView { acc: Seq::<u8>::empty(), ..st2 })
                    =~= d.streams.insert(csid, StreamView { acc: Seq::<u8>::empty(), ..st }));
                assert(MessageView {
                    type_id: st2.type_id,
                    msg_stream_id: st2.msg_stream_id,
                    timestamp: st2.timestamp,
                    payload,
                } =~= msg);
                assert(emitted_seq(emitted) + seq![msg] =~= seq![msg]);
            }
        },
        _ => {
            assert(false);
        },
    }
}

/// A decoding step is stable under appending bytes: a chunk already
/// consumed, or a malformed verdict already reached, is unchanged by
/// whatever arrives later.
pub proof fn lemma_decode_step_extension(d: DecoderView, buf: Seq<u8>, more: Seq<u8>)
    ensures
        decode_step(d, buf) matches StepResult::Step { streams, consumed, frag, emitted }
            ==> decode_step(d, buf + more) == decode_step(d, buf),
        decode_step(d, buf) is Malformed ==> decode_step(d, buf + more) is Malformed,
{
    reveal(decode_step);
    let ebuf = buf + more;
    if buf.len() >= 1 {
        assert(ebuf[0] == buf[0]);
        let bl = basic_len_of(buf[0]);
        if buf.len() >= bl {
            assert(csid_of(ebuf) == csid_of(buf));
            match decode_step(d, buf) {
                StepResult::Step { streams, consumed, frag, emitted } => {
                    assert(ebuf.subrange(consumed - frag, consumed) =~= buf.subrange(
                        consumed - frag,
                        consumed,
                    ));
                },
                _ => {},
            }
        }
    }
}

/// Decoder output is independent of how the byte stream is split across
/// reads: draining `a` and then `b` emits the same messages, reaches the
/// same state and leaves the same bytes as draining `a + b` at once,
/// and a malformed verdict is the same either way.
pub proof fn lemma_refragmentation_independent(d: DecoderView, a: Seq<u8>, b: Seq<u8>)
    ensures
        ({
            match run_decoder(d, a) {
                RunResult::Done { d: d1, rest, msgs } => run_decoder(d, a + b) == (match run_decoder(
                    d1,
                    rest + b,
                ) {
                    RunResult::Done { d: d2, rest: r2, msgs: m2 } => RunResult::Done {
                        d: d2,
                        rest: r2,
                        msgs: msgs + m2,
                    },
                    RunResult::Bad { msgs: m2 } => RunResult::Bad { msgs: msgs + m2 },
                }),
                RunResult::Bad { msgs } => run_decoder(d, a + b) == RunResult::Bad { msgs },
            }
        }),
    decreases a.len(),
{
    reveal(decode_step);
    lemma_decode_step_extension(d, a, b);
    match decode_step(d, a) {
        StepResult::NeedMore => {
            match run_decoder(d, a + b) {
                RunResult::Done { d: d2, rest: r2, msgs: m2 } => {
                    assert(Seq::<MessageView>::empty() + m2 =~= m2);
                },
                RunResult::Bad { msgs: m2 } => {
                    assert(Seq::<MessageView>::empty() + m2 =~= m2);
                },
            }
        },
        StepResult::Malformed => {
            assert(run_decoder(d, a) == RunResult::Bad { msgs: Seq::<MessageView>::empty() });
            assert(run_decoder(d, a + b) == RunResult::Bad {
                msgs: Seq::<MessageView>::empty(),
            });
        },
        StepResult::Step { streams, consumed, frag, emitted } => {
            lemma_step_consumed_bounds(d, a);
            let d2 = DecoderView { csize: d.csize, streams };
            assert((a + b).skip(consumed) =~= a.skip(consumed) + b);
            lemma_refragmentation_independent(d2, a.skip(consumed), b);
            let e = emitted_seq(emitted);
            match run_decoder(d2, a.skip(consumed)) {
                RunResult::Done { d: d1, rest, msgs } => {
                    assert(run_decoder(d, a) == (RunResult::Done {
                        d: d1,
                        rest,
                        msgs: e + msgs,
                    }));
                    match run_decoder(d1, rest + b) {
                        RunResult::Done { d: d3, rest: r3, msgs: m3 } => {
                            assert(e + (msgs + m3) =~= (e + msgs) + m3);
                        },
                        RunResult::Bad { msgs: m3 } => {
                            assert(e + (msgs + m3) =~= (e + msgs) + m3);
                        },
                    }
                },
                RunResult::Bad { msgs } => {
                    assert(run_decoder(d, a) == RunResult::Bad { msgs: e + msgs });
                    assert(run_decoder(d, a + b) == RunResult::Bad { msgs: e + msgs });
                },
            }
        },
    }
}

/// The decoder's stream state and the encoder's history agree: same
/// prediction fields, no payload in flight.
pub open spec fn stream_sync(st: StreamView, p: ChunkWriteState) -> bool {
    &&& st.timestamp == p.timestamp
    &&& st.delta == p.delta
    &&& st.length == p.length
    &&& st.type_id == p.type_id
    &&& st.msg_stream_id == p.msg_stream_id
    &&& st.ext == p.ext
    &&& st.acc.len() == 0
}

/// Adding back a wrapped difference restores the original timestamp.
pub proof fn lemma_wrap_add_sub(a: u32, b: u32)
    ensures
        wrap_add(a, wrap_sub(b, a)) == b,
{
}

/// Decoding the byte image of a message emitted on a chunk stream whose
/// decoder state agrees with the encoder history peels off exactly its
/// start chunk (fmt 2 or fmt 3), reconstructing the message's announced
/// fields from the prediction state.
#[verifier::rlimit(100)]
pub proof fn lemma_decode_start_chunk_known(
    d: DecoderView,
    p: ChunkWriteState,
    m: MessageView,
    csid: u32,
)
    requires
        decoder_view_wf(d),
        2 <= csid < 65600,
        m.payload.len() < 0x1000000,
        d.streams.dom().contains(csid),
        stream_sync(d.streams[csid], p),
        choose_fmt(Some(p), m) != 0,
    ensures
        ({
            let prev = Some(p);
            let enc = encode_msg_bytes(prev, m, csid, d.csize);
            let ext = start_ext(prev, m);
            let hlen = start_header_bytes(prev, m, csid).len() as int;
            let end0 = if d.csize as int <= m.payload.len() {
                d.csize as int
            } else {
                m.payload.len() as int
            };
            let complete = end0 == m.payload.len();
            decode_step(d, enc) == (StepResult::Step {
                streams: d.streams.insert(
                    csid,
                    StreamView {
                        timestamp: m.timestamp,
                        delta: start_value(prev, m),
                        length: m.payload.len() as u32,
                        type_id: m.type_id,
                        msg_stream_id: m.msg_stream_id,
                        acc: if complete {
                            Seq::<u8>::empty()
                        } else {
                            m.payload.take(end0)
                        },
                        ext,
                    },
                ),
                consumed: hlen + end0,
                frag: end0,
                emitted: if complete {
                    Some(m)
                } else {
                    Option::<MessageView>::None
                },
            })
        }),
{
    reveal(decode_step);
    let prev = Some(p);
    let fmt = choose_fmt(prev, m);
    let enc = encode_msg_bytes(prev, m, csid, d.csize);
    let v = start_value(prev, m);
    let ext = start_ext(prev, m);
    let tsf: u32 = if v >= 0xFFFFFF {
        0xFFFFFF
    } else {
        v
    };
    let h = basic_header_bytes(fmt, csid);
    let end0 = if d.csize as int <= m.payload.len() {
        d.csize as int
    } else {
        m.payload.len() as int
    };
    let mid = if fmt == 2 {
        u24_be_bytes(tsf)
    } else {
        Seq::<u8>::empty()
    };
    let extb = if ext {
        u32_be_bytes(v)
    } else {
        Seq::<u8>::empty()
    };
    let frag0 = m.payload.subrange(0, end0);
    let cont = cont_bytes(m.payload, d.csize, end0, csid, ext, v);
    let rest = mid + extb + frag0 + cont;
    assert(enc =~= h + rest);
    lemma_basic_header_parse(fmt, csid, rest);
    let bl = h.len() as int;
    lemma_wrap_add_sub(p.timestamp, m.timestamp);
    if fmt == 2 {
        assert(enc[bl] == u24_be_bytes(tsf)[0] && enc[bl + 1] == u24_be_bytes(tsf)[1] && enc[bl
            + 2] == u24_be_bytes(tsf)[2]);
        lemma_u24_be_roundtrip(tsf);
        lemma_u24_be_roundtrip(0xFFFFFF);
        if ext {
            assert(enc[bl + 3] == u32_be_bytes(v)[0] && enc[bl + 4] == u32_be_bytes(v)[1] && enc[bl
                + 5] == u32_be_bytes(v)[2] && enc[bl + 6] == u32_be_bytes(v)[3]);
            lemma_u32_be_roundtrip(v);
        }
    } else {
        assert(fmt == 3 && v == p.delta && ext == p.ext);
        if ext {
            assert(enc[bl] == u32_be_bytes(v)[0] && enc[bl + 1] == u32_be_bytes(v)[1] && enc[bl
                + 2] == u32_be_bytes(v)[2] && enc[bl + 3] == u32_be_bytes(v)[3]);
        }
    }
    let el: int = if ext {
        4
    } else {
        0
    };
    let hl: int = if fmt == 2 {
        3
    } else {
        0
    };
    assert(enc.len() == bl + hl + el + end0 + cont.len());
    assert(enc.subrange(bl + hl + el, bl + hl + el + end0) =~= frag0);
    match decode_step(d, enc) {
        StepResult::Step { streams, consumed, frag, emitted } => {
            let st = StreamView {
                timestamp: m.timestamp,
                delta: v,
                length: m.payload.len() as u32,
                type_id: m.type_id,
                msg_stream_id: m.msg_stream_id,
                acc: if end0 == m.payload.len() {
                    Seq::<u8>::empty()
                } else {
                    m.payload.take(end0)
                },
                ext,
            };
            assert(d.streams[csid].acc + frag0 =~= m.payload.take(end0));
            if end0 == m.payload.len() {
                assert(m.payload.take(end0) =~= m.payload);
                assert(emitted matches Some(mv) && mv =~= m);
            }
            assert(streams =~= d.streams.insert(csid, st));
        },
        _ => {
            assert(false);
        },
    }
}

/// Any message emitted on a chunk stream that is fresh, or whose
/// decoder state agrees with the encoder history, and fed back to a
/// decoder negotiating the same chunk size, is delivered exactly once,
/// equal in type, stream id, timestamp and payload, with no bytes left
/// over.
#[verifier::rlimit(100)]
pub proof fn lemma_message_roundtrip_known(
    d: DecoderView,
    p: ChunkWriteState,
    m: MessageView,
    csid: u32,
)
    requires
        decoder_view_wf(d),
        2 <= csid < 65600,
        m.payload.len() < 0x1000000,
        d.streams.dom().contains(csid),
        stream_sync(d.streams[csid], p),
    ensures
        ({
            let enc = encode_msg_bytes(Some(p), m, csid, d.csize);
            &&& run_decoder(d, enc) matches RunResult::Done { d: dn, rest, msgs }
            &&& (run_decoder(d, enc) matches RunResult::Done { d: dn, rest, msgs } ==> rest
                == Seq::<u8>::empty() && msgs =~= seq![m])
        }),
{
    reveal(decode_step);
    let prev = Some(p);
    let enc = encode_msg_bytes(prev, m, csid, d.csize);
    let ext = start_ext(prev, m);
    let end0 = if d.csize as int <= m.payload.len() {
        d.csize as int
    } else {
        m.payload.len() as int
    };
    if choose_fmt(prev, m) == 0 {
        assert(encode_msg_bytes(prev, m, csid, d.csize) =~= encode_msg_bytes(
            Option::<ChunkWriteState>::None,
            m,
            csid,
            d.csize,
        ));
        lemma_message_roundtrip(d, m, csid);
    } else {
        lemma_decode_start_chunk_known(d, p, m, csid);
        match decode_step(d, enc) {
            StepResult::Step { streams, consumed, frag, emitted } => {
                lemma_step_preserves_wf(d, enc);
                lemma_step_consumed_bounds(d, enc);
                let d2 = DecoderView { csize: d.csize, streams };
                if end0 == m.payload.len() {
                    assert(enc.skip(consumed) =~= Seq::<u8>::empty());
                    assert(run_decoder(d2, Seq::<u8>::empty()) == (RunResult::Done {
                        d: d2,
                        rest: Seq::<u8>::empty(),
                        msgs: Seq::<MessageView>::empty(),
                    }));
                    assert(emitted matches Some(mv) && mv =~= m);
                    assert(emitted_seq(emitted) + Seq::<MessageView>::empty() =~= seq![m]);
                } else {
                    assert(enc.skip(consumed) =~= cont_bytes(
                        m.payload,
                        d.csize,
                        end0,
                        csid,
                        ext,
                        start_value(prev, m),
                    ));
                    assert(d2.streams[csid].acc == m.payload.take(end0));
                    assert(d2.streams[csid].length == m.payload.len());
                    assert(d2.streams[csid].ext == ext);
                    assert(1 <= end0 < m.payload.len());
                    lemma_run_continuations(d2, m.payload, end0, csid, ext, start_value(prev, m));
                    let st2 = d2.streams[csid];
                    assert(MessageView {
                        type_id: st2.type_id,
                        msg_stream_id: st2.msg_stream_id,
                        timestamp: st2.timestamp,
                        payload: m.payload,
                    } =~= m);
                    assert(emitted_seq(emitted) + seq![m] =~= seq![m]);
                }
            },
            _ => {
                assert(false);
            },
        }
    }
}

/// Any message emitted on a fresh chunk stream and fed back to a
/// decoder negotiating the same chunk size is delivered exactly once,
/// equal in type, stream id, timestamp and payload, with no bytes left
/// over.
#[verifier::rlimit(100)]
pub proof fn lemma_message_roundtrip(d: DecoderView, m: MessageView, csid: u32)
    requires
        decoder_view_wf(d),
        2 <= csid < 65600,
        m.payload.len() < 0x1000000,
    ensures
        ({
            let enc = encode_msg_bytes(Option::<ChunkWriteState>::None, m, csid, d.csize);
            &&& run_decoder(d, enc) matches RunResult::Done { d: dn, rest, msgs }
            &&& (run_decoder(d, enc) matches RunResult::Done { d: dn, rest, msgs } ==> rest
                == Seq::<u8>::empty() && msgs =~= seq![m])
        }),
{
    reveal(decode_step);
    let enc = encode_msg_bytes(Option::<ChunkWriteState>::None, m, csid, d.csize);
    let ext = m.timestamp >= 0xFFFFFF;
    let end0 = if d.csize as int <= m.payload.len() {
        d.csize as int
    } else {
        m.payload.len() as int
    };
    lemma_decode_start_chunk(d, m, csid);
    match decode_step(d, enc) {
        StepResult::Step { streams, consumed, frag, emitted } => {
            lemma_step_preserves_wf(d, enc);
            lemma_step_consumed_bounds(d, enc);
            let d2 = DecoderView { csize: d.csize, streams };
            if end0 == m.payload.len() {
                assert(enc.skip(consumed) =~= Seq::<u8>::empty());
                assert(run_decoder(d2, Seq::<u8>::empty()) == (RunResult::Done {
                    d: d2,
                    rest: Seq::<u8>::empty(),
                    msgs: Seq::<MessageView>::empty(),
                }));
                assert(emitted matches Some(mv) && mv =~= m);
                assert(emitted_seq(emitted) + Seq::<MessageView>::empty() =~= seq![m]);
            } else {
                assert(enc.skip(consumed) =~= cont_bytes(
                    m.payload,
                    d.csize,
                    end0,
                    csid,
                    ext,
                    m.timestamp,
                ));
                assert(d2.streams[csid].acc == m.payload.take(end0));
                assert(d2.streams[csid].length == m.payload.len());
                assert(d2.streams[csid].ext == ext);
                assert(1 <= end0 < m.payload.len());
                lemma_run_continuations(d2, m.payload, end0, csid, ext, m.timestamp);
                let st2 = d2.streams[csid];
                assert(MessageView {
                    type_id: st2.type_id,
                    msg_stream_id: st2.msg_stream_id,
                    timestamp: st2.timestamp,
                    payload: m.payload,
                } =~= m);
                assert(emitted_seq(emitted) + seq![m] =~= seq![m]);
            }
        },
        _ => {
            assert(false);
        },
    }
}

/// Acknowledgement sequence numbers are nondecreasing while the session
/// total stays below 2^32: they carry the received-bytes counter, which
/// only grows.
pub proof fn lemma_ack_values_nondecreasing(n1: u64, n2: u64)
    requires
        n1 <= n2 < 0x100000000,
    ensures
        n1 % 0x100000000 <= n2 % 0x100000000,
{
}

/// After `n` bytes within a window `w`, at least `k` acknowledgements
/// are owed whenever `n >= k * w`: the scheduler's quotient `n / w`
/// dominates `k`.
pub proof fn lemma_ack_count_at_least(n: int, w: int, k: int)
    requires
        w >= 1,
        k >= 0,
        n >= k * w,
    ensures
        n / w >= k,
{
    vstd::arithmetic::div_mod::lemma_div_is_ordered(k * w, n, w);
    vstd::arithmetic::div_mod::lemma_div_multiples_vanish(k, w);
    assert(k * w == w * k) by (nonlinear_arith);
}

} // verus!
