use rtmp_core::control::ControlMessages;
use rtmp_core::decoder::ChunkDecoder;
use rtmp_core::encoder::ChunkEncoder;
use rtmp_core::message::Message;
use rtmp_core::session::SessionCore;
use rtmp_core::wire::BytesWriter;

fn fmt0_header(csid: u8, ts: u32, len: u32, type_id: u8, msid: u32) -> Vec<u8> {
    let mut v: Vec<u8> = Vec::new();
    v.push(csid);
    v.push(((ts >> 16) & 0xFF) as u8);
    v.push(((ts >> 8) & 0xFF) as u8);
    v.push((ts & 0xFF) as u8);
    v.push(((len >> 16) & 0xFF) as u8);
    v.push(((len >> 8) & 0xFF) as u8);
    v.push((len & 0xFF) as u8);
    v.push(type_id);
    v.push((msid & 0xFF) as u8);
    v.push(((msid >> 8) & 0xFF) as u8);
    v.push(((msid >> 16) & 0xFF) as u8);
    v.push(((msid >> 24) & 0xFF) as u8);
    v
}

#[test]
fn set_chunk_size_roundtrip_bytes() {
    let mut cm = ControlMessages::new(BytesWriter::new());
    cm.write_set_chunk_size(4096);
    let b = cm.take_bytes();
    assert_eq!(
        b,
        vec![
            0x02, 0x00, 0x00, 0x00, 0x00, 0x00, 0x04, 0x01, 0x00, 0x00, 0x00, 0x00, 0x00, 0x00,
            0x10, 0x00
        ]
    );
    assert_eq!(b.len(), 16);
}

#[test]
fn abort_message_bytes() {
    let mut cm = ControlMessages::new(BytesWriter::new());
    cm.write_abort_message(5);
    let b = cm.take_bytes();
    assert_eq!(
        b,
        vec![
            0x02, 0x00, 0x00, 0x00, 0x00, 0x00, 0x04, 0x02, 0x00, 0x00, 0x00, 0x00, 0x00, 0x00,
            0x00, 0x05
        ]
    );
}

#[test]
fn acknowledgement_bytes() {
    let mut cm = ControlMessages::new(BytesWriter::new());
    cm.write_acknowledgement(0x01020304);
    let b = cm.take_bytes();
    assert_eq!(
        b,
        vec![
            0x02, 0x00, 0x00, 0x00, 0x00, 0x00, 0x04, 0x03, 0x00, 0x00, 0x00, 0x00, 0x01, 0x02,
            0x03, 0x04
        ]
    );
}

#[test]
fn window_acknowledgement_size_bytes() {
    let mut cm = ControlMessages::new(BytesWriter::new());
    cm.write_window_acknowledgement_size(2500000);
    let b = cm.take_bytes();
    assert_eq!(
        b,
        vec![
            0x02, 0x00, 0x00, 0x00, 0x00, 0x00, 0x04, 0x05, 0x00, 0x00, 0x00, 0x00, 0x00, 0x26,
            0x25, 0xA0
        ]
    );
}

#[test]
fn set_peer_bandwidth_bytes() {
    let mut cm = ControlMessages::new(BytesWriter::new());
    cm.write_set_peer_bandwidth(2500000, 2);
    let b = cm.take_bytes();
    assert_eq!(
        b,
        vec![
            0x02, 0x00, 0x00, 0x00, 0x00, 0x00, 0x05, 0x06, 0x00, 0x00, 0x00, 0x00, 0x00, 0x26,
            0x25, 0xA0, 0x02
        ]
    );
}

#[test]
fn set_chunk_size_masks_high_bit() {
    let mut cm = ControlMessages::new(BytesWriter::new());
    cm.write_set_chunk_size(0x80001000);
    let b = cm.take_bytes();
    assert_eq!(&b[12..16], &[0x00, 0x00, 0x10, 0x00]);
}

#[test]
fn fragmented_video_message() {
    // Inbound chunk size 128, message length 300, type 9, msid 1,
    // timestamp 1000, csid 6: three chunks (128 + 128 + 44).
    let mut dec = ChunkDecoder::new();
    let payload: Vec<u8> = (0..300u32).map(|i| (i % 251) as u8).collect();
    let mut wire = fmt0_header(0x06, 1000, 300, 9, 1);
    wire.extend_from_slice(&payload[0..128]);
    wire.push(0xC6);
    wire.extend_from_slice(&payload[128..256]);
    wire.push(0xC6);
    wire.extend_from_slice(&payload[256..300]);
    dec.feed(&wire);
    let r1 = dec.poll_message().unwrap();
    assert!(r1.is_none());
    let r2 = dec.poll_message().unwrap();
    assert!(r2.is_none());
    let m = dec.poll_message().unwrap().expect("third chunk completes the message");
    assert_eq!(m.type_id, 9);
    assert_eq!(m.msg_stream_id, 1);
    assert_eq!(m.timestamp, 1000);
    assert_eq!(m.payload, payload);
}

#[test]
fn decoder_output_independent_of_split() {
    let payload: Vec<u8> = (0..300u32).map(|i| (i * 7 % 256) as u8).collect();
    let mut wire = fmt0_header(0x06, 1000, 300, 9, 1);
    wire.extend_from_slice(&payload[0..128]);
    wire.push(0xC6);
    wire.extend_from_slice(&payload[128..256]);
    wire.push(0xC6);
    wire.extend_from_slice(&payload[256..300]);

    for split in [1usize, 7, 13, 129, 140, 270] {
        let mut dec = ChunkDecoder::new();
        dec.feed(&wire[0..split]);
        let mut got: Vec<Message> = Vec::new();
        loop {
            let before = dec.buffered_len();
            if let Some(m) = dec.poll_message().unwrap() {
                got.push(m);
            }
            if dec.buffered_len() == before {
                break;
            }
        }
        dec.feed(&wire[split..]);
        loop {
            let before = dec.buffered_len();
            if let Some(m) = dec.poll_message().unwrap() {
                got.push(m);
            }
            if dec.buffered_len() == before {
                break;
            }
        }
        assert_eq!(got.len(), 1);
        assert_eq!(got[0].payload, payload);
        assert_eq!(got[0].timestamp, 1000);
    }
}

#[test]
fn extended_timestamp_encoding() {
    // Timestamp 0x01000000 needs the 4-byte extended field; fmt 3
    // continuations carry it too.
    let mut enc = ChunkEncoder::new();
    let mut w = BytesWriter::new();
    let m = Message {
        type_id: 9,
        msg_stream_id: 1,
        timestamp: 0x01000000,
        payload: vec![0xAB; 130],
    };
    enc.encode_message(&mut w, &m, 4);
    let b = w.take_bytes();
    assert_eq!(b[0], 0x04);
    assert_eq!(&b[1..4], &[0xFF, 0xFF, 0xFF]);
    assert_eq!(&b[4..7], &[0x00, 0x00, 0x82]);
    assert_eq!(b[7], 9);
    assert_eq!(&b[8..12], &[0x01, 0x00, 0x00, 0x00]);
    // extended timestamp after the full header
    assert_eq!(&b[12..16], &[0x01, 0x00, 0x00, 0x00]);
    // 128 payload bytes, then the fmt 3 continuation with the block again
    assert_eq!(b[16 + 128], 0xC4);
    assert_eq!(&b[16 + 129..16 + 133], &[0x01, 0x00, 0x00, 0x00]);
    assert_eq!(b.len(), 16 + 128 + 1 + 4 + 2);
}

#[test]
fn extended_timestamp_decoding() {
    let mut dec = ChunkDecoder::new();
    let mut wire: Vec<u8> = vec![0x04, 0xFF, 0xFF, 0xFF, 0x00, 0x00, 0x02, 9, 0, 0, 0, 0];
    wire.extend_from_slice(&[0x01, 0x00, 0x00, 0x00]);
    wire.extend_from_slice(&[0x55, 0x66]);
    dec.feed(&wire);
    let m = dec.poll_message().unwrap().expect("one whole chunk");
    assert_eq!(m.timestamp, 0x01000000);
    assert_eq!(m.payload, vec![0x55, 0x66]);
}

#[test]
fn window_ack_emits_acknowledgement() {
    let mut s = SessionCore::new();
    let mut out = BytesWriter::new();
    let win = Message {
        type_id: 5,
        msg_stream_id: 0,
        timestamp: 0,
        payload: vec![0x00, 0x13, 0x12, 0xD0], // 1_250_000
    };
    s.handle_control_message(&win, &mut out).unwrap();
    assert_eq!(s.inbound_window(), 1_250_000);
    assert_eq!(out.len(), 0);
    let acks = s.account_received(1_249_999, &mut out);
    assert_eq!(acks, 0);
    assert_eq!(out.len(), 0);
    let acks2 = s.account_received(1, &mut out);
    assert_eq!(acks2, 1);
    let b = out.take_bytes();
    assert_eq!(
        b,
        vec![
            0x02, 0x00, 0x00, 0x00, 0x00, 0x00, 0x04, 0x03, 0x00, 0x00, 0x00, 0x00, 0x00, 0x13,
            0x12, 0xD0
        ]
    );
}

#[test]
fn malformed_fmt1_without_state() {
    // A fmt 1 chunk on csid 9 with no prior state: protocol error.
    let mut s = SessionCore::new();
    let mut out = BytesWriter::new();
    let wire: Vec<u8> = vec![0x49, 0x00, 0x00, 0x01, 0x00, 0x00, 0x02, 9];
    s.receive_bytes(&wire, &mut out);
    let e = s.process_inbound(&mut out).unwrap_err();
    assert_eq!(e.kind_name(), "ProtocolError");
}

#[test]
fn inbound_set_chunk_size_applies() {
    let mut s = SessionCore::new();
    let mut out = BytesWriter::new();
    assert_eq!(s.inbound_chunk_size(), 128);
    let m = Message {
        type_id: 1,
        msg_stream_id: 0,
        timestamp: 0,
        payload: vec![0x00, 0x00, 0x00, 0x10],
    };
    s.handle_control_message(&m, &mut out).unwrap();
    assert_eq!(s.inbound_chunk_size(), 16);
}

#[test]
fn inbound_set_chunk_size_policy_errors() {
    let mut s = SessionCore::new();
    let mut out = BytesWriter::new();
    let high_bit = Message {
        type_id: 1,
        msg_stream_id: 0,
        timestamp: 0,
        payload: vec![0x80, 0x00, 0x00, 0x10],
    };
    let e = s.handle_control_message(&high_bit, &mut out).unwrap_err();
    assert_eq!(e.kind_name(), "PolicyError");
    let zero = Message {
        type_id: 1,
        msg_stream_id: 0,
        timestamp: 0,
        payload: vec![0x00, 0x00, 0x00, 0x00],
    };
    let e2 = s.handle_control_message(&zero, &mut out).unwrap_err();
    assert_eq!(e2.kind_name(), "PolicyError");
    let short = Message {
        type_id: 1,
        msg_stream_id: 0,
        timestamp: 0,
        payload: vec![0x00, 0x00],
    };
    let e3 = s.handle_control_message(&short, &mut out).unwrap_err();
    assert_eq!(e3.kind_name(), "ProtocolError");
}

#[test]
fn set_peer_bandwidth_answers_with_window_ack() {
    let mut s = SessionCore::new();
    let mut out = BytesWriter::new();
    let m = Message {
        type_id: 6,
        msg_stream_id: 0,
        timestamp: 0,
        payload: vec![0x00, 0x26, 0x25, 0xA0, 0x01],
    };
    s.handle_control_message(&m, &mut out).unwrap();
    let b = out.take_bytes();
    assert_eq!(
        b,
        vec![
            0x02, 0x00, 0x00, 0x00, 0x00, 0x00, 0x04, 0x05, 0x00, 0x00, 0x00, 0x00, 0x00, 0x26,
            0x25, 0xA0
        ]
    );
    // same window again: no further answer
    let mut out2 = BytesWriter::new();
    s.handle_control_message(&m, &mut out2).unwrap();
    assert_eq!(out2.len(), 0);
}

#[test]
fn send_then_receive_roundtrip() {
    let mut s = SessionCore::new();
    let mut out = BytesWriter::new();
    let payload: Vec<u8> = (0..300u32).map(|i| (i % 256) as u8).collect();
    let m = Message {
        type_id: 9,
        msg_stream_id: 7,
        timestamp: 1234,
        payload: payload.clone(),
    };
    s.send_outbound_message(&m, 6, &mut out);
    let wire = out.take_bytes();
    let mut dec = ChunkDecoder::new();
    dec.feed(&wire);
    let mut got: Vec<Message> = Vec::new();
    loop {
        let before = dec.buffered_len();
        if let Some(dm) = dec.poll_message().unwrap() {
            got.push(dm);
        }
        if dec.buffered_len() == before {
            break;
        }
    }
    assert_eq!(got.len(), 1);
    assert_eq!(got[0].type_id, 9);
    assert_eq!(got[0].msg_stream_id, 7);
    assert_eq!(got[0].timestamp, 1234);
    assert_eq!(got[0].payload, payload);
}

#[test]
fn second_message_uses_compressed_header() {
    let mut enc = ChunkEncoder::new();
    let mut w = BytesWriter::new();
    let m1 = Message {
        type_id: 8,
        msg_stream_id: 1,
        timestamp: 100,
        payload: vec![1, 2, 3, 4],
    };
    enc.encode_message(&mut w, &m1, 3);
    let b1 = w.take_bytes();
    assert_eq!(b1[0], 0x03); // fmt 0
    let m2 = Message {
        type_id: 8,
        msg_stream_id: 1,
        timestamp: 140,
        payload: vec![5, 6, 7, 8],
    };
    enc.encode_message(&mut w, &m2, 3);
    let b2 = w.take_bytes();
    assert_eq!(b2[0], 0x83); // fmt 2: only the delta changed
    assert_eq!(&b2[1..4], &[0x00, 0x00, 40]);
    let m3 = Message {
        type_id: 8,
        msg_stream_id: 1,
        timestamp: 180,
        payload: vec![9, 10, 11, 12],
    };
    enc.encode_message(&mut w, &m3, 3);
    let b3 = w.take_bytes();
    assert_eq!(b3[0], 0xC3); // fmt 3: same delta again
    assert_eq!(b3.len(), 5);
}

#[test]
fn abort_discards_partial_payload() {
    let mut s = SessionCore::new();
    let mut out = BytesWriter::new();
    // first chunk of a 200-byte message on csid 6 (incomplete)
    let payload: Vec<u8> = vec![0x11; 200];
    let mut wire = fmt0_header(0x06, 0, 200, 9, 1);
    wire.extend_from_slice(&payload[0..128]);
    // abort for csid 6 on the control stream
    wire.extend_from_slice(&fmt0_header(0x02, 0, 4, 2, 0));
    wire.extend_from_slice(&[0x00, 0x00, 0x00, 0x06]);
    s.receive_bytes(&wire, &mut out);
    assert!(s.process_inbound(&mut out).unwrap().is_none()); // partial chunk
    assert!(s.process_inbound(&mut out).unwrap().is_none()); // abort applied
    // a fresh fmt 0 message on csid 6 still decodes cleanly
    let mut wire2 = fmt0_header(0x06, 5, 2, 9, 1);
    wire2.extend_from_slice(&[0xAA, 0xBB]);
    s.receive_bytes(&wire2, &mut out);
    let m = s.process_inbound(&mut out).unwrap().expect("complete message");
    assert_eq!(m.payload, vec![0xAA, 0xBB]);
}

#[test]
fn timestamp_delta_wraps_mod_2_32() {
    let mut dec = ChunkDecoder::new();
    // fmt 0 on csid 3 with timestamp 0xFFFFFFFE (extended), then a fmt 2
    // delta of 3: the new timestamp wraps to 1.
    let mut wire: Vec<u8> = vec![0x03, 0xFF, 0xFF, 0xFF, 0x00, 0x00, 0x01, 9, 0, 0, 0, 0];
    wire.extend_from_slice(&[0xFF, 0xFF, 0xFF, 0xFE]);
    wire.push(0x77);
    dec.feed(&wire);
    let m1 = dec.poll_message().unwrap().expect("first message");
    assert_eq!(m1.timestamp, 0xFFFFFFFE);
    let wire2: Vec<u8> = vec![0x83, 0x00, 0x00, 0x03, 0x99];
    dec.feed(&wire2);
    let m2 = dec.poll_message().unwrap().expect("second message");
    assert_eq!(m2.timestamp, 1);
    assert_eq!(m2.payload, vec![0x99]);
}

#[test]
fn outbound_chunk_size_advertised_before_use() {
    let mut s = SessionCore::new();
    let mut out = BytesWriter::new();
    s.set_outbound_chunk_size(256, &mut out);
    let b = out.take_bytes();
    // the Set Chunk Size control message is emitted first
    assert_eq!(
        b,
        vec![
            0x02, 0x00, 0x00, 0x00, 0x00, 0x00, 0x04, 0x01, 0x00, 0x00, 0x00, 0x00, 0x00, 0x00,
            0x01, 0x00
        ]
    );
    // and a 300-byte message now fragments as 256 + 44
    let m = Message {
        type_id: 9,
        msg_stream_id: 1,
        timestamp: 0,
        payload: vec![0x42; 300],
    };
    s.send_outbound_message(&m, 6, &mut out);
    let wire = out.take_bytes();
    assert_eq!(wire[0], 0x06);
    assert_eq!(wire[12 + 256], 0xC6);
    assert_eq!(wire.len(), 12 + 256 + 1 + 44);
}

#[test]
fn roundtrip_holds_for_later_messages_too() {
    // The second and third messages start with compressed headers
    // (fmt 2, then fmt 3); the decoder still reconstructs them exactly.
    let mut enc = ChunkEncoder::new();
    let mut dec = ChunkDecoder::new();
    let mut w = BytesWriter::new();
    let msgs: Vec<Message> = (0..3u32)
        .map(|i| Message {
            type_id: 8,
            msg_stream_id: 1,
            timestamp: 1000 + 40 * i,
            payload: (0..200u32).map(|j| ((j + i) % 256) as u8).collect(),
        })
        .collect();
    for m in &msgs {
        enc.encode_message(&mut w, m, 5);
    }
    dec.feed(&w.take_bytes());
    let mut got: Vec<Message> = Vec::new();
    loop {
        let before = dec.buffered_len();
        if let Some(dm) = dec.poll_message().unwrap() {
            got.push(dm);
        }
        if dec.buffered_len() == before {
            break;
        }
    }
    assert_eq!(got.len(), 3);
    for (g, m) in got.iter().zip(msgs.iter()) {
        assert_eq!(g.type_id, m.type_id);
        assert_eq!(g.msg_stream_id, m.msg_stream_id);
        assert_eq!(g.timestamp, m.timestamp);
        assert_eq!(g.payload, m.payload);
    }
}
