//! Emission of the five protocol-control messages. Every control message
//! travels on chunk stream 2 with message stream id 0 and timestamp 0,
//! framed by a full (fmt 0) chunk header; the contracts state the exact
//! bytes appended.

use vstd::prelude::*;

use crate::message::MSG_TYPE_ABORT;
use crate::message::MSG_TYPE_ACKNOWLEDGEMENT;
use crate::message::MSG_TYPE_SET_CHUNK_SIZE;
use crate::message::MSG_TYPE_SET_PEER_BANDWIDTH;
use crate::message::MSG_TYPE_WINDOW_ACK_SIZE;
use crate::wire::BytesWriter;
use crate::wire::u24_be_bytes;
use crate::wire::u32_be_bytes;
use crate::wire::u32_le_bytes;

verus! {

/// The 12 header bytes of a control message: basic header fmt 0 / csid 2,
/// timestamp 0, the payload length, the type id, message stream id 0.
pub open spec fn control_header_bytes(msg_type_id: u8, len: u32) -> Seq<u8> {
    seq![2u8] + u24_be_bytes(0) + u24_be_bytes(len) + seq![msg_type_id] + u32_le_bytes(0)
}

/// A whole control message whose payload is a single big-endian 32-bit
/// value.
pub open spec fn control_message_bytes(msg_type_id: u8, v: u32) -> Seq<u8> {
    control_header_bytes(msg_type_id, 4) + u32_be_bytes(v)
}

/// Builds the byte image of outbound protocol-control messages.
pub struct ControlMessages {
    writer: BytesWriter,
}

impl View for ControlMessages {
    type V = Seq<u8>;

    closed spec fn view(&self) -> Seq<u8> {
        self.writer@
    }
}

impl ControlMessages {
    pub fn new(writer: BytesWriter) -> (r: ControlMessages)
        ensures
            r@ == writer@,
    {
        ControlMessages { writer }
    }

    /// Appends the fmt 0 / csid 2 chunk header that precedes every
    /// control-message payload.
    pub fn write_control_message_header(&mut self, msg_type_id: u8, len: u32)
        requires
            len < 0x1000000,
        ensures
            final(self)@ == old(self)@ + control_header_bytes(msg_type_id, len),
    {
        self.writer.write_u8(0x02);
        self.writer.write_u24_be(0);
        self.writer.write_u24_be(len);
        self.writer.write_u8(msg_type_id);
        self.writer.write_u32_le(0);
        assert(self@ =~= old(self)@ + control_header_bytes(msg_type_id, len));
    }

    /// Set Chunk Size: the high bit of the advertised value is masked to
    /// zero on encode.
    pub fn write_set_chunk_size(&mut self, chunk_size: u32)
        ensures
            final(self)@ == old(self)@ + control_message_bytes(
                MSG_TYPE_SET_CHUNK_SIZE,
                chunk_size & 0x7FFFFFFF,
            ),
    {
        self.write_control_message_header(MSG_TYPE_SET_CHUNK_SIZE, 4);
        self.writer.write_u32_be(chunk_size & 0x7FFFFFFF);
        assert(self@ =~= old(self)@ + control_message_bytes(
            MSG_TYPE_SET_CHUNK_SIZE,
            chunk_size & 0x7FFFFFFF,
        ));
    }

    /// Abort: tells the peer to discard the partial payload accumulated
    /// on the given chunk stream.
    pub fn write_abort_message(&mut self, chunk_stream_id: u32)
        ensures
            final(self)@ == old(self)@ + control_message_bytes(MSG_TYPE_ABORT, chunk_stream_id),
    {
        self.write_control_message_header(MSG_TYPE_ABORT, 4);
        self.writer.write_u32_be(chunk_stream_id);
        assert(self@ =~= old(self)@ + control_message_bytes(MSG_TYPE_ABORT, chunk_stream_id));
    }

    /// Acknowledgement carrying the received-bytes sequence number.
    pub fn write_acknowledgement(&mut self, sequence_number: u32)
        ensures
            final(self)@ == old(self)@ + control_message_bytes(
                MSG_TYPE_ACKNOWLEDGEMENT,
                sequence_number,
            ),
    {
        self.write_control_message_header(MSG_TYPE_ACKNOWLEDGEMENT, 4);
        self.writer.write_u32_be(sequence_number);
        assert(self@ =~= old(self)@ + control_message_bytes(
            MSG_TYPE_ACKNOWLEDGEMENT,
            sequence_number,
        ));
    }

    /// Window Acknowledgement Size.
    pub fn write_window_acknowledgement_size(&mut self, window_size: u32)
        ensures
            final(self)@ == old(self)@ + control_message_bytes(
                MSG_TYPE_WINDOW_ACK_SIZE,
                window_size,
            ),
    {
        self.write_control_message_header(MSG_TYPE_WINDOW_ACK_SIZE, 4);
        self.writer.write_u32_be(window_size);
        assert(self@ =~= old(self)@ + control_message_bytes(MSG_TYPE_WINDOW_ACK_SIZE, window_size));
    }

    /// Set Peer Bandwidth: a 32-bit window followed by the one-byte limit
    /// type (hard = 0, soft = 1, dynamic = 2).
    pub fn write_set_peer_bandwidth(&mut self, window_size: u32, limit_type: u8)
        ensures
            final(self)@ == old(self)@ + control_header_bytes(MSG_TYPE_SET_PEER_BANDWIDTH, 5)
                + u32_be_bytes(window_size) + seq![limit_type],
    {
        self.write_control_message_header(MSG_TYPE_SET_PEER_BANDWIDTH, 5);
        self.writer.write_u32_be(window_size);
        self.writer.write_u8(limit_type);
        assert(self@ =~= old(self)@ + control_header_bytes(MSG_TYPE_SET_PEER_BANDWIDTH, 5)
            + u32_be_bytes(window_size) + seq![limit_type]);
    }

    /// Hands the built bytes to the caller (the transport flush lives
    /// outside the verified core) and resets the builder.
    pub fn take_bytes(&mut self) -> (r: Vec<u8>)
        ensures
            r@ == old(self)@,
            final(self)@ == Seq::<u8>::empty(),
    {
        self.writer.take_bytes()
    }
}

} // verus!
