//! The logical protocol unit: a message with type id, stream id,
//! timestamp and payload, reassembled from or fragmented into chunks.

use vstd::prelude::*;

verus! {

pub const MSG_TYPE_SET_CHUNK_SIZE: u8 = 1;

pub const MSG_TYPE_ABORT: u8 = 2;

pub const MSG_TYPE_ACKNOWLEDGEMENT: u8 = 3;

pub const MSG_TYPE_WINDOW_ACK_SIZE: u8 = 5;

pub const MSG_TYPE_SET_PEER_BANDWIDTH: u8 = 6;

/// Protocol-control messages are intercepted by the session instead of
/// being delivered to the upper collaborator.
pub open spec fn is_control_type(t: u8) -> bool {
    t == MSG_TYPE_SET_CHUNK_SIZE || t == MSG_TYPE_ABORT || t == MSG_TYPE_ACKNOWLEDGEMENT
        || t == MSG_TYPE_WINDOW_ACK_SIZE || t == MSG_TYPE_SET_PEER_BANDWIDTH
}

/// A fully reassembled (or to-be-fragmented) RTMP message.
#[derive(Debug)]
pub struct Message {
    pub type_id: u8,
    pub msg_stream_id: u32,
    pub timestamp: u32,
    pub payload: Vec<u8>,
}

/// Mathematical image of a `Message`.
#[verifier::ext_equal]
pub struct MessageView {
    pub type_id: u8,
    pub msg_stream_id: u32,
    pub timestamp: u32,
    pub payload: Seq<u8>,
}

impl View for Message {
    type V = MessageView;

    open spec fn view(&self) -> MessageView {
        MessageView {
            type_id: self.type_id,
            msg_stream_id: self.msg_stream_id,
            timestamp: self.timestamp,
            payload: self.payload@,
        }
    }
}

impl Message {
    /// Whether the session must hand this message to the control handler
    /// rather than deliver it upward.
    pub fn is_control(&self) -> (r: bool)
        ensures
            r == is_control_type(self@.type_id),
    {
        self.type_id == MSG_TYPE_SET_CHUNK_SIZE || self.type_id == MSG_TYPE_ABORT
            || self.type_id == MSG_TYPE_ACKNOWLEDGEMENT || self.type_id == MSG_TYPE_WINDOW_ACK_SIZE
            || self.type_id == MSG_TYPE_SET_PEER_BANDWIDTH
    }
}

} // verus!
