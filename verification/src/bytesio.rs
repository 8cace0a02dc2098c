//! Transactional typed reader over a growable byte queue. The queue is
//! `bytes::BytesMut`; the few methods the core calls on it are trusted
//! wrappers whose contracts speak of the queue's byte contents. Every
//! read either fully succeeds or reports `NotEnoughBytes` leaving the
//! buffer untouched.

use vstd::prelude::*;

use crate::wire::u16_be_val;
use crate::wire::u24_be_val;
use crate::wire::u32_be_val;
use crate::wire::u32_le_val;

verus! {

/// Declaration of the outside byte-queue type backing the reader.
#[verifier::external_type_specification]
#[verifier::external_body]
pub struct ExBytesMut(bytes::BytesMut);

/// The bytes a `bytes::BytesMut` holds, front to back.
pub uninterp spec fn bytes_mut_contents(b: bytes::BytesMut) -> Seq<u8>;

/// Relies on bytes::BytesMut::new: creates an empty buffer.
#[verifier::external_body]
pub(crate) fn bytes_mut_new() -> (r: bytes::BytesMut)
    ensures
        bytes_mut_contents(r) == Seq::<u8>::empty(),
{
    bytes::BytesMut::new()
}

/// Relies on bytes::BytesMut::len: the number of bytes the buffer holds.
#[verifier::external_body]
fn bytes_mut_len(b: &bytes::BytesMut) -> (r: usize)
    ensures
        r == bytes_mut_contents(*b).len(),
{
    b.len()
}

/// Relies on bytes::BytesMut::extend_from_slice: appends the slice at the
/// back of the buffer.
#[verifier::external_body]
fn bytes_mut_extend(b: &mut bytes::BytesMut, s: &[u8])
    ensures
        bytes_mut_contents(*final(b)) == bytes_mut_contents(*old(b)) + s@,
{
    b.extend_from_slice(s)
}

/// Relies on bytes::BytesMut::split_to: the result takes the first `at`
/// bytes, the buffer keeps the rest. Panics when `at` exceeds the length,
/// so that case is excluded here.
#[verifier::external_body]
fn bytes_mut_split_to(b: &mut bytes::BytesMut, at: usize) -> (r: bytes::BytesMut)
    requires
        at <= bytes_mut_contents(*old(b)).len(),
    ensures
        bytes_mut_contents(r) == bytes_mut_contents(*old(b)).take(at as int),
        bytes_mut_contents(*final(b)) == bytes_mut_contents(*old(b)).skip(at as int),
{
    b.split_to(at)
}

/// Relies on the slice view of bytes::BytesMut (its Deref impl): plain
/// indexing, which panics out of bounds, so that case is excluded here.
#[verifier::external_body]
fn bytes_mut_byte_at(b: &bytes::BytesMut, i: usize) -> (r: u8)
    requires
        i < bytes_mut_contents(*b).len(),
    ensures
        r == bytes_mut_contents(*b)[i as int],
{
    b[i]
}

/// Relies on the slice view of bytes::BytesMut (its Deref impl) and
/// slice::to_vec: copies the buffered bytes out in order.
#[verifier::external_body]
pub(crate) fn bytes_mut_to_vec(b: &bytes::BytesMut) -> (r: Vec<u8>)
    ensures
        r@ == bytes_mut_contents(*b),
{
    b.to_vec()
}

/// Why a read failed. `NotEnoughBytes` is not an error to the caller: it
/// signals that the decoder must yield and await more bytes.
#[derive(Debug)]
pub enum IOReadErrorValue {
    NotEnoughBytes,
    IO(std::io::Error),
}

/// Error wrapper returned by the reader.
#[derive(Debug)]
pub struct IOReadError {
    pub value: IOReadErrorValue,
}

impl From<IOReadErrorValue> for IOReadError {
    fn from(val: IOReadErrorValue) -> (r: IOReadError) {
        IOReadError { value: val }
    }
}

impl vstd::std_specs::convert::FromSpecImpl<IOReadErrorValue> for IOReadError {
    open spec fn obeys_from_spec() -> bool {
        true
    }

    open spec fn from_spec(val: IOReadErrorValue) -> IOReadError {
        IOReadError { value: val }
    }
}

impl From<std::io::Error> for IOReadError {
    fn from(error: std::io::Error) -> (r: IOReadError) {
        IOReadError { value: IOReadErrorValue::IO(error) }
    }
}

impl vstd::std_specs::convert::FromSpecImpl<std::io::Error> for IOReadError {
    open spec fn obeys_from_spec() -> bool {
        true
    }

    open spec fn from_spec(error: std::io::Error) -> IOReadError {
        IOReadError { value: IOReadErrorValue::IO(error) }
    }
}

/// Cursor-free transactional reader over the inbound byte queue; its view
/// is the sequence of bytes not yet consumed.
pub struct Reader {
    buffer: bytes::BytesMut,
}

impl View for Reader {
    type V = Seq<u8>;

    closed spec fn view(&self) -> Seq<u8> {
        bytes_mut_contents(self.buffer)
    }
}

impl Reader {
    pub fn new(input: bytes::BytesMut) -> (r: Reader)
        ensures
            r@ == bytes_mut_contents(input),
    {
        Reader { buffer: input }
    }

    /// Appends transport bytes at the back of the queue.
    pub fn extend_from_slice(&mut self, extend: &[u8])
        ensures
            final(self)@ == old(self)@ + extend@,
    {
        bytes_mut_extend(&mut self.buffer, extend)
    }

    /// The number of bytes available.
    pub fn len(&self) -> (r: usize)
        ensures
            r == self@.len(),
    {
        bytes_mut_len(&self.buffer)
    }

    /// Peeks the byte at `i` without consuming anything.
    pub fn byte_at(&self, i: usize) -> (r: u8)
        requires
            i < self@.len(),
        ensures
            r == self@[i as int],
    {
        bytes_mut_byte_at(&self.buffer, i)
    }

    /// Consumes the first `n` bytes.
    pub fn advance(&mut self, n: usize)
        requires
            n <= old(self)@.len(),
        ensures
            final(self)@ == old(self)@.skip(n as int),
    {
        let _front = bytes_mut_split_to(&mut self.buffer, n);
    }

    /// Consumes the first `n` bytes and hands them out as a plain vector.
    pub fn read_vec(&mut self, n: usize) -> (r: Vec<u8>)
        requires
            n <= old(self)@.len(),
        ensures
            r@ == old(self)@.take(n as int),
            final(self)@ == old(self)@.skip(n as int),
    {
        let front = bytes_mut_split_to(&mut self.buffer, n);
        bytes_mut_to_vec(&front)
    }

    /// Takes the first `bytes_num` bytes out, or fails with
    /// `NotEnoughBytes` leaving the buffer untouched.
    pub fn read_bytes(&mut self, bytes_num: usize) -> (r: Result<bytes::BytesMut, IOReadError>)
        ensures
            r is Ok <==> bytes_num <= old(self)@.len(),
            r is Ok ==> bytes_mut_contents(r->Ok_0) == old(self)@.take(bytes_num as int)
                && final(self)@ == old(self)@.skip(bytes_num as int),
            r is Err ==> final(self)@ == old(self)@ && r->Err_0.value is NotEnoughBytes,
    {
        if bytes_mut_len(&self.buffer) < bytes_num {
            return Err(IOReadError { value: IOReadErrorValue::NotEnoughBytes });
        }
        Ok(bytes_mut_split_to(&mut self.buffer, bytes_num))
    }

    /// Reads one byte.
    pub fn read_u8(&mut self) -> (r: Result<u8, IOReadError>)
        ensures
            r is Ok <==> old(self)@.len() >= 1,
            r is Ok ==> r->Ok_0 == old(self)@[0] && final(self)@ == old(self)@.skip(1),
            r is Err ==> final(self)@ == old(self)@ && r->Err_0.value is NotEnoughBytes,
    {
        if self.len() < 1 {
            return Err(IOReadError { value: IOReadErrorValue::NotEnoughBytes });
        }
        let b0 = self.byte_at(0);
        self.advance(1);
        Ok(b0)
    }

    /// Reads a 16-bit big-endian value.
    pub fn read_u16(&mut self) -> (r: Result<u16, IOReadError>)
        ensures
            r is Ok <==> old(self)@.len() >= 2,
            r is Ok ==> r->Ok_0 == u16_be_val(old(self)@[0], old(self)@[1]) && final(self)@
                == old(self)@.skip(2),
            r is Err ==> final(self)@ == old(self)@ && r->Err_0.value is NotEnoughBytes,
    {
        if self.len() < 2 {
            return Err(IOReadError { value: IOReadErrorValue::NotEnoughBytes });
        }
        let b0 = self.byte_at(0);
        let b1 = self.byte_at(1);
        self.advance(2);
        Ok(((b0 as u16) << 8) | (b1 as u16))
    }

    /// Reads a 24-bit big-endian value.
    pub fn read_u24(&mut self) -> (r: Result<u32, IOReadError>)
        ensures
            r is Ok <==> old(self)@.len() >= 3,
            r is Ok ==> r->Ok_0 == u24_be_val(old(self)@[0], old(self)@[1], old(self)@[2])
                && final(self)@ == old(self)@.skip(3),
            r is Err ==> final(self)@ == old(self)@ && r->Err_0.value is NotEnoughBytes,
    {
        if self.len() < 3 {
            return Err(IOReadError { value: IOReadErrorValue::NotEnoughBytes });
        }
        let b0 = self.byte_at(0);
        let b1 = self.byte_at(1);
        let b2 = self.byte_at(2);
        self.advance(3);
        Ok(((b0 as u32) << 16) | ((b1 as u32) << 8) | (b2 as u32))
    }

    /// Reads a 32-bit big-endian value.
    pub fn read_u32(&mut self) -> (r: Result<u32, IOReadError>)
        ensures
            r is Ok <==> old(self)@.len() >= 4,
            r is Ok ==> r->Ok_0 == u32_be_val(
                old(self)@[0],
                old(self)@[1],
                old(self)@[2],
                old(self)@[3],
            ) && final(self)@ == old(self)@.skip(4),
            r is Err ==> final(self)@ == old(self)@ && r->Err_0.value is NotEnoughBytes,
    {
        if self.len() < 4 {
            return Err(IOReadError { value: IOReadErrorValue::NotEnoughBytes });
        }
        let b0 = self.byte_at(0);
        let b1 = self.byte_at(1);
        let b2 = self.byte_at(2);
        let b3 = self.byte_at(3);
        self.advance(4);
        Ok(((b0 as u32) << 24) | ((b1 as u32) << 16) | ((b2 as u32) << 8) | (b3 as u32))
    }

    /// Reads a 32-bit little-endian value (message stream ids travel
    /// little-endian on the wire).
    pub fn read_u32_le(&mut self) -> (r: Result<u32, IOReadError>)
        ensures
            r is Ok <==> old(self)@.len() >= 4,
            r is Ok ==> r->Ok_0 == u32_le_val(
                old(self)@[0],
                old(self)@[1],
                old(self)@[2],
                old(self)@[3],
            ) && final(self)@ == old(self)@.skip(4),
            r is Err ==> final(self)@ == old(self)@ && r->Err_0.value is NotEnoughBytes,
    {
        if self.len() < 4 {
            return Err(IOReadError { value: IOReadErrorValue::NotEnoughBytes });
        }
        let b0 = self.byte_at(0);
        let b1 = self.byte_at(1);
        let b2 = self.byte_at(2);
        let b3 = self.byte_at(3);
        self.advance(4);
        Ok(((b3 as u32) << 24) | ((b2 as u32) << 16) | ((b1 as u32) << 8) | (b0 as u32))
    }
}

} // verus!
