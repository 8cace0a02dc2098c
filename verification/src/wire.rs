//! Fixed-width integer encodings used by the RTMP wire format, together
//! with a growable byte writer whose contract tracks the exact bytes
//! appended.

use vstd::prelude::*;

verus! {

/// The two big-endian bytes of a value below 2^16.
pub open spec fn u16_be_bytes(v: u16) -> Seq<u8> {
    seq![((v >> 8) & 0xFF) as u8, (v & 0xFF) as u8]
}

/// The value carried by two big-endian bytes.
pub open spec fn u16_be_val(b0: u8, b1: u8) -> u16 {
    (((b0 as u16) << 8) | (b1 as u16)) as u16
}

/// The three big-endian bytes of a value below 2^24.
pub open spec fn u24_be_bytes(v: u32) -> Seq<u8> {
    seq![((v >> 16) & 0xFF) as u8, ((v >> 8) & 0xFF) as u8, (v & 0xFF) as u8]
}

/// The four big-endian bytes of a 32-bit value.
pub open spec fn u32_be_bytes(v: u32) -> Seq<u8> {
    seq![
        ((v >> 24) & 0xFF) as u8,
        ((v >> 16) & 0xFF) as u8,
        ((v >> 8) & 0xFF) as u8,
        (v & 0xFF) as u8,
    ]
}

/// The four little-endian bytes of a 32-bit value.
pub open spec fn u32_le_bytes(v: u32) -> Seq<u8> {
    seq![
        (v & 0xFF) as u8,
        ((v >> 8) & 0xFF) as u8,
        ((v >> 16) & 0xFF) as u8,
        ((v >> 24) & 0xFF) as u8,
    ]
}

/// The value carried by three big-endian bytes.
pub open spec fn u24_be_val(b0: u8, b1: u8, b2: u8) -> u32 {
    (((b0 as u32) << 16) | ((b1 as u32) << 8) | (b2 as u32)) as u32
}

/// The value carried by four big-endian bytes.
pub open spec fn u32_be_val(b0: u8, b1: u8, b2: u8, b3: u8) -> u32 {
    (((b0 as u32) << 24) | ((b1 as u32) << 16) | ((b2 as u32) << 8) | (b3 as u32)) as u32
}

/// The value carried by four little-endian bytes.
pub open spec fn u32_le_val(b0: u8, b1: u8, b2: u8, b3: u8) -> u32 {
    (((b3 as u32) << 24) | ((b2 as u32) << 16) | ((b1 as u32) << 8) | (b0 as u32)) as u32
}

/// Decoding the three big-endian bytes of a value below 2^24 gives the
/// value back.
pub proof fn lemma_u24_be_roundtrip(v: u32)
    requires
        v < 0x1000000,
    ensures
        u24_be_val(((v >> 16) & 0xFF) as u8, ((v >> 8) & 0xFF) as u8, (v & 0xFF) as u8) == v,
{
    assert((((((v >> 16) & 0xFF) as u8 as u32) << 16) | ((((v >> 8) & 0xFF) as u8 as u32) << 8)
        | ((v & 0xFF) as u8 as u32)) as u32 == v) by (bit_vector)
        requires
            v < 0x1000000,
    ;
}

/// Decoding the four big-endian bytes of a value gives the value back.
pub proof fn lemma_u32_be_roundtrip(v: u32)
    ensures
        u32_be_val(
            ((v >> 24) & 0xFF) as u8,
            ((v >> 16) & 0xFF) as u8,
            ((v >> 8) & 0xFF) as u8,
            (v & 0xFF) as u8,
        ) == v,
{
    assert((((((v >> 24) & 0xFF) as u8 as u32) << 24) | ((((v >> 16) & 0xFF) as u8 as u32) << 16)
        | ((((v >> 8) & 0xFF) as u8 as u32) << 8) | ((v & 0xFF) as u8 as u32)) as u32 == v)
        by (bit_vector);
}

/// Decoding the four little-endian bytes of a value gives the value back.
pub proof fn lemma_u32_le_roundtrip(v: u32)
    ensures
        u32_le_val(
            (v & 0xFF) as u8,
            ((v >> 8) & 0xFF) as u8,
            ((v >> 16) & 0xFF) as u8,
            ((v >> 24) & 0xFF) as u8,
        ) == v,
{
    assert((((((v >> 24) & 0xFF) as u8 as u32) << 24) | ((((v >> 16) & 0xFF) as u8 as u32) << 16)
        | ((((v >> 8) & 0xFF) as u8 as u32) << 8) | ((v & 0xFF) as u8 as u32)) as u32 == v)
        by (bit_vector);
}

/// Append-only buffer for outbound bytes; its view is the byte sequence
/// written so far.
pub struct BytesWriter {
    data: Vec<u8>,
}

impl View for BytesWriter {
    type V = Seq<u8>;

    closed spec fn view(&self) -> Seq<u8> {
        self.data@
    }
}

impl BytesWriter {
    pub fn new() -> (r: BytesWriter)
        ensures
            r@ == Seq::<u8>::empty(),
    {
        BytesWriter { data: Vec::new() }
    }

    pub fn len(&self) -> (r: usize)
        ensures
            r == self@.len(),
    {
        self.data.len()
    }

    pub fn write_u8(&mut self, v: u8)
        ensures
            final(self)@ == old(self)@.push(v),
    {
        self.data.push(v);
    }

    pub fn write_u16_be(&mut self, v: u16)
        ensures
            final(self)@ == old(self)@ + u16_be_bytes(v),
    {
        self.data.push(((v >> 8) & 0xFF) as u8);
        self.data.push((v & 0xFF) as u8);
        assert(self@ =~= old(self)@ + u16_be_bytes(v));
    }

    pub fn write_u24_be(&mut self, v: u32)
        requires
            v < 0x1000000,
        ensures
            final(self)@ == old(self)@ + u24_be_bytes(v),
    {
        self.data.push(((v >> 16) & 0xFF) as u8);
        self.data.push(((v >> 8) & 0xFF) as u8);
        self.data.push((v & 0xFF) as u8);
        assert(self@ =~= old(self)@ + u24_be_bytes(v));
    }

    pub fn write_u32_be(&mut self, v: u32)
        ensures
            final(self)@ == old(self)@ + u32_be_bytes(v),
    {
        self.data.push(((v >> 24) & 0xFF) as u8);
        self.data.push(((v >> 16) & 0xFF) as u8);
        self.data.push(((v >> 8) & 0xFF) as u8);
        self.data.push((v & 0xFF) as u8);
        assert(self@ =~= old(self)@ + u32_be_bytes(v));
    }

    pub fn write_u32_le(&mut self, v: u32)
        ensures
            final(self)@ == old(self)@ + u32_le_bytes(v),
    {
        self.data.push((v & 0xFF) as u8);
        self.data.push(((v >> 8) & 0xFF) as u8);
        self.data.push(((v >> 16) & 0xFF) as u8);
        self.data.push(((v >> 24) & 0xFF) as u8);
        assert(self@ =~= old(self)@ + u32_le_bytes(v));
    }

    pub fn write_bytes(&mut self, s: &[u8])
        ensures
            final(self)@ == old(self)@ + s@,
    {
        let mut i: usize = 0;
        while i < s.len()
            invariant
                i <= s@.len(),
                self@ == old(self)@ + s@.take(i as int),
            decreases s@.len() - i,
        {
            self.data.push(s[i]);
            i = i + 1;
            assert(self@ =~= old(self)@ + s@.take(i as int));
        }
        assert(self@ =~= old(self)@ + s@);
    }

    /// Hands the buffered bytes out (for the transport) and leaves the
    /// writer empty.
    pub fn take_bytes(&mut self) -> (r: Vec<u8>)
        ensures
            r@ == old(self)@,
            final(self)@ == Seq::<u8>::empty(),
    {
        let mut out: Vec<u8> = Vec::new();
        std::mem::swap(&mut out, &mut self.data);
        out
    }

    /// Read access to the buffered bytes.
    pub fn as_bytes(&self) -> (r: &Vec<u8>)
        ensures
            r@ == self@,
    {
        &self.data
    }
}

} // verus!
