use vstd::prelude::*;

verus! {

/// Byte order of the multi-byte integers in a buffer.
#[derive(Clone, Copy, Debug, PartialEq, Eq, Structural)]
pub enum Endian {
    Little,
    Big,
}

/// A write that would take the output buffer past its limit.
#[derive(Clone, Copy, Debug, PartialEq, Eq, Structural)]
pub enum SerError {
    BufferFull,
}

/// Why decoding stopped.
#[derive(Clone, Copy, Debug, PartialEq, Eq, Structural)]
pub enum DeError {
    /// The input ended before the value did.
    UnexpectedEob,
    /// A message type code with no defined meaning.
    UnknownType(u16),
}

/// The two bytes of `x` in byte order `e`.
pub open spec fn u16_bytes(e: Endian, x: u16) -> Seq<u8> {
    let lo = (x & 0xff) as u8;
    let hi = (x >> 8) as u8;
    match e {
        Endian::Little => seq![lo, hi],
        Endian::Big => seq![hi, lo],
    }
}

/// The four bytes of `x` in byte order `e`.
pub open spec fn u32_bytes(e: Endian, x: u32) -> Seq<u8> {
    let b0 = (x & 0xff) as u8;
    let b1 = ((x >> 8) & 0xff) as u8;
    let b2 = ((x >> 16) & 0xff) as u8;
    let b3 = (x >> 24) as u8;
    match e {
        Endian::Little => seq![b0, b1, b2, b3],
        Endian::Big => seq![b3, b2, b1, b0],
    }
}

pub open spec fn u16_of_bytes(lo: u8, hi: u8) -> u16 {
    (lo as u16) | ((hi as u16) << 8)
}

/// The `u16` that the first two bytes of `s` encode in byte order `e`.
pub open spec fn u16_from(e: Endian, s: Seq<u8>) -> u16 {
    match e {
        Endian::Little => u16_of_bytes(s[0], s[1]),
        Endian::Big => u16_of_bytes(s[1], s[0]),
    }
}

pub open spec fn u32_of_bytes(b0: u8, b1: u8, b2: u8, b3: u8) -> u32 {
    (b0 as u32) | ((b1 as u32) << 8) | ((b2 as u32) << 16) | ((b3 as u32) << 24)
}

/// The `u32` that the first four bytes of `s` encode in byte order `e`.
pub open spec fn u32_from(e: Endian, s: Seq<u8>) -> u32 {
    match e {
        Endian::Little => u32_of_bytes(s[0], s[1], s[2], s[3]),
        Endian::Big => u32_of_bytes(s[3], s[2], s[1], s[0]),
    }
}

/// Decoding the bytes of a `u16` gives it back, whatever follows them.
pub proof fn lemma_u16_round_trip(e: Endian, x: u16, rest: Seq<u8>)
    ensures
        u16_from(e, u16_bytes(e, x) + rest) == x,
{
    let s = u16_bytes(e, x) + rest;
    assert(s[0] == u16_bytes(e, x)[0] && s[1] == u16_bytes(e, x)[1]);
    assert(((x & 0xff) as u8 as u16) | (((x >> 8) as u8 as u16) << 8) == x) by (bit_vector);
}

/// Decoding the bytes of a `u32` gives it back, whatever follows them.
pub proof fn lemma_u32_round_trip(e: Endian, x: u32, rest: Seq<u8>)
    ensures
        u32_from(e, u32_bytes(e, x) + rest) == x,
{
    let s = u32_bytes(e, x) + rest;
    let b = u32_bytes(e, x);
    assert(s[0] == b[0] && s[1] == b[1] && s[2] == b[2] && s[3] == b[3]);
    assert(((x & 0xff) as u8 as u32) | ((((x >> 8) & 0xff) as u8 as u32) << 8) | ((((x >> 16)
        & 0xff) as u8 as u32) << 16) | (((x >> 24) as u8 as u32) << 24) == x) by (bit_vector);
}

/// Relies on `u16::to_ne_bytes`: the bytes of `x` in the platform's byte order,
/// which is little-endian or big-endian.
#[verifier::external_body]
fn u16_to_ne_bytes(x: u16) -> (r: [u8; 2])
    ensures
        r@ == u16_bytes(Endian::Little, x) || r@ == u16_bytes(Endian::Big, x),
{
    x.to_ne_bytes()
}

impl Endian {
    /// The platform's own byte order.
    pub fn native() -> Endian {
        let b = u16_to_ne_bytes(1);
        if b[0] == 1 {
            Endian::Little
        } else {
            Endian::Big
        }
    }
}

/// An output buffer that grows up to a limit, written in one byte order.
pub struct NlSerState {
    buf: Vec<u8>,
    endian: Endian,
    limit: usize,
}

impl View for NlSerState {
    type V = Seq<u8>;

    closed spec fn view(&self) -> Seq<u8> {
        self.buf@
    }
}

impl NlSerState {
    pub closed spec fn endian(&self) -> Endian {
        self.endian
    }

    /// How many bytes the buffer may hold in all.
    pub closed spec fn limit(&self) -> nat {
        self.limit as nat
    }

    pub closed spec fn wf(&self) -> bool {
        self.buf@.len() <= self.limit
    }

    /// A well-formed buffer holds no more than its limit.
    pub proof fn lemma_within_limit(&self)
        requires
            self.wf(),
        ensures
            self@.len() <= self.limit(),
    {
    }

    /// An empty buffer in the platform's byte order, with no limit short of memory.
    pub fn new() -> (r: NlSerState)
        ensures
            r.wf(),
            r@ == Seq::<u8>::empty(),
            r.limit() == usize::MAX,
    {
        NlSerState::with_endian(Endian::native(), usize::MAX)
    }

    /// An empty buffer in byte order `endian` that takes at most `limit` bytes.
    pub fn with_endian(endian: Endian, limit: usize) -> (r: NlSerState)
        ensures
            r.wf(),
            r@ == Seq::<u8>::empty(),
            r.endian() == endian,
            r.limit() == limit,
    {
        NlSerState { buf: Vec::new(), endian, limit }
    }

    pub fn get_endian(&self) -> (r: Endian)
        ensures
            r == self.endian(),
    {
        self.endian
    }

    /// The bytes written so far.
    pub fn into_inner(self) -> (r: Vec<u8>)
        ensures
            r@ == self@,
    {
        self.buf
    }

    /// Appends `bytes` whole, or fails with nothing written when they would pass the limit.
    pub fn write_bytes(&mut self, bytes: &[u8]) -> (r: Result<(), SerError>)
        requires
            old(self).wf(),
        ensures
            final(self).wf(),
            final(self).endian() == old(self).endian(),
            final(self).limit() == old(self).limit(),
            r is Ok <==> old(self)@.len() + bytes@.len() <= old(self).limit(),
            r is Ok ==> final(self)@ == old(self)@ + bytes@,
            r is Err ==> r == Err::<(), SerError>(SerError::BufferFull) && final(self)@ == old(self)@,
    {
        if bytes.len() > self.limit - self.buf.len() {
            return Err(SerError::BufferFull);
        }
        let ghost start = self.buf@;
        let mut i: usize = 0;
        while i < bytes.len()
            invariant
                i <= bytes@.len(),
                self.buf@ == start + bytes@.take(i as int),
                self.limit == old(self).limit,
                self.endian == old(self).endian,
                start == old(self)@,
                start.len() + bytes@.len() <= self.limit,
            decreases bytes@.len() - i,
        {
            self.buf.push(bytes[i]);
            i = i + 1;
            assert(bytes@.take(i as int) == bytes@.take(i - 1) + seq![bytes@[i - 1]]);
        }
        assert(bytes@.take(i as int) == bytes@);
        Ok(())
    }

    /// Appends `x` in the buffer's byte order.
    pub fn write_u16(&mut self, x: u16) -> (r: Result<(), SerError>)
        requires
            old(self).wf(),
        ensures
            final(self).wf(),
            final(self).endian() == old(self).endian(),
            final(self).limit() == old(self).limit(),
            r is Ok <==> old(self)@.len() + 2 <= old(self).limit(),
            r is Ok ==> final(self)@ == old(self)@ + u16_bytes(old(self).endian(), x),
            r is Err ==> r == Err::<(), SerError>(SerError::BufferFull) && final(self)@ == old(self)@,
    {
        let lo = (x & 0xff) as u8;
        let hi = (x >> 8) as u8;
        let b = match self.endian {
            Endian::Little => [lo, hi],
            Endian::Big => [hi, lo],
        };
        assert(b@ == u16_bytes(self.endian, x));
        self.write_bytes(&b)
    }

    /// Appends `x` in the buffer's byte order.
    pub fn write_u32(&mut self, x: u32) -> (r: Result<(), SerError>)
        requires
            old(self).wf(),
        ensures
            final(self).wf(),
            final(self).endian() == old(self).endian(),
            final(self).limit() == old(self).limit(),
            r is Ok <==> old(self)@.len() + 4 <= old(self).limit(),
            r is Ok ==> final(self)@ == old(self)@ + u32_bytes(old(self).endian(), x),
            r is Err ==> r == Err::<(), SerError>(SerError::BufferFull) && final(self)@ == old(self)@,
    {
        let b0 = (x & 0xff) as u8;
        let b1 = ((x >> 8) & 0xff) as u8;
        let b2 = ((x >> 16) & 0xff) as u8;
        let b3 = (x >> 24) as u8;
        let b = match self.endian {
            Endian::Little => [b0, b1, b2, b3],
            Endian::Big => [b3, b2, b1, b0],
        };
        assert(b@ == u32_bytes(self.endian, x));
        self.write_bytes(&b)
    }
}

/// An input buffer read from the front, in one byte order.
pub struct NlDeState {
    buf: Vec<u8>,
    pos: usize,
    endian: Endian,
}

impl View for NlDeState {
    type V = Seq<u8>;

    /// The bytes not read yet.
    closed spec fn view(&self) -> Seq<u8> {
        self.buf@.subrange(self.pos as int, self.buf@.len() as int)
    }
}

impl NlDeState {
    pub closed spec fn endian(&self) -> Endian {
        self.endian
    }

    pub closed spec fn wf(&self) -> bool {
        self.pos <= self.buf@.len()
    }

    /// A reader over a copy of `buf`, in the platform's byte order.
    pub fn new(buf: &[u8]) -> (r: NlDeState)
        ensures
            r.wf(),
            r@ == buf@,
    {
        NlDeState::with_endian(buf, Endian::native())
    }

    /// A reader over a copy of `buf`, in byte order `endian`.
    pub fn with_endian(buf: &[u8], endian: Endian) -> (r: NlDeState)
        ensures
            r.wf(),
            r@ == buf@,
            r.endian() == endian,
    {
        let v = vstd::slice::slice_to_vec(buf);
        let r = NlDeState { buf: v, pos: 0, endian };
        assert(r@ == buf@);
        r
    }

    pub fn get_endian(&self) -> (r: Endian)
        ensures
            r == self.endian(),
    {
        self.endian
    }

    /// How many bytes are left to read.
    pub fn remaining(&self) -> (r: usize)
        requires
            self.wf(),
        ensures
            r == self@.len(),
    {
        self.buf.len() - self.pos
    }

    /// Reads a `u16` in the buffer's byte order; fails, reading nothing, where fewer
    /// than two bytes are left.
    pub fn read_u16(&mut self) -> (r: Result<u16, DeError>)
        requires
            old(self).wf(),
        ensures
            final(self).wf(),
            final(self).endian() == old(self).endian(),
            old(self)@.len() >= 2 ==> r == Ok::<u16, DeError>(u16_from(old(self).endian(), old(self)@))
                && final(self)@ == old(self)@.skip(2),
            old(self)@.len() < 2 ==> r == Err::<u16, DeError>(DeError::UnexpectedEob) && final(self)@
                == old(self)@,
    {
        if self.buf.len() - self.pos < 2 {
            return Err(DeError::UnexpectedEob);
        }
        let a = self.buf[self.pos];
        let b = self.buf[self.pos + 1];
        self.pos = self.pos + 2;
        let x = match self.endian {
            Endian::Little => (a as u16) | ((b as u16) << 8),
            Endian::Big => (b as u16) | ((a as u16) << 8),
        };
        assert(self@ =~= old(self)@.skip(2));
        Ok(x)
    }

    /// Reads a `u32` in the buffer's byte order; fails, reading nothing, where fewer
    /// than four bytes are left.
    pub fn read_u32(&mut self) -> (r: Result<u32, DeError>)
        requires
            old(self).wf(),
        ensures
            final(self).wf(),
            final(self).endian() == old(self).endian(),
            old(self)@.len() >= 4 ==> r == Ok::<u32, DeError>(u32_from(old(self).endian(), old(self)@))
                && final(self)@ == old(self)@.skip(4),
            old(self)@.len() < 4 ==> r == Err::<u32, DeError>(DeError::UnexpectedEob) && final(self)@
                == old(self)@,
    {
        if self.buf.len() - self.pos < 4 {
            return Err(DeError::UnexpectedEob);
        }
        let p = self.pos;
        let b0 = self.buf[p];
        let b1 = self.buf[p + 1];
        let b2 = self.buf[p + 2];
        let b3 = self.buf[p + 3];
        self.pos = p + 4;
        let x = match self.endian {
            Endian::Little => (b0 as u32) | ((b1 as u32) << 8) | ((b2 as u32) << 16) | ((b3 as u32)
                << 24),
            Endian::Big => (b3 as u32) | ((b2 as u32) << 8) | ((b1 as u32) << 16) | ((b0 as u32)
                << 24),
        };
        assert(self@ =~= old(self)@.skip(4));
        Ok(x)
    }
}

} // verus!
