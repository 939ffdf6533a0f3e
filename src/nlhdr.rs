use vstd::prelude::*;

use crate::ffi::{
    lemma_flags_bijection, lemma_pack_unpack, lemma_unpack_valid, pack_flags, pack_spec,
    unpack_flags, unpack_spec, NlFlags, NlType,
};
use crate::nl::Nl;
use crate::state::{
    lemma_u16_round_trip, lemma_u32_round_trip, u16_bytes, u16_from, u32_bytes, u32_from,
    DeError, Endian, NlDeState, NlSerState, SerError,
};

verus! {

/// Bytes in the header's fixed fields: length, type, flags, sequence and process id.
pub const NL_HDR_FIXED: usize = 16;

/// Whether `s` is the flag list that unpacking its own packed word gives: each
/// flag valid, none repeated, lowest bit first.
pub open spec fn flags_canonical(s: Seq<NlFlags>) -> bool {
    s == unpack_spec(pack_spec(s))
}

/// What a netlink header holds, as plain values.
pub struct NlHdrView<V> {
    pub len: u32,
    pub ty: NlType,
    pub flags: Seq<NlFlags>,
    pub seq: u32,
    pub pid: u32,
    pub payload: V,
}

/// A netlink message header and its payload.
#[derive(Debug, PartialEq)]
pub struct NlHdr<T> {
    nl_len: u32,
    nl_type: NlType,
    nl_flags: Vec<NlFlags>,
    nl_seq: u32,
    nl_pid: u32,
    nl_pl: T,
}

impl<T: Nl> View for NlHdr<T> {
    type V = NlHdrView<T::V>;

    closed spec fn view(&self) -> NlHdrView<T::V> {
        NlHdrView {
            len: self.nl_len,
            ty: self.nl_type,
            flags: self.nl_flags@,
            seq: self.nl_seq,
            pid: self.nl_pid,
            payload: self.nl_pl@,
        }
    }
}

/// The bytes of the fixed fields of `h` in byte order `e`.
pub open spec fn fixed_wire<V>(h: NlHdrView<V>, e: Endian) -> Seq<u8> {
    u32_bytes(e, h.len) + u16_bytes(e, h.ty.spec_code()) + u16_bytes(e, pack_spec(h.flags))
        + u32_bytes(e, h.seq) + u32_bytes(e, h.pid)
}

impl<T> NlHdr<T> {
    #[verifier::type_invariant]
    closed spec fn inv(&self) -> bool {
        flags_canonical(self.nl_flags@)
    }
}

impl<T: Nl> NlHdr<T> {
    /// A header over `nl_pl` of type `nl_type` with the set of flags in `nl_flags`.
    /// Sequence and process id default to 0; the length defaults to the encoded
    /// size of the whole message.
    pub fn new(
        nl_len: Option<u32>,
        nl_type: NlType,
        nl_flags: Vec<NlFlags>,
        nl_seq: Option<u32>,
        nl_pid: Option<u32>,
        nl_pl: T,
    ) -> (r: Self)
        requires
            forall|k: int| 0 <= k < nl_flags@.len() ==> (#[trigger] nl_flags@[k]).valid(),
            nl_len is None ==> NL_HDR_FIXED + T::spec_size(nl_pl@) <= u32::MAX,
        ensures
            r@.len == match nl_len {
                Some(l) => l,
                None => (NL_HDR_FIXED + T::spec_size(nl_pl@)) as u32,
            },
            r@.ty == nl_type,
            r@.flags == unpack_spec(pack_spec(nl_flags@)),
            r@.flags.to_set() == nl_flags@.to_set(),
            flags_canonical(r@.flags),
            r@.seq == match nl_seq {
                Some(s) => s,
                None => 0,
            },
            r@.pid == match nl_pid {
                Some(p) => p,
                None => 0,
            },
            r@.payload == nl_pl@,
    {
        let w = pack_flags(&nl_flags);
        let flags = unpack_flags(w);
        proof {
            lemma_flags_bijection(nl_flags@);
            lemma_pack_unpack(w);
        }
        let seq = match nl_seq {
            Some(s) => s,
            None => 0,
        };
        let pid = match nl_pid {
            Some(p) => p,
            None => 0,
        };
        let len = match nl_len {
            Some(l) => l,
            None => {
                let n = nl_pl.size();
                (NL_HDR_FIXED + n) as u32
            },
        };
        NlHdr { nl_len: len, nl_type, nl_flags: flags, nl_seq: seq, nl_pid: pid, nl_pl }
    }

    pub fn nl_len(&self) -> (r: u32)
        ensures
            r == self@.len,
    {
        self.nl_len
    }

    pub fn nl_type(&self) -> (r: NlType)
        ensures
            r == self@.ty,
    {
        self.nl_type
    }

    /// The header's flags, lowest bit first; they are always canonical.
    pub fn nl_flags(&self) -> (r: &Vec<NlFlags>)
        ensures
            r@ == self@.flags,
            flags_canonical(r@),
    {
        proof {
            use_type_invariant(self);
        }
        &self.nl_flags
    }

    pub fn nl_seq(&self) -> (r: u32)
        ensures
            r == self@.seq,
    {
        self.nl_seq
    }

    pub fn nl_pid(&self) -> (r: u32)
        ensures
            r == self@.pid,
    {
        self.nl_pid
    }

    pub fn nl_pl(&self) -> (r: &T)
        ensures
            r@ == self@.payload,
    {
        &self.nl_pl
    }
}

impl<T: Nl> Nl for NlHdr<T> {
    open spec fn wire(h: NlHdrView<T::V>, e: Endian) -> Seq<u8> {
        fixed_wire(h, e) + T::wire(h.payload, e)
    }

    open spec fn spec_size(h: NlHdrView<T::V>) -> nat {
        (NL_HDR_FIXED + T::spec_size(h.payload)) as nat
    }

    /// Reads length, type, flags, sequence and process id, then the payload from
    /// what follows them. The length field is kept as read: the payload is bounded
    /// by the input's end, not by that field.
    open spec fn parse(e: Endian, s: Seq<u8>) -> Result<NlHdrView<T::V>, DeError> {
        if s.len() < 6 {
            Err(DeError::UnexpectedEob)
        } else if NlType::spec_from_code(u16_from(e, s.skip(4))) is None {
            Err(DeError::UnknownType(u16_from(e, s.skip(4))))
        } else if s.len() < NL_HDR_FIXED {
            Err(DeError::UnexpectedEob)
        } else {
            match T::parse(e, s.skip(NL_HDR_FIXED as int)) {
                Err(x) => Err(x),
                Ok(p) => Ok(
                    NlHdrView {
                        len: u32_from(e, s),
                        ty: NlType::spec_from_code(u16_from(e, s.skip(4)))->Some_0,
                        flags: unpack_spec(u16_from(e, s.skip(6))),
                        seq: u32_from(e, s.skip(8)),
                        pid: u32_from(e, s.skip(12)),
                        payload: p,
                    },
                ),
            }
        }
    }

    proof fn lemma_wire_size(h: NlHdrView<T::V>, e: Endian) {
        T::lemma_wire_size(h.payload, e);
    }

    fn serialize(&self, state: &mut NlSerState) -> (r: Result<(), SerError>) {
        proof {
            use_type_invariant(self);
            lemma_unpack_valid(pack_spec(self.nl_flags@));
            state.lemma_within_limit();
        }
        let ghost e = state.endian();
        let ghost s0 = state@;
        let ghost h = self@;
        let r1 = state.write_u32(self.nl_len);
        if r1.is_err() {
            return r1;
        }
        let r2 = state.write_u16(self.nl_type.code());
        if r2.is_err() {
            assert(s0.is_prefix_of(state@));
            return r2;
        }
        let w = pack_flags(&self.nl_flags);
        let r3 = state.write_u16(w);
        if r3.is_err() {
            assert(s0.is_prefix_of(state@));
            return r3;
        }
        let r4 = state.write_u32(self.nl_seq);
        if r4.is_err() {
            assert(s0.is_prefix_of(state@));
            return r4;
        }
        let r5 = state.write_u32(self.nl_pid);
        if r5.is_err() {
            assert(s0.is_prefix_of(state@));
            return r5;
        }
        assert(state@ == s0 + fixed_wire(h, e));
        let ghost s1 = state@;
        let r6 = self.nl_pl.serialize(state);
        proof {
            if r6.is_ok() {
                assert(state@ == s0 + Self::wire(h, e));
            } else {
                assert(s0.is_prefix_of(s1));
            }
        }
        r6
    }

    fn deserialize(state: &mut NlDeState) -> (r: Result<Self, DeError>) {
        let ghost e = state.endian();
        let ghost s = state@;
        let nl_len = match state.read_u32() {
            Ok(x) => x,
            Err(x) => {
                return Err(x);
            },
        };
        assert(state@ == s.skip(4));
        let code = match state.read_u16() {
            Ok(x) => x,
            Err(x) => {
                return Err(x);
            },
        };
        assert(state@ == s.skip(6));
        let nl_type = match NlType::from_code(code) {
            Some(t) => t,
            None => {
                return Err(DeError::UnknownType(code));
            },
        };
        let w = match state.read_u16() {
            Ok(x) => x,
            Err(x) => {
                return Err(x);
            },
        };
        assert(state@ == s.skip(8));
        let nl_flags = unpack_flags(w);
        proof {
            lemma_pack_unpack(w);
        }
        let nl_seq = match state.read_u32() {
            Ok(x) => x,
            Err(x) => {
                return Err(x);
            },
        };
        assert(state@ == s.skip(12));
        let nl_pid = match state.read_u32() {
            Ok(x) => x,
            Err(x) => {
                return Err(x);
            },
        };
        assert(state@ == s.skip(16));
        let nl_pl = match T::deserialize(state) {
            Ok(p) => p,
            Err(x) => {
                return Err(x);
            },
        };
        assert(state@ == s.skip(Self::spec_size(Self::parse(e, s)->Ok_0) as int));
        Ok(NlHdr { nl_len, nl_type, nl_flags, nl_seq, nl_pid, nl_pl })
    }

    fn size(&self) -> (r: usize) {
        NL_HDR_FIXED + self.nl_pl.size()
    }
}

/// A payload with no content: it encodes to no bytes.
#[derive(Debug, PartialEq)]
pub struct NlEmpty;

impl View for NlEmpty {
    type V = ();

    open spec fn view(&self) -> () {
        ()
    }
}

impl Default for NlEmpty {
    fn default() -> (r: NlEmpty)
        ensures
            r == NlEmpty,
    {
        NlEmpty
    }
}

impl Nl for NlEmpty {
    open spec fn wire(v: (), e: Endian) -> Seq<u8> {
        Seq::empty()
    }

    open spec fn spec_size(v: ()) -> nat {
        0
    }

    open spec fn parse(e: Endian, s: Seq<u8>) -> Result<(), DeError> {
        Ok(())
    }

    proof fn lemma_wire_size(v: (), e: Endian) {
    }

    fn serialize(&self, state: &mut NlSerState) -> (r: Result<(), SerError>) {
        proof {
            state.lemma_within_limit();
        }
        assert(state@ == state@ + Seq::<u8>::empty());
        Ok(())
    }

    fn deserialize(state: &mut NlDeState) -> (r: Result<Self, DeError>) {
        assert(state@ == state@.skip(0));
        Ok(NlEmpty)
    }

    fn size(&self) -> (r: usize) {
        0
    }
}

/// Decoding the encoding of a header with canonical flags gives the header back,
/// whatever follows it, provided its payload decodes back from its own encoding.
pub proof fn lemma_round_trip<T: Nl>(h: NlHdrView<T::V>, e: Endian, rest: Seq<u8>)
    requires
        flags_canonical(h.flags),
        T::parse(e, T::wire(h.payload, e) + rest) == Ok::<T::V, DeError>(h.payload),
    ensures
        NlHdr::<T>::parse(e, NlHdr::<T>::wire(h, e) + rest) == Ok::<NlHdrView<T::V>, DeError>(h),
{
    let b0 = u32_bytes(e, h.len);
    let b1 = u16_bytes(e, h.ty.spec_code());
    let b2 = u16_bytes(e, pack_spec(h.flags));
    let b3 = u32_bytes(e, h.seq);
    let b4 = u32_bytes(e, h.pid);
    let p = T::wire(h.payload, e) + rest;
    let p4 = b4 + p;
    let p3 = b3 + p4;
    let p2 = b2 + p3;
    let p1 = b1 + p2;
    let s = NlHdr::<T>::wire(h, e) + rest;
    assert(b0.len() == 4 && b1.len() == 2 && b2.len() == 2 && b3.len() == 4 && b4.len() == 4);
    assert(s =~= b0 + p1);
    assert(s.skip(4) =~= p1);
    assert(s.skip(6) =~= p2);
    assert(s.skip(8) =~= p3);
    assert(s.skip(12) =~= p4);
    assert(s.skip(16) =~= p);
    lemma_u32_round_trip(e, h.len, p1);
    lemma_u16_round_trip(e, h.ty.spec_code(), p2);
    lemma_u16_round_trip(e, pack_spec(h.flags), p3);
    lemma_u32_round_trip(e, h.seq, p4);
    lemma_u32_round_trip(e, h.pid, p);
}

/// What decoding gives has canonical flags: it satisfies what `new` establishes,
/// so it encodes and decodes back again.
pub proof fn lemma_parse_canonical<T: Nl>(e: Endian, s: Seq<u8>)
    ensures
        NlHdr::<T>::parse(e, s) matches Ok(h) ==> flags_canonical(h.flags),
{
    if s.len() >= 8 {
        lemma_pack_unpack(u16_from(e, s.skip(6)));
    }
}

/// The size of a header is the number of bytes its encoding has, in either byte
/// order: the fixed fields and then the payload's own size.
pub proof fn lemma_size_matches_wire<T: Nl>(h: NlHdrView<T::V>, e: Endian)
    ensures
        NlHdr::<T>::wire(h, e).len() == NlHdr::<T>::spec_size(h),
        NlHdr::<T>::spec_size(h) == NL_HDR_FIXED + T::spec_size(h.payload),
{
    NlHdr::<T>::lemma_wire_size(h, e);
}

/// Input shorter than the fixed fields never decodes to a header.
pub proof fn lemma_truncated_fails<T: Nl>(e: Endian, s: Seq<u8>)
    requires
        s.len() < NL_HDR_FIXED,
    ensures
        NlHdr::<T>::parse(e, s) is Err,
{
}

/// The declared length does not steer decoding: with another value in the length
/// field, the input decodes to the same header with that length, or fails the same way.
pub proof fn lemma_declared_length_kept<T: Nl>(e: Endian, s: Seq<u8>, x: u32)
    requires
        s.len() >= 4,
    ensures
        ({
            let t = u32_bytes(e, x) + s.skip(4);
            match (NlHdr::<T>::parse(e, s), NlHdr::<T>::parse(e, t)) {
                (Ok(h), Ok(g)) => g == (NlHdrView { len: x, ..h }),
                (Err(a), Err(b)) => a == b,
                _ => false,
            }
        }),
{
    let t = u32_bytes(e, x) + s.skip(4);
    lemma_u32_round_trip(e, x, s.skip(4));
    assert(t.len() == s.len());
    assert(t.skip(4) =~= s.skip(4));
    if s.len() >= 6 {
        assert(t.skip(6) =~= s.skip(6));
    }
    if s.len() >= 8 {
        assert(t.skip(8) =~= s.skip(8));
    }
    if s.len() >= 12 {
        assert(t.skip(12) =~= s.skip(12));
    }
    if s.len() >= 16 {
        assert(t.skip(16) =~= s.skip(16));
    }
}

} // verus!
