use vstd::prelude::*;

use crate::state::{DeError, Endian, NlDeState, NlSerState, SerError};

verus! {

/// A value with a byte encoding: it writes itself to an output buffer, reads
/// itself from the front of an input buffer, and knows its encoded size.
pub trait Nl: Sized + View {
    /// The bytes of `v` in byte order `e`.
    spec fn wire(v: Self::V, e: Endian) -> Seq<u8>;

    /// The number of bytes in the encoding of `v`.
    spec fn spec_size(v: Self::V) -> nat;

    /// What decoding the front of `s` in byte order `e` gives.
    spec fn parse(e: Endian, s: Seq<u8>) -> Result<Self::V, DeError>;

    /// The encoding has the same size in either byte order.
    proof fn lemma_wire_size(v: Self::V, e: Endian)
        ensures
            Self::wire(v, e).len() == Self::spec_size(v),
    ;

    /// Appends the encoding of `self`. Fails where it would pass the buffer's limit,
    /// leaving what was written up to then.
    fn serialize(&self, state: &mut NlSerState) -> (r: Result<(), SerError>)
        requires
            old(state).wf(),
        ensures
            final(state).wf(),
            final(state).endian() == old(state).endian(),
            final(state).limit() == old(state).limit(),
            r is Ok <==> old(state)@.len() + Self::spec_size(self@) <= old(state).limit(),
            r is Ok ==> final(state)@ == old(state)@ + Self::wire(self@, old(state).endian()),
            r is Err ==> old(state)@.is_prefix_of(final(state)@),
    ;

    /// Decodes a value from the front of the input, consuming exactly its encoded size.
    fn deserialize(state: &mut NlDeState) -> (r: Result<Self, DeError>)
        requires
            old(state).wf(),
        ensures
            final(state).wf(),
            final(state).endian() == old(state).endian(),
            match Self::parse(old(state).endian(), old(state)@) {
                Ok(v) => r is Ok && r->Ok_0@ == v && Self::spec_size(v) <= old(state)@.len()
                    && final(state)@ == old(state)@.skip(Self::spec_size(v) as int),
                Err(x) => r == Err::<Self, DeError>(x),
            },
    ;

    /// The number of bytes `serialize` writes.
    fn size(&self) -> (r: usize)
        requires
            Self::spec_size(self@) <= usize::MAX,
        ensures
            r == Self::spec_size(self@),
    ;
}

} // verus!
