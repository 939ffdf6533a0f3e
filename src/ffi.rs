use vstd::prelude::*;

verus! {

/// Netlink control message types, carried as a `u16` code.
#[derive(Clone, Copy, Debug, PartialEq, Eq, Structural)]
pub enum NlType {
    NlNoop,
    NlError,
    NlDone,
    NlOverrun,
}

impl NlType {
    /// The type's wire code.
    pub open spec fn spec_code(self) -> u16 {
        match self {
            NlType::NlNoop => 1,
            NlType::NlError => 2,
            NlType::NlDone => 3,
            NlType::NlOverrun => 4,
        }
    }

    /// The type whose wire code is `c`, if any.
    pub open spec fn spec_from_code(c: u16) -> Option<NlType> {
        if c == 1 {
            Some(NlType::NlNoop)
        } else if c == 2 {
            Some(NlType::NlError)
        } else if c == 3 {
            Some(NlType::NlDone)
        } else if c == 4 {
            Some(NlType::NlOverrun)
        } else {
            None
        }
    }

    pub fn code(&self) -> (r: u16)
        ensures
            r == self.spec_code(),
    {
        match self {
            NlType::NlNoop => 1,
            NlType::NlError => 2,
            NlType::NlDone => 3,
            NlType::NlOverrun => 4,
        }
    }

    pub fn from_code(c: u16) -> (r: Option<NlType>)
        ensures
            r == NlType::spec_from_code(c),
    {
        if c == 1 {
            Some(NlType::NlNoop)
        } else if c == 2 {
            Some(NlType::NlError)
        } else if c == 3 {
            Some(NlType::NlDone)
        } else if c == 4 {
            Some(NlType::NlOverrun)
        } else {
            None
        }
    }
}

impl Default for NlType {
    fn default() -> (r: NlType)
        ensures
            r == NlType::NlNoop,
    {
        NlType::NlNoop
    }
}

/// Netlink header flags, one bit each. A bit that no named flag claims is kept
/// as `Unknown` with its position.
#[derive(Clone, Copy, Debug, PartialEq, Eq, Structural)]
pub enum NlFlags {
    NlRequest,
    NlMulti,
    NlAck,
    NlEcho,
    NlDumpIntr,
    NlDumpFiltered,
    NlRoot,
    NlMatch,
    NlAtomic,
    NlAppend,
    Unknown(u8),
}

/// Whether bit position `i` has no named flag.
pub open spec fn unnamed_position(i: u8) -> bool {
    i == 6 || i == 7 || (12 <= i && i < 16)
}

/// The flag that stands for bit position `i` (below 16).
pub open spec fn flag_at(i: u8) -> NlFlags {
    if i == 0 {
        NlFlags::NlRequest
    } else if i == 1 {
        NlFlags::NlMulti
    } else if i == 2 {
        NlFlags::NlAck
    } else if i == 3 {
        NlFlags::NlEcho
    } else if i == 4 {
        NlFlags::NlDumpIntr
    } else if i == 5 {
        NlFlags::NlDumpFiltered
    } else if i == 8 {
        NlFlags::NlRoot
    } else if i == 9 {
        NlFlags::NlMatch
    } else if i == 10 {
        NlFlags::NlAtomic
    } else if i == 11 {
        NlFlags::NlAppend
    } else {
        NlFlags::Unknown(i)
    }
}

impl NlFlags {
    /// The flag's bit position.
    pub open spec fn spec_pos(self) -> u8 {
        match self {
            NlFlags::NlRequest => 0,
            NlFlags::NlMulti => 1,
            NlFlags::NlAck => 2,
            NlFlags::NlEcho => 3,
            NlFlags::NlDumpIntr => 4,
            NlFlags::NlDumpFiltered => 5,
            NlFlags::NlRoot => 8,
            NlFlags::NlMatch => 9,
            NlFlags::NlAtomic => 10,
            NlFlags::NlAppend => 11,
            NlFlags::Unknown(i) => i,
        }
    }

    /// A named flag, or an `Unknown` one at a position below 16 that no named flag has.
    pub open spec fn valid(self) -> bool {
        match self {
            NlFlags::Unknown(i) => unnamed_position(i),
            _ => true,
        }
    }

    /// The flag's value in the flags word.
    pub open spec fn spec_bit(self) -> u16 {
        (1u16 << (self.spec_pos() as u16)) as u16
    }

    pub fn pos(&self) -> (r: u8)
        ensures
            r == self.spec_pos(),
    {
        match self {
            NlFlags::NlRequest => 0,
            NlFlags::NlMulti => 1,
            NlFlags::NlAck => 2,
            NlFlags::NlEcho => 3,
            NlFlags::NlDumpIntr => 4,
            NlFlags::NlDumpFiltered => 5,
            NlFlags::NlRoot => 8,
            NlFlags::NlMatch => 9,
            NlFlags::NlAtomic => 10,
            NlFlags::NlAppend => 11,
            NlFlags::Unknown(i) => *i,
        }
    }

    /// The flag's value in the flags word.
    pub fn bit(&self) -> (r: u16)
        requires
            self.valid(),
        ensures
            r == self.spec_bit(),
    {
        let p = self.pos() as u16;
        1u16 << p
    }

    /// The flag that stands for bit position `i`.
    pub fn at(i: u8) -> (r: NlFlags)
        requires
            i < 16,
        ensures
            r == flag_at(i),
    {
        if i == 0 {
            NlFlags::NlRequest
        } else if i == 1 {
            NlFlags::NlMulti
        } else if i == 2 {
            NlFlags::NlAck
        } else if i == 3 {
            NlFlags::NlEcho
        } else if i == 4 {
            NlFlags::NlDumpIntr
        } else if i == 5 {
            NlFlags::NlDumpFiltered
        } else if i == 8 {
            NlFlags::NlRoot
        } else if i == 9 {
            NlFlags::NlMatch
        } else if i == 10 {
            NlFlags::NlAtomic
        } else if i == 11 {
            NlFlags::NlAppend
        } else {
            NlFlags::Unknown(i)
        }
    }
}

/// Each position below 16 has a valid flag, which sits at that position.
pub proof fn lemma_flag_at(i: u8)
    requires
        i < 16,
    ensures
        flag_at(i).valid(),
        flag_at(i).spec_pos() == i,
{
}

/// A valid flag is the one that stands for its position.
pub proof fn lemma_flag_at_pos(f: NlFlags)
    requires
        f.valid(),
    ensures
        f.spec_pos() < 16,
        flag_at(f.spec_pos()) == f,
{
}

/// The OR of the bits of all flags in `s`.
pub open spec fn pack_spec(s: Seq<NlFlags>) -> u16
    decreases s.len(),
{
    if s.len() == 0 {
        0
    } else {
        pack_spec(s.drop_last()) | s.last().spec_bit()
    }
}

/// Whether bit `i` of `w` is set.
pub open spec fn bit_set(w: u16, i: u8) -> bool {
    w & (1u16 << (i as u16)) != 0
}

/// The flags of the set bits of `w` below position `i`, lowest first.
pub open spec fn unpack_upto(w: u16, i: u8) -> Seq<NlFlags>
    decreases i,
{
    if i == 0 {
        Seq::empty()
    } else {
        let j = (i - 1) as u8;
        if bit_set(w, j) {
            unpack_upto(w, j).push(flag_at(j))
        } else {
            unpack_upto(w, j)
        }
    }
}

/// The flags of the set bits of `w`, lowest first.
pub open spec fn unpack_spec(w: u16) -> Seq<NlFlags> {
    unpack_upto(w, 16)
}

proof fn lemma_bit_or(a: u16, b: u16, j: u16)
    by (bit_vector)
    requires
        j < 16,
    ensures
        ((a | b) & (1u16 << j) != 0) == ((a & (1u16 << j) != 0) || (b & (1u16 << j) != 0)),
{
}

proof fn lemma_bit_single(p: u16, j: u16)
    by (bit_vector)
    requires
        p < 16,
        j < 16,
    ensures
        (((1u16 << p) as u16) & (1u16 << j) != 0) == (p == j),
{
}

proof fn lemma_bit_zero(j: u16)
    by (bit_vector)
    ensures
        (0u16 & (1u16 << j)) == 0,
{
}

proof fn lemma_bits_equal(a: u16, b: u16)
    by (bit_vector)
    requires
        (a & (1u16 << 0u16) != 0) == (b & (1u16 << 0u16) != 0),
        (a & (1u16 << 1u16) != 0) == (b & (1u16 << 1u16) != 0),
        (a & (1u16 << 2u16) != 0) == (b & (1u16 << 2u16) != 0),
        (a & (1u16 << 3u16) != 0) == (b & (1u16 << 3u16) != 0),
        (a & (1u16 << 4u16) != 0) == (b & (1u16 << 4u16) != 0),
        (a & (1u16 << 5u16) != 0) == (b & (1u16 << 5u16) != 0),
        (a & (1u16 << 6u16) != 0) == (b & (1u16 << 6u16) != 0),
        (a & (1u16 << 7u16) != 0) == (b & (1u16 << 7u16) != 0),
        (a & (1u16 << 8u16) != 0) == (b & (1u16 << 8u16) != 0),
        (a & (1u16 << 9u16) != 0) == (b & (1u16 << 9u16) != 0),
        (a & (1u16 << 10u16) != 0) == (b & (1u16 << 10u16) != 0),
        (a & (1u16 << 11u16) != 0) == (b & (1u16 << 11u16) != 0),
        (a & (1u16 << 12u16) != 0) == (b & (1u16 << 12u16) != 0),
        (a & (1u16 << 13u16) != 0) == (b & (1u16 << 13u16) != 0),
        (a & (1u16 << 14u16) != 0) == (b & (1u16 << 14u16) != 0),
        (a & (1u16 << 15u16) != 0) == (b & (1u16 << 15u16) != 0),
    ensures
        a == b,
{
}

/// A flag is among those unpacked below position `i` exactly when it is valid,
/// sits below `i`, and its bit is set.
proof fn lemma_unpack_upto_contains(w: u16, i: u8, x: NlFlags)
    requires
        i <= 16,
    ensures
        unpack_upto(w, i).contains(x) <==> (x.valid() && x.spec_pos() < i && bit_set(w, x.spec_pos())),
    decreases i,
{
    if i > 0 {
        let j = (i - 1) as u8;
        lemma_unpack_upto_contains(w, j, x);
        lemma_flag_at(j);
        if x.valid() {
            lemma_flag_at_pos(x);
        }
        if bit_set(w, j) {
            let v = unpack_upto(w, j);
            assert(v.push(flag_at(j)).contains(x) <==> (v.contains(x) || x == flag_at(j))) by {
                if x == flag_at(j) {
                    assert(v.push(flag_at(j))[v.len() as int] == x);
                }
                if v.push(flag_at(j)).contains(x) {
                    let k = choose|k: int| 0 <= k < v.len() + 1 && v.push(flag_at(j))[k] == x;
                    if k < v.len() {
                        assert(v[k] == x);
                    }
                }
                if v.contains(x) {
                    let k = choose|k: int| 0 <= k < v.len() && v[k] == x;
                    assert(v.push(flag_at(j))[k] == x);
                }
            }
        }
    }
}

/// Bit `j` of a packed word is set exactly when some flag in `s` sits at `j`.
proof fn lemma_pack_bit(s: Seq<NlFlags>, j: u8)
    requires
        j < 16,
        forall|k: int| 0 <= k < s.len() ==> (#[trigger] s[k]).valid(),
    ensures
        bit_set(pack_spec(s), j) <==> exists|k: int| 0 <= k < s.len() && (#[trigger] s[k]).spec_pos() == j,
    decreases s.len(),
{
    if s.len() == 0 {
        lemma_bit_zero(j as u16);
    } else {
        let t = s.drop_last();
        lemma_pack_bit(t, j);
        lemma_flag_at_pos(s.last());
        lemma_bit_or(pack_spec(t), s.last().spec_bit(), j as u16);
        lemma_bit_single(s.last().spec_pos() as u16, j as u16);
        if exists|k: int| 0 <= k < s.len() && (#[trigger] s[k]).spec_pos() == j {
            let k = choose|k: int| 0 <= k < s.len() && (#[trigger] s[k]).spec_pos() == j;
            if k < t.len() {
                assert(t[k] == s[k]);
            }
        }
        if exists|k: int| 0 <= k < t.len() && (#[trigger] t[k]).spec_pos() == j {
            let k = choose|k: int| 0 <= k < t.len() && (#[trigger] t[k]).spec_pos() == j;
            assert(s[k] == t[k]);
        }
        assert(s[s.len() - 1] == s.last());
    }
}

/// Unpacking the packed word of any valid flags gives back the same set of flags.
pub proof fn lemma_flags_bijection(s: Seq<NlFlags>)
    requires
        forall|k: int| 0 <= k < s.len() ==> (#[trigger] s[k]).valid(),
    ensures
        unpack_spec(pack_spec(s)).to_set() == s.to_set(),
{
    let w = pack_spec(s);
    assert forall|x: NlFlags| #[trigger] unpack_spec(w).contains(x) <==> s.contains(x) by {
        lemma_unpack_upto_contains(w, 16, x);
        if x.valid() {
            lemma_flag_at_pos(x);
            lemma_pack_bit(s, x.spec_pos());
            if bit_set(w, x.spec_pos()) {
                let k = choose|k: int| 0 <= k < s.len() && (#[trigger] s[k]).spec_pos() == x.spec_pos();
                lemma_flag_at_pos(s[k]);
            }
        }
        if s.contains(x) {
            let k = choose|k: int| 0 <= k < s.len() && s[k] == x;
            assert(x.valid());
            lemma_flag_at_pos(x);
            lemma_pack_bit(s, x.spec_pos());
        }
    }
    assert(unpack_spec(w).to_set() =~= s.to_set());
}

/// Every flag that unpacking gives is valid.
pub proof fn lemma_unpack_valid(w: u16)
    ensures
        forall|k: int| 0 <= k < unpack_spec(w).len() ==> (#[trigger] unpack_spec(w)[k]).valid(),
{
    assert forall|k: int| 0 <= k < unpack_spec(w).len() implies (#[trigger] unpack_spec(w)[k]).valid() by {
        lemma_unpack_upto_contains(w, 16, unpack_spec(w)[k]);
    }
}

/// Packing the unpacked flags of any word gives the word back: no bit is lost.
pub proof fn lemma_pack_unpack(w: u16)
    ensures
        pack_spec(unpack_spec(w)) == w,
{
    let s = unpack_spec(w);
    let p = pack_spec(s);
    lemma_unpack_valid(w);
    assert forall|j: u8| j < 16 implies (#[trigger] bit_set(p, j)) == bit_set(w, j) by {
        lemma_pack_bit(s, j);
        lemma_flag_at(j);
        lemma_unpack_upto_contains(w, 16, flag_at(j));
        if bit_set(w, j) {
            let k = choose|k: int| 0 <= k < s.len() && s[k] == flag_at(j);
            assert(s[k].spec_pos() == j);
        }
        if bit_set(p, j) {
            let k = choose|k: int| 0 <= k < s.len() && (#[trigger] s[k]).spec_pos() == j;
            lemma_unpack_upto_contains(w, 16, s[k]);
        }
    }
    assert(bit_set(p, 0) == bit_set(w, 0));
    assert(bit_set(p, 1) == bit_set(w, 1));
    assert(bit_set(p, 2) == bit_set(w, 2));
    assert(bit_set(p, 3) == bit_set(w, 3));
    assert(bit_set(p, 4) == bit_set(w, 4));
    assert(bit_set(p, 5) == bit_set(w, 5));
    assert(bit_set(p, 6) == bit_set(w, 6));
    assert(bit_set(p, 7) == bit_set(w, 7));
    assert(bit_set(p, 8) == bit_set(w, 8));
    assert(bit_set(p, 9) == bit_set(w, 9));
    assert(bit_set(p, 10) == bit_set(w, 10));
    assert(bit_set(p, 11) == bit_set(w, 11));
    assert(bit_set(p, 12) == bit_set(w, 12));
    assert(bit_set(p, 13) == bit_set(w, 13));
    assert(bit_set(p, 14) == bit_set(w, 14));
    assert(bit_set(p, 15) == bit_set(w, 15));
    lemma_bits_equal(p, w);
}


/// Unpacking never repeats a flag.
pub proof fn lemma_unpack_no_duplicates(w: u16)
    ensures
        unpack_spec(w).no_duplicates(),
{
    lemma_unpack_upto_no_duplicates(w, 16);
}

proof fn lemma_unpack_upto_no_duplicates(w: u16, i: u8)
    requires
        i <= 16,
    ensures
        unpack_upto(w, i).no_duplicates(),
    decreases i,
{
    if i > 0 {
        let j = (i - 1) as u8;
        lemma_unpack_upto_no_duplicates(w, j);
        if bit_set(w, j) {
            let v = unpack_upto(w, j);
            lemma_flag_at(j);
            lemma_unpack_upto_contains(w, j, flag_at(j));
            assert forall|a: int, b: int|
                0 <= a < v.len() + 1 && 0 <= b < v.len() + 1 && a != b implies v.push(flag_at(j))[a]
                != v.push(flag_at(j))[b] by {
                if a == v.len() {
                    assert(v[b] == v.push(flag_at(j))[b]);
                } else if b == v.len() {
                    assert(v[a] == v.push(flag_at(j))[a]);
                }
            }
        }
    }
}

/// Packs flags into a flags word: the OR of their bits.
pub fn pack_flags(flags: &Vec<NlFlags>) -> (r: u16)
    requires
        forall|k: int| 0 <= k < flags@.len() ==> (#[trigger] flags@[k]).valid(),
    ensures
        r == pack_spec(flags@),
{
    let mut acc: u16 = 0;
    let mut i: usize = 0;
    while i < flags.len()
        invariant
            i <= flags@.len(),
            acc == pack_spec(flags@.take(i as int)),
            forall|k: int| 0 <= k < flags@.len() ==> (#[trigger] flags@[k]).valid(),
        decreases flags@.len() - i,
    {
        let f = flags[i];
        acc = acc | f.bit();
        i = i + 1;
        assert(flags@.take(i as int).drop_last() == flags@.take(i - 1));
    }
    assert(flags@.take(i as int) == flags@);
    acc
}

/// Unpacks a flags word into the flags of its set bits, lowest first. Every bit
/// has a flag: those without a name come out as `Unknown`.
pub fn unpack_flags(w: u16) -> (r: Vec<NlFlags>)
    ensures
        r@ == unpack_spec(w),
{
    let mut v: Vec<NlFlags> = Vec::new();
    let mut i: u8 = 0;
    while i < 16
        invariant
            i <= 16,
            v@ == unpack_upto(w, i),
        decreases 16 - i,
    {
        let bit: u16 = 1u16 << (i as u16);
        if w & bit != 0 {
            v.push(NlFlags::at(i));
        }
        i = i + 1;
    }
    v
}

} // verus!
