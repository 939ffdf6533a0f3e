use neli::{
    pack_flags, unpack_flags, DeError, Endian, Nl, NlDeState, NlEmpty, NlFlags, NlHdr, NlSerState,
    NlType, SerError,
};

fn encode<T: Nl>(nl: &NlHdr<T>, endian: Endian) -> Vec<u8> {
    let mut state = NlSerState::with_endian(endian, usize::MAX);
    nl.serialize(&mut state).unwrap();
    state.into_inner()
}

fn decode(buf: &[u8], endian: Endian) -> Result<NlHdr<NlEmpty>, DeError> {
    let mut state = NlDeState::with_endian(buf, endian);
    NlHdr::<NlEmpty>::deserialize(&mut state)
}

#[test]
fn test_nlhdr_serialize() {
    let mut state = NlSerState::new();
    let nl = NlHdr::<NlEmpty>::new(None, NlType::NlNoop, Vec::new(), None, None, NlEmpty);
    nl.serialize(&mut state).unwrap();
    let s: &mut [u8] = &mut [0; 16];
    s[0..4].copy_from_slice(&16u32.to_ne_bytes());
    s[4..6].copy_from_slice(&1u16.to_ne_bytes());
    assert_eq!(&mut *s, state.into_inner().as_slice())
}

#[test]
fn test_nlhdr_deserialize() {
    let s: &mut [u8] = &mut [0; 16];
    s[0..4].copy_from_slice(&16u32.to_ne_bytes());
    s[4..6].copy_from_slice(&1u16.to_ne_bytes());
    s[6..8].copy_from_slice(&NlFlags::NlAck.bit().to_ne_bytes());
    let mut state = NlDeState::new(&mut *s);
    let nl = NlHdr::<NlEmpty>::deserialize(&mut state).unwrap();
    assert_eq!(
        NlHdr::<NlEmpty>::new(None, NlType::NlNoop, vec![NlFlags::NlAck], None, None, NlEmpty),
        nl
    );
}

#[test]
fn literal_decode() {
    let buf = [16, 0, 0, 0, 1, 0, 1, 0, 0, 0, 0, 0, 0, 0, 0, 0];
    let nl = decode(&buf, Endian::Little).unwrap();
    assert_eq!(nl.nl_len(), 16);
    assert_eq!(nl.nl_type(), NlType::NlNoop);
    assert_eq!(nl.nl_flags(), &vec![NlFlags::NlRequest]);
    assert_eq!(nl.nl_seq(), 0);
    assert_eq!(nl.nl_pid(), 0);
    assert_eq!(nl.nl_pl(), &NlEmpty);
    assert_eq!(
        nl,
        NlHdr::new(None, NlType::NlNoop, vec![NlFlags::NlRequest], None, None, NlEmpty)
    );
}

#[test]
fn literal_encode() {
    let nl = NlHdr::new(None, NlType::NlNoop, Vec::new(), None, None, NlEmpty);
    assert_eq!(
        encode(&nl, Endian::Little),
        vec![16, 0, 0, 0, 1, 0, 0, 0, 0, 0, 0, 0, 0, 0, 0, 0]
    );
}

#[test]
fn literal_encode_big_endian() {
    let nl = NlHdr::new(
        None,
        NlType::NlDone,
        vec![NlFlags::NlMulti, NlFlags::NlRoot],
        Some(0x0102_0304),
        Some(7),
        NlEmpty,
    );
    assert_eq!(
        encode(&nl, Endian::Big),
        vec![0, 0, 0, 16, 0, 3, 1, 2, 1, 2, 3, 4, 0, 0, 0, 7]
    );
    assert_eq!(
        encode(&nl, Endian::Little),
        vec![16, 0, 0, 0, 3, 0, 2, 1, 4, 3, 2, 1, 7, 0, 0, 0]
    );
}

#[test]
fn round_trip_both_orders() {
    for endian in [Endian::Little, Endian::Big] {
        let nl = NlHdr::new(
            Some(99),
            NlType::NlOverrun,
            vec![NlFlags::NlEcho, NlFlags::Unknown(13), NlFlags::NlAppend, NlFlags::NlRequest],
            Some(0xdead_beef),
            Some(0x1234),
            NlEmpty,
        );
        let bytes = encode(&nl, endian);
        let mut state = NlDeState::with_endian(&bytes, endian);
        let back = NlHdr::<NlEmpty>::deserialize(&mut state).unwrap();
        assert_eq!(back, nl);
        assert_eq!(state.remaining(), 0);
    }
}

#[test]
fn round_trip_nested_payload() {
    let inner = NlHdr::new(None, NlType::NlError, vec![NlFlags::NlAck], Some(5), None, NlEmpty);
    let outer = NlHdr::new(None, NlType::NlNoop, Vec::new(), Some(1), Some(2), inner);
    assert_eq!(outer.nl_len(), 32);
    assert_eq!(outer.size(), 32);
    let bytes = encode(&outer, Endian::Little);
    assert_eq!(bytes.len(), 32);
    let mut state = NlDeState::with_endian(&bytes, Endian::Little);
    let back = NlHdr::<NlHdr<NlEmpty>>::deserialize(&mut state).unwrap();
    assert_eq!(back, outer);
}

#[test]
fn size_matches_serialized_bytes() {
    let nl = NlHdr::new(Some(3), NlType::NlDone, vec![NlFlags::NlMatch], None, None, NlEmpty);
    assert_eq!(nl.size(), 16);
    assert_eq!(encode(&nl, Endian::native()).len(), nl.size());
    let nl = NlHdr::new(None, NlType::NlDone, Vec::new(), None, None, NlEmpty);
    assert_eq!(nl.nl_len(), 16);
}

#[test]
fn pack_is_or_of_bits() {
    assert_eq!(pack_flags(&Vec::new()), 0);
    assert_eq!(pack_flags(&vec![NlFlags::NlAck, NlFlags::NlRequest, NlFlags::NlAck]), 5);
    assert_eq!(pack_flags(&vec![NlFlags::NlAppend, NlFlags::Unknown(15)]), 0x8800);
    assert_eq!(NlFlags::NlAck.bit(), 4);
    assert_eq!(NlFlags::NlAtomic.bit(), 0x400);
}

#[test]
fn unpack_lowest_bit_first() {
    assert_eq!(unpack_flags(0), Vec::new());
    assert_eq!(unpack_flags(5), vec![NlFlags::NlRequest, NlFlags::NlAck]);
    assert_eq!(
        unpack_flags(0x0330),
        vec![NlFlags::NlDumpIntr, NlFlags::NlDumpFiltered, NlFlags::NlRoot, NlFlags::NlMatch]
    );
}

#[test]
fn unnamed_bits_kept_as_unknown() {
    assert_eq!(unpack_flags(0x0040), vec![NlFlags::Unknown(6)]);
    assert_eq!(
        unpack_flags(0xf080),
        vec![
            NlFlags::Unknown(7),
            NlFlags::Unknown(12),
            NlFlags::Unknown(13),
            NlFlags::Unknown(14),
            NlFlags::Unknown(15)
        ]
    );
}

#[test]
fn flags_set_survives_pack_unpack() {
    let named = vec![
        NlFlags::NlAppend,
        NlFlags::NlRequest,
        NlFlags::NlMulti,
        NlFlags::NlAck,
        NlFlags::NlEcho,
        NlFlags::NlDumpIntr,
        NlFlags::NlDumpFiltered,
        NlFlags::NlRoot,
        NlFlags::NlMatch,
        NlFlags::NlAtomic,
    ];
    let back = unpack_flags(pack_flags(&named));
    assert_eq!(back.len(), named.len());
    for f in &named {
        assert!(back.contains(f));
    }
}

#[test]
fn every_word_survives_unpack_pack() {
    for w in 0..=u16::MAX {
        assert_eq!(pack_flags(&unpack_flags(w)), w);
    }
}

#[test]
fn new_keeps_flags_as_a_set() {
    let nl = NlHdr::new(
        None,
        NlType::NlNoop,
        vec![NlFlags::NlAck, NlFlags::NlRequest, NlFlags::NlAck],
        None,
        None,
        NlEmpty,
    );
    assert_eq!(nl.nl_flags(), &vec![NlFlags::NlRequest, NlFlags::NlAck]);
    let other =
        NlHdr::new(None, NlType::NlNoop, vec![NlFlags::NlRequest, NlFlags::NlAck], None, None, NlEmpty);
    assert_eq!(nl, other);
}

#[test]
fn truncated_input_fails() {
    let full = [16, 0, 0, 0, 1, 0, 0, 0, 0, 0, 0, 0, 0, 0, 0, 0];
    for n in 0..16 {
        assert_eq!(decode(&full[..n], Endian::Little), Err(DeError::UnexpectedEob));
    }
    assert!(decode(&full, Endian::Little).is_ok());
}

#[test]
fn unknown_type_fails() {
    let mut buf = [16, 0, 0, 0, 0, 0, 0, 0, 0, 0, 0, 0, 0, 0, 0, 0];
    assert_eq!(decode(&buf, Endian::Little), Err(DeError::UnknownType(0)));
    buf[4] = 5;
    assert_eq!(decode(&buf, Endian::Little), Err(DeError::UnknownType(5)));
    assert_eq!(decode(&buf[..6], Endian::Little), Err(DeError::UnknownType(5)));
}

#[test]
fn declared_length_larger_than_input() {
    let buf = [100, 0, 0, 0, 2, 0, 4, 0, 9, 0, 0, 0, 0, 0, 0, 0];
    let mut state = NlDeState::with_endian(&buf, Endian::Little);
    let nl = NlHdr::<NlEmpty>::deserialize(&mut state).unwrap();
    assert_eq!(nl.nl_len(), 100);
    assert_eq!(nl.nl_type(), NlType::NlError);
    assert_eq!(nl.nl_seq(), 9);
    assert_eq!(state.remaining(), 0);
}

#[test]
fn declared_length_smaller_than_input() {
    let buf = [4, 0, 0, 0, 1, 0, 0, 0, 0, 0, 0, 0, 0, 0, 0, 0, 0xaa, 0xbb, 0xcc, 0xdd];
    let mut state = NlDeState::with_endian(&buf, Endian::Little);
    let nl = NlHdr::<NlEmpty>::deserialize(&mut state).unwrap();
    assert_eq!(nl.nl_len(), 4);
    assert_eq!(state.remaining(), 4);
    assert_eq!(state.read_u32(), Ok(0xddcc_bbaa));
}

#[test]
fn serialize_past_limit_fails() {
    let nl = NlHdr::new(None, NlType::NlNoop, vec![NlFlags::NlAck], None, None, NlEmpty);
    let mut state = NlSerState::with_endian(Endian::Little, 10);
    assert_eq!(nl.serialize(&mut state), Err(SerError::BufferFull));
    assert_eq!(state.into_inner(), vec![16, 0, 0, 0, 1, 0, 4, 0]);
    let mut state = NlSerState::with_endian(Endian::Little, 16);
    assert_eq!(nl.serialize(&mut state), Ok(()));
    assert_eq!(state.into_inner().len(), 16);
}

#[test]
fn empty_payload_has_no_bytes() {
    let mut state = NlSerState::with_endian(Endian::Little, 0);
    assert_eq!(NlEmpty.serialize(&mut state), Ok(()));
    assert_eq!(NlEmpty.size(), 0);
    assert_eq!(state.into_inner(), Vec::<u8>::new());
    let mut state = NlDeState::with_endian(&[1, 2], Endian::Big);
    assert_eq!(NlEmpty::deserialize(&mut state), Ok(NlEmpty));
    assert_eq!(state.remaining(), 2);
}

#[test]
fn type_codes() {
    assert_eq!(NlType::NlNoop.code(), 1);
    assert_eq!(NlType::NlOverrun.code(), 4);
    assert_eq!(NlType::from_code(3), Some(NlType::NlDone));
    assert_eq!(NlType::from_code(0), None);
    assert_eq!(NlType::default(), NlType::NlNoop);
}

#[test]
fn integers_in_both_orders() {
    let mut state = NlSerState::with_endian(Endian::Little, usize::MAX);
    state.write_u32(0x0102_0304).unwrap();
    state.write_u16(0x0506).unwrap();
    assert_eq!(state.into_inner(), vec![4, 3, 2, 1, 6, 5]);
    let mut state = NlSerState::with_endian(Endian::Big, usize::MAX);
    state.write_u32(0x0102_0304).unwrap();
    state.write_u16(0x0506).unwrap();
    assert_eq!(state.into_inner(), vec![1, 2, 3, 4, 5, 6]);
    let mut state = NlDeState::with_endian(&[1, 2, 3, 4, 5, 6], Endian::Big);
    assert_eq!(state.read_u32(), Ok(0x0102_0304));
    assert_eq!(state.read_u16(), Ok(0x0506));
    assert_eq!(state.read_u16(), Err(DeError::UnexpectedEob));
}

#[test]
fn native_order_matches_platform() {
    let expected = if 1u16.to_ne_bytes()[0] == 1 { Endian::Little } else { Endian::Big };
    assert_eq!(Endian::native(), expected);
    assert_eq!(NlSerState::new().get_endian(), expected);
    assert_eq!(NlDeState::new(&[]).get_endian(), expected);
}
