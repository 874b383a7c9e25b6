use rvord::bytes::DeserializationError;
use rvord::bytes::read_len_prefixed_str;
use rvord::bytes::read_u16;
use rvord::bytes::read_u32;
use rvord::bytes::read_u8;
use rvord::bytes::write_len_prefixed_str;
use rvord::bytes::write_u16;
use rvord::bytes::write_u32;
use rvord::object::Relocation;
use rvord::object::RelocationTable;
use rvord::object::RelocationValue;
use rvord::object::StringTable;
use rvord::object::Symbol;
use rvord::object::SymbolTable;
use rvord::object::SymbolValue;

#[test]
fn word_io_round_trips() {
    let mut buf: Vec<u8> = Vec::new();
    write_u32(&mut buf, 0xDEAD_BEEF);
    write_u16(&mut buf, 0x1234);
    assert_eq!(buf, vec![0xEF, 0xBE, 0xAD, 0xDE, 0x34, 0x12]);
    assert_eq!(read_u32(&buf, 0), Ok((0xDEAD_BEEF, 4)));
    assert_eq!(read_u16(&buf, 4), Ok((0x1234, 6)));
    assert_eq!(read_u8(&buf, 5), Ok((0x12, 6)));
    assert_eq!(read_u32(&buf, 3), Err(DeserializationError::PrematureEnd));
    assert_eq!(read_u8(&buf, 6), Err(DeserializationError::PrematureEnd));
}

#[test]
fn len_prefixed_strings_are_padded_to_words() {
    let mut buf: Vec<u8> = Vec::new();
    write_len_prefixed_str(&mut buf, &b"abc".to_vec());
    assert_eq!(buf, vec![3, 0, 0, 0, b'a', b'b', b'c', 0]);
    let (s, end) = read_len_prefixed_str(&buf, 0).unwrap();
    assert_eq!(s, b"abc".to_vec());
    assert_eq!(end, 8);

    let mut buf4: Vec<u8> = Vec::new();
    write_len_prefixed_str(&mut buf4, &b"abcd".to_vec());
    assert_eq!(buf4.len(), 8);
    let (s4, end4) = read_len_prefixed_str(&buf4, 0).unwrap();
    assert_eq!(s4, b"abcd".to_vec());
    assert_eq!(end4, 8);

    assert_eq!(
        read_len_prefixed_str(&vec![9, 0, 0, 0, 1], 0),
        Err(DeserializationError::PrematureEnd),
    );
}

#[test]
fn relocation_record_round_trips() {
    let rel = Relocation { offset: 0x1000, symbol_index: 3, value: RelocationValue::RelUType };
    let mut buf: Vec<u8> = Vec::new();
    rel.serialize(&mut buf);
    assert_eq!(buf.len(), 16);
    assert_eq!(&buf[0..4], &[0x00, 0x10, 0, 0]);
    assert_eq!(&buf[8..10], &[3, 0]);
    let (back, end) = Relocation::deserialize(&buf, 0).unwrap();
    assert_eq!(back, rel);
    assert_eq!(end, 16);
}

#[test]
fn relocation_rejects_reserved_kind_and_short_records() {
    let mut buf: Vec<u8> = Vec::new();
    write_u32(&mut buf, 0);
    write_u32(&mut buf, 0);
    write_u16(&mut buf, 5);
    write_u16(&mut buf, 0);
    write_u32(&mut buf, 0);
    assert_eq!(
        Relocation::deserialize(&buf, 0),
        Err(DeserializationError::ReservedValue(5)),
    );
    assert_eq!(
        Relocation::deserialize(&buf, 8),
        Err(DeserializationError::PrematureEnd),
    );
}

#[test]
fn relocation_table_round_trips() {
    let mut table = RelocationTable::default();
    table.relocations.push(Relocation {
        offset: 4,
        symbol_index: 0,
        value: RelocationValue::RelCodeBType,
    });
    table.relocations.push(Relocation {
        offset: 12,
        symbol_index: 1,
        value: RelocationValue::RelCodeJType,
    });
    let mut buf: Vec<u8> = Vec::new();
    table.serialize(&mut buf);
    assert_eq!(buf.len(), 32);
    let (back, end) = RelocationTable::deserialize(&buf, 0, 32).unwrap();
    assert_eq!(back.relocations, table.relocations);
    assert_eq!(end, 32);
    // A length that is not a multiple of the record size.
    assert_eq!(
        RelocationTable::deserialize(&buf, 0, 17),
        Err(DeserializationError::PrematureEnd),
    );
}

#[test]
fn string_table_shares_and_offsets() {
    let mut st = StringTable::default();
    let a = st.get_index_or_insert(&b"ab".to_vec());
    let b = st.get_index_or_insert(&b"cdef".to_vec());
    let a2 = st.get_index_or_insert(&b"ab".to_vec());
    assert_eq!(a, 0);
    assert_eq!(b, 1);
    assert_eq!(a2, a);
    // "ab" occupies 4 (length) + 2 + 2 (padding) = 8 bytes.
    assert_eq!(st.get_offset_or_insert(&b"ab".to_vec()), 0);
    assert_eq!(st.get_offset_or_insert(&b"cdef".to_vec()), 8);
    assert_eq!(st.get_offset_or_insert(&b"x".to_vec()), 16);
}

#[test]
fn string_table_round_trips() {
    let mut st = StringTable::default();
    st.get_index_or_insert(&b"".to_vec());
    st.get_index_or_insert(&b"main".to_vec());
    st.get_index_or_insert(&b"loop!".to_vec());
    let mut buf: Vec<u8> = Vec::new();
    st.serialize(&mut buf);
    // 4 + (4 + 4) + (4 + 5 + 3) bytes.
    assert_eq!(buf.len(), 24);
    let (back, end) = StringTable::deserialize(&buf, 0, 24).unwrap();
    assert_eq!(end, 24);
    assert_eq!(back.strings.len(), 3);
    assert_eq!(back.strings[0], (0, b"".to_vec()));
    assert_eq!(back.strings[1], (4, b"main".to_vec()));
    assert_eq!(back.strings[2], (12, b"loop!".to_vec()));
    assert_eq!(
        StringTable::deserialize(&buf, 0, 3),
        Err(DeserializationError::PrematureEnd),
    );
}

fn sample_string_table() -> StringTable {
    let mut st = StringTable::default();
    st.get_index_or_insert(&b"".to_vec());
    st.get_index_or_insert(&b"main".to_vec());
    st.get_index_or_insert(&b"fn".to_vec());
    st
}

#[test]
fn symbol_records_round_trip() {
    let st = sample_string_table();
    let mut table = SymbolTable::default();
    table.insert(1, SymbolValue::Code { external: false, type_index: 2, offset: Some(0x40) });
    table.insert(0, SymbolValue::Metadata { value_index: 2 });
    table.insert(2, SymbolValue::Data { external: true, type_index: 0, offset: None });
    let mut buf: Vec<u8> = Vec::new();
    table.serialize(&mut buf, &st);
    assert_eq!(buf.len(), 48);
    let (back, end) = SymbolTable::deserialize(&buf, 0, 48, &st).unwrap();
    assert_eq!(end, 48);
    assert_eq!(back.symbols, table.symbols);
}

#[test]
fn symbol_flags_mark_defined_and_external() {
    let st = sample_string_table();
    let sym = Symbol {
        name_index: 1,
        value: SymbolValue::Code { external: true, type_index: 2, offset: Some(8) },
    };
    assert!(sym.is_defined());
    assert!(sym.is_external());
    let mut buf: Vec<u8> = Vec::new();
    sym.serialize(&mut buf, &st);
    // Kind byte, then flags: defined | external.
    assert_eq!(buf[6], 1);
    assert_eq!(buf[7], 3);
    let undef = Symbol {
        name_index: 1,
        value: SymbolValue::Data { external: false, type_index: 2, offset: None },
    };
    assert!(!undef.is_defined());
    assert!(!undef.is_external());
    let meta = Symbol { name_index: 0, value: SymbolValue::Metadata { value_index: 2 } };
    assert!(meta.is_defined());
    assert!(!meta.is_external());
    assert_eq!(sym.name(&st), &b"main".to_vec());
}

#[test]
fn symbol_table_insert_updates_in_place() {
    let mut table = SymbolTable::default();
    let i = table.insert(7, SymbolValue::Metadata { value_index: 0 });
    let j = table.get_index_or_insert(7, SymbolValue::Metadata { value_index: 1 });
    assert_eq!(i, j);
    assert_eq!(table.symbols.len(), 1);
    assert_eq!(table.symbols[0].value, SymbolValue::Metadata { value_index: 0 });
    let k = table.insert(7, SymbolValue::Metadata { value_index: 9 });
    assert_eq!(k, i);
    assert_eq!(table.symbols[0].value, SymbolValue::Metadata { value_index: 9 });
    assert!(table.contains_name(7));
    assert!(!table.contains_name(8));
    assert_eq!(table.get(7).unwrap().value, SymbolValue::Metadata { value_index: 9 });
    assert!(table.get(8).is_none());
}

#[test]
fn symbol_table_rejects_duplicates_and_unknown_offsets() {
    let st = sample_string_table();
    let sym = Symbol { name_index: 1, value: SymbolValue::Metadata { value_index: 0 } };
    let mut buf: Vec<u8> = Vec::new();
    sym.serialize(&mut buf, &st);
    sym.serialize(&mut buf, &st);
    assert_eq!(
        SymbolTable::deserialize(&buf, 0, 32, &st),
        Err(DeserializationError::DuplicateItem(1)),
    );

    let mut bad: Vec<u8> = Vec::new();
    write_u32(&mut bad, 0xFFFF);
    write_u32(&mut bad, 0);
    write_u32(&mut bad, 0);
    write_u32(&mut bad, 0);
    assert_eq!(
        Symbol::deserialize(&bad, 0, &st),
        Err(DeserializationError::UnknownStringOffset(0xFFFF)),
    );

    let mut badkind: Vec<u8> = Vec::new();
    write_u32(&mut badkind, 0);
    write_u16(&mut badkind, 0);
    badkind.push(7);
    badkind.push(0);
    write_u32(&mut badkind, 0);
    write_u32(&mut badkind, 0);
    assert_eq!(
        Symbol::deserialize(&badkind, 0, &st),
        Err(DeserializationError::ReservedValue(7)),
    );

    let mut badfield: Vec<u8> = Vec::new();
    write_u32(&mut badfield, 0);
    write_u16(&mut badfield, 0);
    badfield.push(0);
    badfield.push(9);
    write_u32(&mut badfield, 0);
    write_u32(&mut badfield, 0);
    assert_eq!(
        Symbol::deserialize(&badfield, 0, &st),
        Err(DeserializationError::ReservedField(9)),
    );
}

#[test]
fn relocation_names_its_symbol() {
    let mut table = SymbolTable::default();
    table.insert(1, SymbolValue::Code { external: false, type_index: 0, offset: Some(0) });
    let rel = Relocation { offset: 0, symbol_index: 0, value: RelocationValue::RelCodeBType };
    assert_eq!(rel.symbol(&table).name_index, 1);
}

#[test]
fn relocation_apply_patches_branch_and_jump() {
    let mut table = SymbolTable::default();
    table.insert(1, SymbolValue::Code { external: false, type_index: 0, offset: Some(8) });
    // A branch forward by 8: bit 3 of the displacement lands in
    // instruction bits 11:8.
    let b = Relocation { offset: 0, symbol_index: 0, value: RelocationValue::RelCodeBType };
    assert_eq!(b.apply(0x63, &table), Ok(0x463));
    // A jump forward by 8: bits 10:1 of the displacement land in
    // instruction bits 30:21.
    let j = Relocation { offset: 0, symbol_index: 0, value: RelocationValue::RelCodeJType };
    assert_eq!(j.apply(0x6F, &table), Ok(0x0080_006F));
}

#[test]
fn relocation_apply_rejects_far_branches() {
    let mut table = SymbolTable::default();
    table.insert(1, SymbolValue::Code { external: false, type_index: 0, offset: Some(0x2000) });
    let b = Relocation { offset: 0, symbol_index: 0, value: RelocationValue::RelCodeBType };
    assert_eq!(b.apply(0x63, &table), Err(rvord::object::RelocationError::TargetTooFar(0x2000)));
    // The same displacement fits a jump.
    let j = Relocation { offset: 0, symbol_index: 0, value: RelocationValue::RelCodeJType };
    assert!(j.apply(0x6F, &table).is_ok());
}

#[test]
fn relocation_apply_patches_immediates() {
    let mut table = SymbolTable::default();
    table.insert(1, SymbolValue::Data { external: false, type_index: 0, offset: Some(0x1800) });
    let u = Relocation { offset: 0, symbol_index: 0, value: RelocationValue::RelUType };
    // The upper immediate rounds by bit 11 of the displacement.
    assert_eq!(u.apply(0x37, &table), Ok(0x2037));
    let mut table2 = SymbolTable::default();
    table2.insert(1, SymbolValue::Data { external: false, type_index: 0, offset: Some(0x805) });
    let i = Relocation { offset: 0, symbol_index: 0, value: RelocationValue::RelIType };
    assert_eq!(i.apply(0x13, &table2), Ok(0x8050_0013));
}
