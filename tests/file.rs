use elfeat::elf::{
    elf_header, name_table_index, section_header, section_name, NameTableError, E_SHSTRNDX,
    SH_NAME, SH_OFFSET,
};
use elfeat::file::{InterpretResult, Sequential};
use elfeat::model::{ComposedFromU8Array, ModelFromU8Array, Table};
use elfeat::record::{ComposedRecord, FieldType, RecordType};
use elfeat::types::FromU8Error;
use elfeat::zip::{local_header, LOCAL_HEADER_MAGIC};

#[test]
fn cursor_moves_only_on_success() {
    let buf = Sequential::from_vec(vec![1, 0, 2, 0, 3]);
    let mut cur = buf.to_seeakble();
    let (pos, r) = cur.interpret_next::<u16>().to_tuple();
    assert_eq!((pos, r), (0, Ok((2, 1u16))));
    let (pos, r) = cur.interpret_next::<u16>().to_tuple();
    assert_eq!((pos, r), (2, Ok((2, 2u16))));
    assert_eq!(cur.pos(), 4);
    let (pos, r) = cur.interpret_next::<u16>().to_tuple();
    assert_eq!((pos, r), (4, Err(FromU8Error::NotEnoughSlice(None))));
    assert_eq!(cur.pos(), 4);
    let copy = cur.seek(1);
    assert_eq!(copy.pos(), 1);
    assert_eq!(cur.interpret_next::<u8>().to_tuple_unwrap(), (1, 0));
    assert_eq!(buf.to_seeakble_at(2).pos(), 2);
}

#[test]
fn absolute_read_past_the_end_is_a_range_error() {
    let buf = Sequential::from_vec(vec![1, 2, 3]);
    let cur = buf.to_seeakble();
    let r: InterpretResult<u8> = cur.interpret_abs_pos(4);
    assert_eq!(r.to_tuple(), (4, Err(FromU8Error::RangeError)));
    let r: InterpretResult<u16> = cur.interpret_abs_pos(2);
    assert_eq!(r.to_tuple(), (2, Err(FromU8Error::NotEnoughSlice(None))));
    let r: InterpretResult<u16> = cur.interpret_abs_pos(1);
    let obj = r.to_obj();
    assert_eq!((obj.pos(), obj.val()), (1, 0x0302));
    assert_eq!(cur.pos(), 0);
    let rec = RecordType::new().field("x", FieldType::model(Table::free(1)));
    assert!(matches!(cur.interpret_abs_record(&rec, 9).to_tuple(), (9, Err(FromU8Error::RangeError))));
}

fn zip_bytes(flags: u16) -> Vec<u8> {
    let mut v = vec![0x50, 0x4b, 0x03, 0x04, 0x14, 0x00];
    v.extend_from_slice(&flags.to_le_bytes());
    v.extend_from_slice(&[0; 22]);
    v
}

#[test]
fn zip_local_header_scenario() {
    let buf = Sequential::from_vec(zip_bytes(0));
    let mut cur = buf.to_seeakble();
    let (pos, r) = cur.interpret_next_record(&local_header()).to_tuple();
    let (read, header) = r.unwrap();
    assert_eq!((pos, read, cur.pos()), (0, 28, 28));
    assert_eq!(header.get(0, 0), Some(LOCAL_HEADER_MAGIC));
    assert_eq!(header.get(1, 0), Some(0x14));
    assert!(header.is_sanity());

    // the signature, version and flags alone
    let short = RecordType::new()
        .field("magic", FieldType::model(Table::from_pairs(4, &[("VALID", LOCAL_HEADER_MAGIC)])))
        .field("version", FieldType::model(Table::free(2)))
        .field("flags", FieldType::model(Table::free(2)));
    let (read, rec) = short.parse(&zip_bytes(0x0808)[..8]).unwrap();
    assert_eq!(read, 8);
    assert_eq!(rec.get(0, 0), Some(0x04034B50));
    assert!(rec.is_sanity());
}

#[test]
fn zip_header_with_a_bad_signature_is_invalid() {
    let mut bytes = zip_bytes(0);
    bytes[0] = 0;
    let buf = Sequential::from_vec(bytes);
    let mut cur = buf.to_seeakble();
    let (_, r) = cur.interpret_next_record(&local_header()).to_tuple();
    match r {
        Err(FromU8Error::InvalidValue((28, Some(h)))) => {
            assert!(h.is_some());
            assert!(!h.is_sanity_field(0));
        },
        _ => panic!("expected an invalid header"),
    }
    assert_eq!(cur.pos(), 28);
    let (_, r) = cur.interpret_next_record(&local_header()).to_tuple();
    assert!(matches!(r, Err(FromU8Error::NotEnoughSlice(Some(_)))));
    assert_eq!(cur.pos(), 28);
}

fn elf_with_shstrndx(index: u16) -> ComposedRecord {
    let mut bytes = vec![0x7f, b'E', b'L', b'F', 2, 1, 1, 0, 0, 0, 0, 0, 0, 0, 0, 0];
    bytes.extend_from_slice(&2u16.to_le_bytes());
    bytes.extend_from_slice(&62u16.to_le_bytes());
    bytes.extend_from_slice(&1u32.to_le_bytes());
    bytes.extend_from_slice(&[0; 24]);
    bytes.extend_from_slice(&0u32.to_le_bytes());
    bytes.extend_from_slice(&[64, 0, 56, 0, 0, 0, 64, 0, 3, 0]);
    bytes.extend_from_slice(&index.to_le_bytes());
    assert_eq!(bytes.len(), 64);
    let (read, header) = elf_header().parse(&bytes).unwrap();
    assert_eq!(read, 64);
    header
}

#[test]
fn undefined_name_table_is_flagged() {
    let header = elf_with_shstrndx(0);
    assert_eq!(name_table_index(&header, E_SHSTRNDX), Err(NameTableError::Undefined));
    let header = elf_with_shstrndx(2);
    assert_eq!(name_table_index(&header, E_SHSTRNDX), Ok(2));
    assert_eq!(name_table_index(&header, 99), Err(NameTableError::Missing));
}

#[test]
fn section_names_resolve_inside_the_table() {
    let mut blob = vec![0xaa; 8];
    blob.extend_from_slice(b"\0.text\0.data\0");
    let buf = Sequential::from_vec(blob);
    assert_eq!(section_name(&buf, 8, 1), Ok(b".text".to_vec()));
    assert_eq!(section_name(&buf, 8, 7), Ok(b".data".to_vec()));
    assert_eq!(section_name(&buf, 8, 0), Ok(vec![]));
    assert_eq!(section_name(&buf, 8, 13), Err(FromU8Error::RangeError));
    assert_eq!(section_name(&buf, u64::MAX, 1), Err(FromU8Error::RangeError));
    let unterminated = Sequential::from_vec(b"abc".to_vec());
    assert_eq!(unterminated.read_c_string(1), Err(FromU8Error::NotEnoughSlice(None)));
}

#[test]
fn section_headers_until_the_end() {
    let mut bytes = vec![];
    for name in [1u32, 7] {
        bytes.extend_from_slice(&name.to_le_bytes());
        bytes.extend_from_slice(&1u32.to_le_bytes());
        bytes.extend_from_slice(&2u64.to_le_bytes());
        bytes.extend_from_slice(&0u64.to_le_bytes());
        bytes.extend_from_slice(&0x40u64.to_le_bytes());
        bytes.extend_from_slice(&[0; 32]);
    }
    bytes.extend_from_slice(&[0; 10]);
    let buf = Sequential::from_vec(bytes);
    let mut cur = buf.to_seeakble();
    let ty = section_header();
    let mut names = vec![];
    loop {
        let (_, r) = cur.interpret_next_record(&ty).to_tuple();
        match r {
            Ok((_, sh)) => {
                assert_eq!(sh.get(SH_OFFSET, 0), Some(0x40));
                names.push(sh.get(SH_NAME, 0).unwrap());
            },
            _ => break,
        }
    }
    assert_eq!(names, vec![1, 7]);
    assert_eq!(cur.pos(), 128);
}
