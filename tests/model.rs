use elfeat::model::{BitFlagValue, Constant, ComposedFromU8Array, ModelFromU8Array, ModelValue, Table};
use elfeat::record::{ComposedRecord, FieldType, RecordType};
use elfeat::types::{Array, FromU8Error};

fn mock_type() -> RecordType {
    let mt1 = Table::from_pairs(2, &[("VAL", 0)]);
    let mt2 = Table::from_pairs(16, &[("VAL", 0x88)]);
    let bf = Table::from_pairs(2, &[("F1", 0b1), ("F2", 0b10)]);
    RecordType::new()
        .field("a", FieldType::array(&FieldType::model(mt1), 3))
        .field("v", FieldType::model(mt2))
        .field("bf", FieldType::flags(bf))
}

fn sane_mock() -> ComposedRecord {
    let mut d = ComposedRecord::get_none(&mock_type());
    assert!(d.set_field(0, vec![0, 0, 0]));
    assert!(d.set_field(1, vec![0x88]));
    assert!(d.set_field(2, vec![0b11]));
    d
}

fn tmp_bf(raw: u128) -> BitFlagValue {
    let t = Table::from_pairs(2, &[("B0", 1 << 0), ("B1", 1 << 1), ("B2", 1 << 2)]);
    BitFlagValue::new(t, raw).unwrap()
}

#[test]
fn test_mock_type() {
    let mut data: Vec<u8> = vec![1, 2, 3, 4, 5, 6];
    data.extend_from_slice(&[1, 2, 3, 4, 5, 6, 7, 8, 1, 2, 3, 4, 5, 6, 7, 8]);
    data.extend_from_slice(&[1, 2, 3, 4, 4, 3, 2, 1]);

    let slice: &[u8] = data.as_ref();

    // Every field is read, but none holds a declared value: the record
    // comes back whole, marked invalid.
    let (size, mt) = match mock_type().parse(slice) {
        Err(FromU8Error::InvalidValue((size, Some(mt)))) => (size, mt),
        _ => panic!("expected an invalid value"),
    };

    assert_eq!(size, (16 / 8) * 3 + (128 / 8) + (16 / 8));
    assert_eq!(mt.get(0, 0), Some(0x0201));
    assert_eq!(mt.get(0, 1), Some(0x0403));
    assert_eq!(mt.get(0, 2), Some(0x0605));
    assert_eq!(mt.get(1, 0), Some(0x08070605040302010807060504030201));
    assert_eq!(mt.get(2, 0), Some(0x0201));
    assert_eq!(mt.is_sanity(), false);
    assert_eq!(mt.is_some(), true);
}

#[test]
fn composed_to_slice_test() {
    let d = sane_mock();

    let slice = d.to_slice();
    assert_eq!(
        &[
            0x00, 0x00, 0x00, 0x00, 0x00, 0x00, 0x88, 0x00, 0x00, 0x00, 0x00, 0x00, 0x00, 0x00,
            0x00, 0x00, 0x00, 0x00, 0x00, 0x00, 0x00, 0x00, 0b11, 0x00
        ],
        slice.as_slice()
    );
}

#[test]
fn composed_to_slice_none() {
    let mut d = sane_mock();
    d.clear_field(1);

    let slice = d.to_slice();
    assert_eq!(&[0x00, 0x00, 0x00, 0x00, 0x00, 0x00,], slice.as_slice());
}

#[test]
fn sanity_check() {
    let mut d = sane_mock();

    assert_eq!(d.is_sanity(), true);

    assert!(d.set(0, 0, 10));
    let bf = d.get(2, 0).unwrap();
    assert!(d.set(2, 0, bf | 0b100));

    assert_eq!(d.is_sanity_field(0), false);
    assert_eq!(d.is_sanity_field(1), true);
    assert_eq!(d.is_sanity_field(2), false);
    assert_eq!(d.is_sanity(), false);
}

#[test]
fn bitflags_to_string() {
    assert_eq!(tmp_bf(0b0111).describe(), "(B0 | B1 | B2)".to_string());
    assert_eq!(tmp_bf(0b0110).describe(), "(B1 | B2)".to_string());
    assert_eq!(tmp_bf(0b0000).describe(), "()".to_string());
    assert_eq!(tmp_bf(0b1000).describe(), "(Unknown(8))".to_string());
    assert_eq!(tmp_bf(0b1001).describe(), "(B0 | Unknown(8))".to_string());
}

#[test]
fn bitflags_on_off_get() {
    let mut bf = tmp_bf(0);
    let b0 = bf.flag("B0").unwrap();
    assert_eq!(bf.is_empty(), true);
    assert_eq!(bf.is_zero(), true);

    assert_eq!(bf.on(b0), false);
    assert_eq!(bf.get(b0), true);

    assert_eq!(bf.is_empty(), false);
    assert_eq!(bf.is_zero(), false);

    assert_eq!(bf.off(b0), true);
    assert_eq!(bf.get(b0), false);

    assert_eq!(bf.on_at(3), false);
    assert_eq!(bf.get_at(3), true);

    assert_eq!(bf.is_empty(), true);
    assert_eq!(bf.is_zero(), false);

    assert_eq!(bf.is_sanity(), false);
}

#[test]
fn bitflags_toggle_and_set() {
    let mut bf = tmp_bf(0b001);
    assert_eq!(bf.toggle(0b010), false);
    assert_eq!(bf.inner(), 0b011);
    assert_eq!(bf.toggle_at(0), true);
    assert_eq!(bf.inner(), 0b010);
    assert_eq!(bf.set_at(2, true), false);
    assert_eq!(bf.set(0b110, false), true);
    assert_eq!(bf.inner(), 0);
    assert_eq!(bf.off_at(1), false);
    // bits beyond the width are never kept
    assert_eq!(bf.on_at(20), false);
    assert_eq!(bf.inner(), 0);
    assert_eq!(bf.flag("B9"), None);
}

#[test]
fn empty_flags_with_only_undeclared_bits() {
    assert!(tmp_bf(0).is_empty());
    assert!(tmp_bf(0b1000).is_empty());
    assert!(tmp_bf(0b1_0000_0000).is_empty());
    assert!(!tmp_bf(0b1000).is_zero());
    assert!(!tmp_bf(0b100).is_empty());
    // no constant at all: empty always, and sane only at zero
    let none = BitFlagValue::new(Table::free(1), 0x40).unwrap();
    assert!(none.is_empty());
    assert!(!none.is_sanity());
    assert!(BitFlagValue::new(Table::free(1), 0).unwrap().is_sanity());
}

#[test]
fn model_value_sanity_and_names() {
    let t = Table::from_pairs(2, &[("ET_NONE", 0), ("ET_EXEC", 2)]);
    let v = ModelValue::new(t.clone(), 2).unwrap();
    assert!(v.is_sanity());
    assert!(v.is_constant());
    assert!(v.is_named("ET_EXEC"));
    assert!(!v.is_named("ET_NONE"));
    assert!(!v.is_named("ET_DYN"));
    let w = ModelValue::new(t.clone(), 3).unwrap();
    assert!(!w.is_sanity());
    assert!(ModelValue::new(t, 0x1_0000).is_none());
    // no constant: anything is sane
    assert!(ModelValue::new(Table::free(4), 12345).unwrap().is_sanity());
}

#[test]
fn declared_constants_read_back() {
    let t = Table::from_pairs(4, &[("A", 0), ("B", 0xdeadbeef), ("C", 0xffff_ffff)]);
    for c in t.constants() {
        let v = ModelValue::new(t.clone(), c.value).unwrap();
        let bytes = v.to_slice();
        assert_eq!(bytes.len(), 4);
        match ModelValue::parse(&t, &bytes) {
            Ok((4, back)) => assert_eq!(back.inner(), c.value),
            _ => panic!("a declared constant must read back as sane"),
        }
    }
    let f = Table::from_pairs(1, &[("X", 0b01), ("Y", 0b10)]);
    for c in f.constants() {
        let v = BitFlagValue::new(f.clone(), c.value).unwrap();
        match BitFlagValue::parse(&f, &v.to_slice()) {
            Ok((1, back)) => assert_eq!(back.inner(), c.value),
            _ => panic!("a declared flag must read back as sane"),
        }
    }
}

#[test]
fn scalar_parse_errors() {
    let t = Table::from_pairs(2, &[("ONE", 1)]);
    assert!(matches!(ModelValue::parse(&t, &[1]), Err(FromU8Error::NotEnoughSlice(None))));
    match ModelValue::parse(&t, &[2, 0]) {
        Err(FromU8Error::InvalidValue((2, Some(v)))) => assert_eq!(v.inner(), 2),
        _ => panic!("an undeclared value is invalid"),
    }
    let f = Table::from_pairs(1, &[("X", 1)]);
    assert!(matches!(BitFlagValue::parse(&f, &[]), Err(FromU8Error::NotEnoughSlice(None))));
    assert!(matches!(BitFlagValue::parse(&f, &[3]), Err(FromU8Error::InvalidValue((1, Some(_))))));
}

#[test]
fn table_rejects_what_does_not_fit() {
    assert!(Table::new(0, vec![]).is_none());
    assert!(Table::new(17, vec![]).is_none());
    assert!(Table::new(1, vec![Constant::new("BIG".to_string(), 256)]).is_none());
    let t = Table::new(1, vec![Constant::new("OK".to_string(), 255)]).unwrap();
    assert_eq!(t.width(), 1);
    assert_eq!(t.find("OK"), Some(0));
    assert_eq!(t.mask(), 255);
    assert!(t.declares(255));
    let grown = Table::free(1).with_constant("A", 1).with_constant("B", 2);
    assert_eq!(grown.constants().len(), 2);
    assert_eq!(grown.find("B"), Some(1));
    assert_eq!(Table::from_pairs(1, &[("A", 1), ("B", 255)]).mask(), 255);
}

#[test]
fn fixed_array_sanity_is_every_element() {
    let t = Table::from_pairs(1, &[("V", 7)]);
    let good = || ModelValue::new(t.clone(), 7).unwrap();
    let all = Array::<ModelValue, 3>::from_vec(vec![good(), good(), good()]).unwrap();
    assert!(all.is_sanity());
    let one_bad = Array::<ModelValue, 3>::from_vec(vec![good(), ModelValue::new(t.clone(), 1).unwrap(), good()]).unwrap();
    assert!(!one_bad.is_sanity());
    let empty = Array::<ModelValue, 0>::from_vec(vec![]).unwrap();
    assert!(empty.is_sanity());
    assert!(Array::<ModelValue, 2>::from_vec(vec![good()]).is_none());
}

#[test]
fn array_field_sanity_is_every_element() {
    let elem = FieldType::model(Table::from_pairs(1, &[("V", 7)]));
    let ty = RecordType::new()
        .field("three", FieldType::array(&elem, 3))
        .field("none", FieldType::array(&elem, 0));
    let (read, rec) = ty.parse(&[7, 7, 7]).unwrap();
    assert_eq!(read, 3);
    assert!(rec.is_sanity_field(0));
    assert!(rec.is_sanity_field(1));
    match ty.parse(&[7, 1, 7]) {
        Err(FromU8Error::InvalidValue((3, Some(rec)))) => {
            assert!(!rec.is_sanity_field(0));
            assert!(rec.is_sanity_field(1));
        },
        _ => panic!("one bad element makes the array invalid"),
    }
    // an array that does not fit is absent as a whole
    match ty.parse(&[7, 7]) {
        Err(FromU8Error::NotEnoughSlice(Some(rec))) => assert!(!rec.is_some_field(0)),
        _ => panic!("expected a partial record"),
    }
}
