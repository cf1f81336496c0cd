use elfeat::file::Sequential;
use elfeat::model::{ComposedFromU8Array, ModelFromU8Array, Table};
use elfeat::record::{FieldType, RecordType, VOConstitudeResult};
use elfeat::types::FromU8Error;
use elfeat::view::{MutView, VOConstitudeResultMut, ViewError};

const ET_EXEC: u128 = 2;
const EM_SH: u128 = 42;
const EV_NONE: u128 = 0;

fn mock_composition() -> RecordType {
    let e_type = Table::from_pairs(2, &[("ET_NONE", 0), ("ET_REL", 1), ("ET_EXEC", ET_EXEC)]);
    let e_machine = Table::from_pairs(2, &[("EM_NONE", 0), ("EM_SH", EM_SH)]);
    let e_version = Table::from_pairs(4, &[("EV_NONE", EV_NONE), ("EV_CURRENT", 1)]);
    RecordType::new()
        .field("e_type", FieldType::model(e_type))
        .field("e_machine", FieldType::model(e_machine))
        .field("e_version", FieldType::model(e_version))
}

/// The whole buffer, split into the pieces of its three fields.
fn field_views() -> (MutView, MutView, MutView) {
    let original = Sequential::from_vec(vec![2, 0, 42, 0, 0, 0, 0, 0]);
    let whole = original.to_mut_view();
    let (t, rest) = whole.split2(2).unwrap();
    let (m, v) = rest.split2(2).unwrap();
    (t, m, v)
}

#[test]
fn make_composition_ref() {
    let (t, m, v) = field_views();
    let tm = MutView::join(t, m).unwrap();
    let r = MutView::join(tm, v).unwrap();

    let (_, rec) = mock_composition().parse(r.as_slice()).unwrap();
    assert_eq!(rec.get(0, 0), Some(ET_EXEC));
    assert_eq!(rec.get(1, 0), Some(EM_SH));
    assert_eq!(rec.get(2, 0), Some(EV_NONE));
}

#[test]
fn test_strict_aliasing() {
    let (t, m, v) = field_views();
    let original_address = t.start();
    let tm = MutView::join(t, m).unwrap();
    let r = MutView::join(tm, v).unwrap();
    let composed_address = r.start();

    assert_eq!(original_address, composed_address);
    assert_eq!(original_address - composed_address, 0);
}

#[test]
fn align_panic() {
    // Pieces that do not lie one after the other are reported, never
    // joined and never a panic.
    let (t, m, v) = field_views();
    match MutView::join(t, v) {
        Err((ViewError::LayoutMismatch, t, v)) => {
            assert_eq!(t.start(), 0);
            assert_eq!(v.start(), 4);
        },
        _ => panic!("expected a layout mismatch"),
    }
    assert_eq!(m.start(), 2);
}

#[test]
fn split3_lengths_and_offsets() {
    let view = Sequential::from_vec((0u8..10).collect()).to_mut_view();
    let (head, body, tail) = view.split3(3, 7).ok().unwrap();
    assert_eq!((head.len(), body.len(), tail.len()), (3, 4, 3));
    assert_eq!((head.start(), body.start(), tail.start()), (0, 3, 7));
    assert_eq!(body.as_slice(), &[3, 4, 5, 6]);
    // offsets add up through nested splits
    let (_, inner, _) = body.split3(1, 2).ok().unwrap();
    assert_eq!(inner.start(), 4);
    assert_eq!(inner.as_slice(), &[4]);
    let view = Sequential::from_vec(vec![1, 2, 3]).to_mut_view();
    let (head, body, tail) = view.split3(0, 0).ok().unwrap();
    assert_eq!((head.len(), body.len(), tail.len()), (0, 0, 3));
}

#[test]
fn split_errors_give_the_view_back() {
    let view = Sequential::from_vec(vec![1, 2, 3]).to_mut_view();
    let view = match view.split3(2, 1) {
        Err((ViewError::InvalidSplit, v)) => v,
        _ => panic!("expected an invalid split"),
    };
    let view = match view.split3(1, 3) {
        Err((ViewError::OutOfRange, v)) => v,
        _ => panic!("expected out of range"),
    };
    let view = match view.split2(3) {
        Err((ViewError::OutOfRange, v)) => v,
        _ => panic!("expected out of range"),
    };
    assert_eq!(view.as_slice(), &[1, 2, 3]);
}

#[test]
fn interpret_in_place_and_write_back() {
    let view = Sequential::from_vec(vec![9, 0x34, 0x12, 7, 7]).to_mut_view();
    let (head, mut placed, tail) = match view.interpret_relative::<u16>(1) {
        VOConstitudeResultMut::Valid(h, p, t) => (h, p, t),
        _ => panic!("expected a value"),
    };
    assert_eq!(*placed.value(), 0x1234);
    placed.store(0xbeef);
    let body = placed.into_view();
    assert_eq!(body.start(), 1);
    let whole = MutView::join(MutView::join(head, body).unwrap(), tail).unwrap();
    assert_eq!(whole.into_sequential().into_vec(), vec![9, 0xef, 0xbe, 7, 7]);
}

#[test]
fn interpret_in_place_errors() {
    let view = Sequential::from_vec(vec![1, 2, 3, 4]).to_mut_view();
    let view = match view.interpret_relative::<u32>(1) {
        VOConstitudeResultMut::Error(ViewError::InsufficientLength, v) => v,
        _ => panic!("expected too few bytes"),
    };
    let view = match view.interpret_relative::<u16>(4) {
        VOConstitudeResultMut::Error(ViewError::OutOfRange, v) => v,
        _ => panic!("expected out of range"),
    };
    let (_, tail) = view.split2(1).unwrap();
    let tail = match tail.interpret_absolute::<u8>(0) {
        VOConstitudeResultMut::Error(ViewError::OutOfRange, v) => v,
        _ => panic!("a position before the view is out of range"),
    };
    match tail.interpret_absolute::<u8>(2) {
        VOConstitudeResultMut::Valid(h, p, t) => {
            assert_eq!(*p.value(), 3);
            assert_eq!((h.len(), t.len()), (1, 1));
        },
        _ => panic!("expected a value"),
    }
}

#[test]
fn truncated_record_is_partial() {
    let ty = mock_composition();
    match ty.parse(&[2, 0, 42, 0, 0, 0]) {
        Err(FromU8Error::NotEnoughSlice(Some(rec))) => {
            assert_eq!(rec.get(0, 0), Some(ET_EXEC));
            assert_eq!(rec.get(1, 0), Some(EM_SH));
            assert!(!rec.is_some_field(2));
            assert!(rec.is_none());
            assert!(!rec.is_sanity());
            // the same as reading the fields that fit one by one
            let one = RecordType::new().field("e_type", FieldType::model(Table::from_pairs(2, &[("ET_EXEC", 2)])));
            let (_, first) = one.parse(&[2, 0]).unwrap();
            assert_eq!(first.get(0, 0), rec.get(0, 0));
        },
        _ => panic!("expected a partial record"),
    }
    match ty.parse(&[2]) {
        Err(FromU8Error::NotEnoughSlice(Some(rec))) => {
            assert!(!rec.is_some_field(0));
            assert!(!rec.is_some_field(1));
        },
        _ => panic!("expected an empty partial record"),
    }
}

#[test]
fn undeclared_value_is_invalid_not_short() {
    let ty = mock_composition();
    match ty.parse(&[2, 0, 99, 0, 0, 0, 0, 0]) {
        Err(FromU8Error::InvalidValue((8, Some(rec)))) => {
            assert!(rec.is_some());
            assert!(!rec.is_sanity());
            assert!(rec.is_sanity_field(0));
            assert!(!rec.is_sanity_field(1));
            assert!(rec.is_sanity_field(2));
        },
        _ => panic!("expected an invalid value"),
    }
    let (read, rec) = ty.parse(&[2, 0, 42, 0, 1, 0, 0, 0, 0xff]).unwrap();
    assert_eq!(read, 8);
    assert!(rec.is_sanity());
}

#[test]
fn record_in_place_then_rejoined() {
    let ty = mock_composition();
    let view = Sequential::from_vec(vec![0xee, 2, 0, 42, 0, 0, 0, 0, 0, 0xdd]).to_mut_view();
    let (head, placed, tail) = match view.interpret_relative_record(&ty, 1) {
        VOConstitudeResultMut::Valid(h, p, t) => (h, p, t),
        _ => panic!("expected a sane record"),
    };
    assert_eq!(placed.value().get(1, 0), Some(EM_SH));
    let body = placed.into_view();
    assert_eq!((head.len(), body.start(), body.len(), tail.start()), (1, 1, 8, 9));
    let whole = MutView::join(MutView::join(head, body).unwrap(), tail).unwrap();
    assert_eq!(whole.len(), 10);

    let view = Sequential::from_vec(vec![2, 0, 7, 0, 0, 0, 0, 0, 0]).to_mut_view();
    let view = match view.interpret_relative_record(&ty, 0) {
        VOConstitudeResultMut::Invalid(h, p, t) => {
            assert!(!p.value().is_sanity_field(1));
            MutView::join(MutView::join(h, p.into_view()).unwrap(), t).unwrap()
        },
        _ => panic!("expected an invalid record"),
    };
    match view.interpret_relative_record(&ty, 3) {
        VOConstitudeResultMut::Error(ViewError::InsufficientLength, v) => assert_eq!(v.len(), 9),
        _ => panic!("expected too few bytes"),
    }
}

#[test]
fn constitude_hands_back_the_rest() {
    let ty = mock_composition();
    let bytes: &[u8] = &[2, 0, 42, 0, 1, 0, 0, 0, 5, 6];
    match ty.constitude(bytes) {
        VOConstitudeResult::Valid(rec, rest) => {
            assert_eq!(rest, &[5, 6]);
            assert!(rec.is_sanity());
        },
        _ => panic!("expected a sane record"),
    }
    let bytes: &[u8] = &[9, 0, 42, 0, 1, 0, 0, 0];
    match ty.constitude(bytes) {
        VOConstitudeResult::Invalid(rec, rest) => {
            assert!(rest.is_empty());
            assert!(!rec.is_sanity_field(0));
        },
        _ => panic!("expected an invalid record"),
    }
    match ty.constitude(&bytes[..5]) {
        VOConstitudeResult::Error(back) => assert_eq!(back.len(), 5),
        _ => panic!("expected too few bytes"),
    }
}
