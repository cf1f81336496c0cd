use elfeat::types::{Array, FromU8Array, FromU8Error};

#[test]
fn i32_from_slice_ok() {
    let mut slice: &[u8] = &[1, 2, 3, 4, 1, 2];
    let val = i32::from_slice_consume(&mut slice).expect("convertion error");

    assert_eq!(slice, &[1, 2]);
    assert_eq!(val, 0x04030201);
}

#[test]
fn i32_from_slice_length_err() {
    let slice: &[u8] = &[1];

    let e = i32::from_slice(slice).expect_err("Expected error");
    assert_eq!(e, FromU8Error::NotEnoughSlice(None));
}

#[test]
fn i32_to_slice_represent() {
    let val: i32 = 0x12345678;
    assert_eq!(val.to_slice().as_slice(), &[0x78, 0x56, 0x34, 0x12]);
}

#[test]
fn i32_to_slice_change() {
    let val: i32 = 0x12345678;
    let mut slice = val.to_slice();

    slice[0] = 0xff;

    assert_eq!(i32::from_slice(slice.as_slice()).unwrap(), (4, 0x123456ff));
}

#[test]
fn array_i32_from_slice_ok() {
    let mut slice: &[u8] = &[1, 2, 3, 4, 5, 6, 7, 8, 9, 10];
    let val = <Array<i32, 2>>::from_slice_consume(&mut slice).expect("convertion error");

    assert_eq!(val.inner(), &[0x04030201, 0x08070605]);
    assert_eq!(slice, &[9, 10]);
}

#[test]
fn array_i32_from_slice_length_error() {
    let mut slice: &[u8] = &[1, 2, 3, 4, 5, 6, 7, 8, 9, 10];
    let err = <Array<i32, 3>>::from_slice_consume(&mut slice).expect_err("expected error");

    assert_eq!(err, FromU8Error::NotEnoughSlice(None));
    assert_eq!(slice.len(), 10);
}

#[test]
fn array_u32_to_slice_change() {
    let mut slice: &[u8] = &[1, 2, 3, 4, 5, 6, 7, 8, 9, 10];
    let mut val = <Array<u32, 2>>::from_slice_consume(&mut slice).expect("convertion error");

    val = val.with_element(0, 0xf1f2f3f4);
    val = val.with_element(1, 0xf5f6f7f8);

    let s = val.to_slice();

    assert_eq!(
        s.as_slice(),
        &[0xf4, 0xf3, 0xf2, 0xf1, 0xf8, 0xf7, 0xf6, 0xf5]
    );
}

#[test]
fn unsigned_round_trip_at_the_bounds() {
    for v in [0u8, 1, 0x7f, 0x80, u8::MAX] {
        assert_eq!(u8::from_slice(&v.to_slice()).unwrap(), (1, v));
    }
    for v in [0u16, 0x0102, u16::MAX] {
        assert_eq!(u16::from_slice(&v.to_slice()).unwrap(), (2, v));
    }
    for v in [0u32, 0x01020304, u32::MAX] {
        assert_eq!(u32::from_slice(&v.to_slice()).unwrap(), (4, v));
    }
    for v in [0u64, 0x0102030405060708, u64::MAX] {
        assert_eq!(u64::from_slice(&v.to_slice()).unwrap(), (8, v));
    }
    for v in [0u128, 0x0102030405060708090a0b0c0d0e0f10, u128::MAX] {
        assert_eq!(u128::from_slice(&v.to_slice()).unwrap(), (16, v));
    }
}

#[test]
fn signed_round_trip_at_the_bounds() {
    for v in [0i8, -1, i8::MIN, i8::MAX] {
        assert_eq!(i8::from_slice(&v.to_slice()).unwrap(), (1, v));
    }
    for v in [0i16, -2, i16::MIN, i16::MAX] {
        assert_eq!(i16::from_slice(&v.to_slice()).unwrap(), (2, v));
    }
    for v in [0i32, -3, i32::MIN, i32::MAX, 0x01020304] {
        assert_eq!(i32::from_slice(&v.to_slice()).unwrap(), (4, v));
    }
    for v in [0i64, -4, i64::MIN, i64::MAX] {
        assert_eq!(i64::from_slice(&v.to_slice()).unwrap(), (8, v));
    }
    for v in [0i128, -5, i128::MIN, i128::MAX] {
        assert_eq!(i128::from_slice(&v.to_slice()).unwrap(), (16, v));
    }
}

#[test]
fn little_endian_byte_order() {
    assert_eq!(0x0102030405060708u64.to_slice(), vec![8, 7, 6, 5, 4, 3, 2, 1]);
    assert_eq!((-2i16).to_slice(), vec![0xfe, 0xff]);
    assert_eq!(i16::from_slice(&[0x00, 0x80]).unwrap(), (2, i16::MIN));
    assert_eq!(u16::from_slice(&[0x34, 0x12, 0x99]).unwrap(), (2, 0x1234));
}

#[test]
fn error_into_converts_the_value() {
    let e: FromU8Error<u16> = FromU8Error::InvalidValue((2, Some(7)));
    let f: FromU8Error<u32> = e.into();
    assert_eq!(f, FromU8Error::InvalidValue((2, Some(7u32))));
    let g: FromU8Error<u32> = FromU8Error::<u16>::NotEnoughSlice(None).into();
    assert_eq!(g, FromU8Error::NotEnoughSlice(None));
}

#[test]
fn word_round_trip() {
    for v in [0usize, 1, 0x0102, usize::MAX] {
        assert_eq!(usize::from_slice(&v.to_slice()).unwrap(), (core::mem::size_of::<usize>(), v));
    }
    for v in [0isize, -1, isize::MIN, isize::MAX] {
        assert_eq!(isize::from_slice(&v.to_slice()).unwrap(), (core::mem::size_of::<isize>(), v));
    }
    assert_eq!(usize::from_slice(&[1, 2]), Err(FromU8Error::NotEnoughSlice(None)));
}
