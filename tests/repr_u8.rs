use elfeat::repr_u8::{Cchar, Ci32, Csize, Cu16, Cu32, Cu64, ReprCArray, RepresentU8Array};
use elfeat::types::FromU8Array;

#[test]
fn cu16_from_slice_ok() {
    let slice: &[u8] = &[1, 0, 1, 2];
    let (val, tail) = Cu16::raw_constitude(slice).expect("convertion error");

    assert_eq!(tail, &[1, 2]);
    assert_eq!(val.into_inner(), 1);
}

#[test]
fn cu16_from_slice_length_err() {
    let slice: &[u8] = &[1];
    assert!(Cu16::raw_constitude(slice).is_err())
}

#[test]
fn cu16_to_slice_represent() {
    let val = Cu16::from_inner(0x1234);
    assert_eq!(val.to_slice().as_slice(), &[0x34, 0x12]);
}

#[test]
fn cu16_to_slice_change() {
    let val = Cu16::from_inner(0x1234);
    let mut slice = val.to_slice();

    slice[0] = 0xff;

    let (val, _) = Cu16::raw_constitude(&slice).unwrap();
    assert_eq!(val.into_inner(), 0x12ff);
}

#[test]
fn split_at_self_size_hands_back_short_input() {
    let slice: &[u8] = &[1, 2, 3];
    assert_eq!(Ci32::split_at_self_size(slice), Err(&[1u8, 2, 3][..]));
    let slice: &[u8] = &[0xff, 0xff, 0xff, 0xff, 9];
    let (left, right) = Ci32::split_at_self_size(slice).unwrap();
    assert_eq!(left, &[0xff, 0xff, 0xff, 0xff]);
    assert_eq!(right, &[9]);
    assert_eq!(Ci32::raw_constitude(slice).unwrap().0.into_inner(), -1);
    assert_eq!(Ci32::size(), 4);
}

#[test]
fn sizes_are_fixed_per_type() {
    assert_eq!(Cu16::size(), 2);
    assert_eq!(Cu32::size(), 4);
    assert_eq!(Cu64::size(), 8);
    assert_eq!(Cchar::size(), 1);
    assert_eq!(Csize::size(), core::mem::size_of::<usize>());
    assert_eq!(ReprCArray::<Cu16, 3>::size(), 6);
    assert_eq!(ReprCArray::<Cu16, 0>::size(), 0);
}

#[test]
fn repr_c_array_reads_and_writes() {
    let arr = ReprCArray::new([Cu16::from_inner(0x0102), Cu16::from_inner(0xa0b0)]);
    assert_eq!(arr.to_slice(), vec![0x02, 0x01, 0xb0, 0xa0]);
    let (back, rest) = ReprCArray::<Cu16, 2>::raw_constitude(&[0x02, 0x01, 0xb0, 0xa0, 9]).unwrap();
    assert_eq!(back, arr);
    assert_eq!(rest, &[9]);
    assert!(ReprCArray::<Cu16, 2>::raw_constitude(&[1, 2, 3]).is_err());
    assert_eq!(back.as_slice()[1].into_inner(), 0xa0b0);
}

#[test]
fn word_sized_wrappers() {
    let v = Csize::from_inner(0x0102);
    let bytes = v.to_slice();
    assert_eq!(bytes.len(), core::mem::size_of::<usize>());
    assert_eq!(&bytes[..2], &[0x02, 0x01]);
    assert_eq!(Csize::raw_constitude(&bytes).unwrap().0.into_inner(), 0x0102);
    assert_eq!(Cchar::raw_constitude(&[0xff]).unwrap().0.into_inner(), -1);
}
