//! Little-endian reading and writing of the integer types.

use crate::endian::{
    decode_le, encode_le, lemma_le_bytes_len, lemma_le_round_trip, lemma_le_value_bound,
    lemma_half256, lemma_pow256_16, lemma_pow256_is_pow, lemma_pow256_monotone,
    lemma_signed_round_trip, lemma_unsigned_round_trip,
    le_bytes, le_value, signed_of, to_signed, to_unsigned, unsigned_of, half256, pow256,
};
use crate::types::{FromU8Array, FromU8Error};
use vstd::layout::size_of;
use vstd::prelude::*;

verus! {

/// The value that `n` stored bytes read from the front of `s` denote.
fn read_unsigned(s: &[u8], n: usize) -> (r: u128)
    requires
        n <= s@.len(),
        1 <= n <= 16,
    ensures
        r as nat == le_value(s@.take(n as int)),
        r < pow256(n as nat),
{
    let r = decode_le(s, 0, n);
    proof {
        assert(s@.subrange(0, n as int) =~= s@.take(n as int));
        lemma_le_value_bound(s@.take(n as int));
    }
    r
}

impl FromU8Array for u8 {
    open spec fn spec_size() -> nat {
        1
    }

    open spec fn spec_valid(v: u8) -> bool {
        true
    }

    open spec fn spec_decode(bytes: Seq<u8>) -> u8 {
        le_value(bytes) as u8
    }

    open spec fn spec_encode(v: u8) -> Seq<u8> {
        le_bytes(v as nat, 1)
    }

    proof fn lemma_view_valid(&self) {
    }

    proof fn lemma_round_trip(v: u8) {
        lemma_pow256_16();
        lemma_le_bytes_len(v as nat, 1);
        lemma_le_round_trip(v as nat, 1);
    }

    fn from_slice(slice: &[u8]) -> (r: Result<(usize, u8), FromU8Error<u8>>) {
        if slice.len() < 1 {
            return Err(FromU8Error::NotEnoughSlice(None));
        }
        proof {
            lemma_pow256_16();
        }
        Ok((1, read_unsigned(slice, 1) as u8))
    }

    fn to_slice(&self) -> (r: Vec<u8>) {
        encode_le(*self as u128, 1)
    }
}

impl FromU8Array for u16 {
    open spec fn spec_size() -> nat {
        2
    }

    open spec fn spec_valid(v: u16) -> bool {
        true
    }

    open spec fn spec_decode(bytes: Seq<u8>) -> u16 {
        le_value(bytes) as u16
    }

    open spec fn spec_encode(v: u16) -> Seq<u8> {
        le_bytes(v as nat, 2)
    }

    proof fn lemma_view_valid(&self) {
    }

    proof fn lemma_round_trip(v: u16) {
        lemma_pow256_16();
        lemma_le_bytes_len(v as nat, 2);
        lemma_le_round_trip(v as nat, 2);
    }

    fn from_slice(slice: &[u8]) -> (r: Result<(usize, u16), FromU8Error<u16>>) {
        if slice.len() < 2 {
            return Err(FromU8Error::NotEnoughSlice(None));
        }
        proof {
            lemma_pow256_16();
        }
        Ok((2, read_unsigned(slice, 2) as u16))
    }

    fn to_slice(&self) -> (r: Vec<u8>) {
        encode_le(*self as u128, 2)
    }
}

impl FromU8Array for u32 {
    open spec fn spec_size() -> nat {
        4
    }

    open spec fn spec_valid(v: u32) -> bool {
        true
    }

    open spec fn spec_decode(bytes: Seq<u8>) -> u32 {
        le_value(bytes) as u32
    }

    open spec fn spec_encode(v: u32) -> Seq<u8> {
        le_bytes(v as nat, 4)
    }

    proof fn lemma_view_valid(&self) {
    }

    proof fn lemma_round_trip(v: u32) {
        lemma_pow256_16();
        lemma_le_bytes_len(v as nat, 4);
        lemma_le_round_trip(v as nat, 4);
    }

    fn from_slice(slice: &[u8]) -> (r: Result<(usize, u32), FromU8Error<u32>>) {
        if slice.len() < 4 {
            return Err(FromU8Error::NotEnoughSlice(None));
        }
        proof {
            lemma_pow256_16();
        }
        Ok((4, read_unsigned(slice, 4) as u32))
    }

    fn to_slice(&self) -> (r: Vec<u8>) {
        encode_le(*self as u128, 4)
    }
}

impl FromU8Array for u64 {
    open spec fn spec_size() -> nat {
        8
    }

    open spec fn spec_valid(v: u64) -> bool {
        true
    }

    open spec fn spec_decode(bytes: Seq<u8>) -> u64 {
        le_value(bytes) as u64
    }

    open spec fn spec_encode(v: u64) -> Seq<u8> {
        le_bytes(v as nat, 8)
    }

    proof fn lemma_view_valid(&self) {
    }

    proof fn lemma_round_trip(v: u64) {
        lemma_pow256_16();
        lemma_le_bytes_len(v as nat, 8);
        lemma_le_round_trip(v as nat, 8);
    }

    fn from_slice(slice: &[u8]) -> (r: Result<(usize, u64), FromU8Error<u64>>) {
        if slice.len() < 8 {
            return Err(FromU8Error::NotEnoughSlice(None));
        }
        proof {
            lemma_pow256_16();
        }
        Ok((8, read_unsigned(slice, 8) as u64))
    }

    fn to_slice(&self) -> (r: Vec<u8>) {
        encode_le(*self as u128, 8)
    }
}

impl FromU8Array for u128 {
    open spec fn spec_size() -> nat {
        16
    }

    open spec fn spec_valid(v: u128) -> bool {
        true
    }

    open spec fn spec_decode(bytes: Seq<u8>) -> u128 {
        le_value(bytes) as u128
    }

    open spec fn spec_encode(v: u128) -> Seq<u8> {
        le_bytes(v as nat, 16)
    }

    proof fn lemma_view_valid(&self) {
    }

    proof fn lemma_round_trip(v: u128) {
        lemma_pow256_16();
        lemma_le_bytes_len(v as nat, 16);
        lemma_le_round_trip(v as nat, 16);
    }

    fn from_slice(slice: &[u8]) -> (r: Result<(usize, u128), FromU8Error<u128>>) {
        if slice.len() < 16 {
            return Err(FromU8Error::NotEnoughSlice(None));
        }
        proof {
            lemma_pow256_16();
        }
        Ok((16, read_unsigned(slice, 16) as u128))
    }

    fn to_slice(&self) -> (r: Vec<u8>) {
        encode_le(*self as u128, 16)
    }
}

impl FromU8Array for i8 {
    open spec fn spec_size() -> nat {
        1
    }

    open spec fn spec_valid(v: i8) -> bool {
        true
    }

    open spec fn spec_decode(bytes: Seq<u8>) -> i8 {
        signed_of(le_value(bytes), 1) as i8
    }

    open spec fn spec_encode(v: i8) -> Seq<u8> {
        le_bytes(unsigned_of(v as int, 1), 1)
    }

    proof fn lemma_view_valid(&self) {
    }

    proof fn lemma_round_trip(v: i8) {
        lemma_pow256_16();
        assert(half256(1) == pow256(1) / 2);
        lemma_unsigned_round_trip(v as int, 1);
        lemma_le_bytes_len(unsigned_of(v as int, 1), 1);
        lemma_le_round_trip(unsigned_of(v as int, 1), 1);
    }

    fn from_slice(slice: &[u8]) -> (r: Result<(usize, i8), FromU8Error<i8>>) {
        if slice.len() < 1 {
            return Err(FromU8Error::NotEnoughSlice(None));
        }
        let u = read_unsigned(slice, 1);
        proof {
            lemma_pow256_16();
            assert(half256(1) == pow256(1) / 2);
            lemma_signed_round_trip(u as nat, 1);
        }
        Ok((1, to_signed(u, 1) as i8))
    }

    fn to_slice(&self) -> (r: Vec<u8>) {
        proof {
            lemma_pow256_16();
            assert(half256(1) == pow256(1) / 2);
        }
        let u = to_unsigned(*self as i128, 1);
        encode_le(u, 1)
    }
}

impl FromU8Array for i16 {
    open spec fn spec_size() -> nat {
        2
    }

    open spec fn spec_valid(v: i16) -> bool {
        true
    }

    open spec fn spec_decode(bytes: Seq<u8>) -> i16 {
        signed_of(le_value(bytes), 2) as i16
    }

    open spec fn spec_encode(v: i16) -> Seq<u8> {
        le_bytes(unsigned_of(v as int, 2), 2)
    }

    proof fn lemma_view_valid(&self) {
    }

    proof fn lemma_round_trip(v: i16) {
        lemma_pow256_16();
        assert(half256(2) == pow256(2) / 2);
        lemma_unsigned_round_trip(v as int, 2);
        lemma_le_bytes_len(unsigned_of(v as int, 2), 2);
        lemma_le_round_trip(unsigned_of(v as int, 2), 2);
    }

    fn from_slice(slice: &[u8]) -> (r: Result<(usize, i16), FromU8Error<i16>>) {
        if slice.len() < 2 {
            return Err(FromU8Error::NotEnoughSlice(None));
        }
        let u = read_unsigned(slice, 2);
        proof {
            lemma_pow256_16();
            assert(half256(2) == pow256(2) / 2);
            lemma_signed_round_trip(u as nat, 2);
        }
        Ok((2, to_signed(u, 2) as i16))
    }

    fn to_slice(&self) -> (r: Vec<u8>) {
        proof {
            lemma_pow256_16();
            assert(half256(2) == pow256(2) / 2);
        }
        let u = to_unsigned(*self as i128, 2);
        encode_le(u, 2)
    }
}

impl FromU8Array for i32 {
    open spec fn spec_size() -> nat {
        4
    }

    open spec fn spec_valid(v: i32) -> bool {
        true
    }

    open spec fn spec_decode(bytes: Seq<u8>) -> i32 {
        signed_of(le_value(bytes), 4) as i32
    }

    open spec fn spec_encode(v: i32) -> Seq<u8> {
        le_bytes(unsigned_of(v as int, 4), 4)
    }

    proof fn lemma_view_valid(&self) {
    }

    proof fn lemma_round_trip(v: i32) {
        lemma_pow256_16();
        assert(half256(4) == pow256(4) / 2);
        lemma_unsigned_round_trip(v as int, 4);
        lemma_le_bytes_len(unsigned_of(v as int, 4), 4);
        lemma_le_round_trip(unsigned_of(v as int, 4), 4);
    }

    fn from_slice(slice: &[u8]) -> (r: Result<(usize, i32), FromU8Error<i32>>) {
        if slice.len() < 4 {
            return Err(FromU8Error::NotEnoughSlice(None));
        }
        let u = read_unsigned(slice, 4);
        proof {
            lemma_pow256_16();
            assert(half256(4) == pow256(4) / 2);
            lemma_signed_round_trip(u as nat, 4);
        }
        Ok((4, to_signed(u, 4) as i32))
    }

    fn to_slice(&self) -> (r: Vec<u8>) {
        proof {
            lemma_pow256_16();
            assert(half256(4) == pow256(4) / 2);
        }
        let u = to_unsigned(*self as i128, 4);
        encode_le(u, 4)
    }
}

impl FromU8Array for i64 {
    open spec fn spec_size() -> nat {
        8
    }

    open spec fn spec_valid(v: i64) -> bool {
        true
    }

    open spec fn spec_decode(bytes: Seq<u8>) -> i64 {
        signed_of(le_value(bytes), 8) as i64
    }

    open spec fn spec_encode(v: i64) -> Seq<u8> {
        le_bytes(unsigned_of(v as int, 8), 8)
    }

    proof fn lemma_view_valid(&self) {
    }

    proof fn lemma_round_trip(v: i64) {
        lemma_pow256_16();
        assert(half256(8) == pow256(8) / 2);
        lemma_unsigned_round_trip(v as int, 8);
        lemma_le_bytes_len(unsigned_of(v as int, 8), 8);
        lemma_le_round_trip(unsigned_of(v as int, 8), 8);
    }

    fn from_slice(slice: &[u8]) -> (r: Result<(usize, i64), FromU8Error<i64>>) {
        if slice.len() < 8 {
            return Err(FromU8Error::NotEnoughSlice(None));
        }
        let u = read_unsigned(slice, 8);
        proof {
            lemma_pow256_16();
            assert(half256(8) == pow256(8) / 2);
            lemma_signed_round_trip(u as nat, 8);
        }
        Ok((8, to_signed(u, 8) as i64))
    }

    fn to_slice(&self) -> (r: Vec<u8>) {
        proof {
            lemma_pow256_16();
            assert(half256(8) == pow256(8) / 2);
        }
        let u = to_unsigned(*self as i128, 8);
        encode_le(u, 8)
    }
}

impl FromU8Array for i128 {
    open spec fn spec_size() -> nat {
        16
    }

    open spec fn spec_valid(v: i128) -> bool {
        true
    }

    open spec fn spec_decode(bytes: Seq<u8>) -> i128 {
        signed_of(le_value(bytes), 16) as i128
    }

    open spec fn spec_encode(v: i128) -> Seq<u8> {
        le_bytes(unsigned_of(v as int, 16), 16)
    }

    proof fn lemma_view_valid(&self) {
    }

    proof fn lemma_round_trip(v: i128) {
        lemma_pow256_16();
        assert(half256(16) == pow256(16) / 2);
        lemma_unsigned_round_trip(v as int, 16);
        lemma_le_bytes_len(unsigned_of(v as int, 16), 16);
        lemma_le_round_trip(unsigned_of(v as int, 16), 16);
    }

    fn from_slice(slice: &[u8]) -> (r: Result<(usize, i128), FromU8Error<i128>>) {
        if slice.len() < 16 {
            return Err(FromU8Error::NotEnoughSlice(None));
        }
        let u = read_unsigned(slice, 16);
        proof {
            lemma_pow256_16();
            assert(half256(16) == pow256(16) / 2);
            lemma_signed_round_trip(u as nat, 16);
        }
        Ok((16, to_signed(u, 16) as i128))
    }

    fn to_slice(&self) -> (r: Vec<u8>) {
        proof {
            lemma_pow256_16();
            assert(half256(16) == pow256(16) / 2);
        }
        let u = to_unsigned(*self as i128, 16);
        encode_le(u, 16)
    }
}

/// The width of `usize` and `isize` on this machine, and their ranges.
proof fn lemma_word()
    ensures
        1 <= size_of::<usize>() <= 8,
        size_of::<isize>() == size_of::<usize>(),
        usize::MAX as nat + 1 == pow256(size_of::<usize>()),
        isize::MIN == -half256(size_of::<usize>()),
        isize::MAX == half256(size_of::<usize>()) - 1,
{
    broadcast use vstd::layout::layout_of_primitives;

    let w = size_of::<usize>();
    vstd::layout::unsigned_int_max_values();
    vstd::layout::signed_int_min_max_values();
    lemma_pow256_is_pow(w);
    lemma_pow256_16();
    assert(usize::MAX <= u64::MAX);
    if w > 8 {
        lemma_pow256_monotone(9, w);
        reveal_with_fuel(pow256, 10);
    }
    if w == 0 {
        reveal_with_fuel(pow256, 1);
    }
    lemma_half256(w);
}

impl FromU8Array for usize {
    open spec fn spec_size() -> nat {
        size_of::<usize>()
    }

    open spec fn spec_valid(v: usize) -> bool {
        true
    }

    open spec fn spec_decode(bytes: Seq<u8>) -> usize {
        le_value(bytes) as usize
    }

    open spec fn spec_encode(v: usize) -> Seq<u8> {
        le_bytes(v as nat, size_of::<usize>())
    }

    proof fn lemma_view_valid(&self) {
    }

    proof fn lemma_round_trip(v: usize) {
        lemma_word();
        lemma_le_bytes_len(v as nat, size_of::<usize>());
        lemma_le_round_trip(v as nat, size_of::<usize>());
    }

    fn from_slice(slice: &[u8]) -> (r: Result<(usize, usize), FromU8Error<usize>>) {
        let w = core::mem::size_of::<usize>();
        proof {
            lemma_word();
        }
        if slice.len() < w {
            return Err(FromU8Error::NotEnoughSlice(None));
        }
        Ok((w, read_unsigned(slice, w) as usize))
    }

    fn to_slice(&self) -> (r: Vec<u8>) {
        let w = core::mem::size_of::<usize>();
        proof {
            lemma_word();
        }
        encode_le(*self as u128, w)
    }
}

impl FromU8Array for isize {
    open spec fn spec_size() -> nat {
        size_of::<isize>()
    }

    open spec fn spec_valid(v: isize) -> bool {
        true
    }

    open spec fn spec_decode(bytes: Seq<u8>) -> isize {
        signed_of(le_value(bytes), size_of::<isize>()) as isize
    }

    open spec fn spec_encode(v: isize) -> Seq<u8> {
        le_bytes(unsigned_of(v as int, size_of::<isize>()), size_of::<isize>())
    }

    proof fn lemma_view_valid(&self) {
    }

    proof fn lemma_round_trip(v: isize) {
        lemma_word();
        let w = size_of::<isize>();
        lemma_unsigned_round_trip(v as int, w);
        lemma_le_bytes_len(unsigned_of(v as int, w), w);
        lemma_le_round_trip(unsigned_of(v as int, w), w);
    }

    fn from_slice(slice: &[u8]) -> (r: Result<(usize, isize), FromU8Error<isize>>) {
        let w = core::mem::size_of::<isize>();
        proof {
            lemma_word();
        }
        if slice.len() < w {
            return Err(FromU8Error::NotEnoughSlice(None));
        }
        let u = read_unsigned(slice, w);
        proof {
            lemma_signed_round_trip(u as nat, w as nat);
        }
        Ok((w, to_signed(u, w) as isize))
    }

    fn to_slice(&self) -> (r: Vec<u8>) {
        let w = core::mem::size_of::<isize>();
        proof {
            lemma_word();
        }
        let u = to_unsigned(*self as i128, w);
        encode_le(u, w)
    }
}

} // verus!
