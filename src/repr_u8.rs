//! Fixed-size types read straight from the front of a byte slice, handing
//! back the bytes that follow.

use crate::types::{Array, FromU8Array, FromU8Error};
use vstd::prelude::*;
use vstd::slice::slice_subrange;

verus! {

/// A fixed-size type that can be read from the front of a slice, with the
/// rest of the slice handed back.
pub trait RepresentU8Array: FromU8Array {
    /// The number of bytes a value occupies, where that is a machine number.
    fn size() -> (r: usize)
        requires
            Self::spec_size() <= usize::MAX,
        ensures
            r == Self::spec_size(),
    ;

    /// Splits `slice` after the bytes of one value; hands `slice` back
    /// where it is too short.
    fn split_at_self_size<'a>(slice: &'a [u8]) -> (r: Result<(&'a [u8], &'a [u8]), &'a [u8]>)
        ensures
            match r {
                Ok((left, right)) => {
                    &&& slice@.len() >= Self::spec_size()
                    &&& left@ == slice@.take(Self::spec_size() as int)
                    &&& right@ == slice@.skip(Self::spec_size() as int)
                },
                Err(s) => slice@.len() < Self::spec_size() && s@ == slice@,
            },
    {
        match Self::from_slice(slice) {
            Ok((n, _)) => Ok((slice_subrange(slice, 0, n), slice_subrange(slice, n, slice.len()))),
            Err(_) => Err(slice),
        }
    }

    /// Reads a value from the front of `slice`, with the bytes after it;
    /// hands `slice` back where it is too short.
    fn raw_constitude<'a>(slice: &'a [u8]) -> (r: Result<(Self, &'a [u8]), &'a [u8]>)
        ensures
            match r {
                Ok((v, rest)) => {
                    &&& slice@.len() >= Self::spec_size()
                    &&& v@ == Self::spec_decode(slice@.take(Self::spec_size() as int))
                    &&& rest@ == slice@.skip(Self::spec_size() as int)
                },
                Err(s) => slice@.len() < Self::spec_size() && s@ == slice@,
            },
    {
        match Self::split_at_self_size(slice) {
            Err(s) => Err(s),
            Ok((left, right)) => match Self::from_slice(left) {
                Ok((_, v)) => {
                    assert(left@.take(Self::spec_size() as int) =~= left@);
                    Ok((v, right))
                },
                Err(_) => Err(slice),
            },
        }
    }
}

/// `N` values of `T` kept together, stored one after another.
#[derive(Debug, PartialEq, Eq)]
pub struct ReprCArray<T, const N: usize> {
    inner: Array<T, N>,
}

impl<T: View, const N: usize> View for ReprCArray<T, N> {
    type V = Seq<T::V>;

    closed spec fn view(&self) -> Seq<T::V> {
        self.inner@
    }
}

impl<T, const N: usize> ReprCArray<T, N> {
    /// The values, in order.
    pub closed spec fn elements(&self) -> Seq<T> {
        self.inner.elements()
    }

    /// The values, in order.
    pub fn as_slice(&self) -> (r: &[T])
        ensures
            r@ == self.elements(),
            r@.len() == N,
    {
        self.inner.inner()
    }
}

impl<T: Copy, const N: usize> ReprCArray<T, N> {
    /// The values `inner`.
    pub fn new(inner: [T; N]) -> (r: Self)
        ensures
            r.elements() == inner@,
    {
        let items = vstd::slice::slice_to_vec(inner.as_slice());
        match Array::from_vec(items) {
            Some(inner) => Self { inner },
            None => vstd::pervasive::unreached(),
        }
    }
}

impl<T: View, const N: usize> ReprCArray<T, N> {
    /// The view of the values is the view of each of them.
    pub proof fn lemma_view_is_elements(&self)
        ensures
            self.elements().len() == N,
            self@ == self.elements().map_values(|x: T| x@),
    {
        self.inner.lemma_view_is_elements();
    }
}

impl<T: FromU8Array, const N: usize> FromU8Array for ReprCArray<T, N> {
    open spec fn spec_size() -> nat {
        N as nat * T::spec_size()
    }

    open spec fn spec_valid(v: Seq<T::V>) -> bool {
        Array::<T, N>::spec_valid(v)
    }

    open spec fn spec_decode(bytes: Seq<u8>) -> Seq<T::V> {
        Array::<T, N>::spec_decode(bytes)
    }

    open spec fn spec_encode(v: Seq<T::V>) -> Seq<u8> {
        Array::<T, N>::spec_encode(v)
    }

    proof fn lemma_view_valid(&self) {
        self.inner.lemma_view_valid();
    }

    proof fn lemma_round_trip(v: Seq<T::V>) {
        Array::<T, N>::lemma_round_trip(v);
    }

    fn from_slice(slice: &[u8]) -> (r: Result<(usize, Self), FromU8Error<Self>>) {
        match Array::<T, N>::from_slice(slice) {
            Ok((read, inner)) => Ok((read, Self { inner })),
            Err(_) => Err(FromU8Error::NotEnoughSlice(None)),
        }
    }

    fn to_slice(&self) -> (r: Vec<u8>) {
        self.inner.to_slice()
    }
}

impl<T: RepresentU8Array, const N: usize> RepresentU8Array for ReprCArray<T, N> {
    fn size() -> (r: usize) {
        if N == 0 {
            return 0;
        }
        assert(T::spec_size() <= N as nat * T::spec_size()) by (nonlinear_arith)
            requires
                N >= 1,
        ;
        let s = T::size();
        N * s
    }
}

/// A `u8` read and written as its little-endian bytes.
#[derive(Debug, Clone, Copy, PartialEq, Eq)]
pub struct Cu8 {
    inner: u8,
}

impl View for Cu8 {
    type V = u8;

    closed spec fn view(&self) -> u8 {
        self.inner
    }
}

impl Cu8 {
    /// The wrapper of `inner`.
    pub fn from_inner(inner: u8) -> (r: Self)
        ensures
            r@ == inner,
    {
        Self { inner }
    }

    /// The wrapped number.
    pub fn into_inner(self) -> (r: u8)
        ensures
            r == self@,
    {
        self.inner
    }
}

impl FromU8Array for Cu8 {
    open spec fn spec_size() -> nat {
        <u8 as FromU8Array>::spec_size()
    }

    open spec fn spec_valid(v: u8) -> bool {
        true
    }

    open spec fn spec_decode(bytes: Seq<u8>) -> u8 {
        <u8 as FromU8Array>::spec_decode(bytes)
    }

    open spec fn spec_encode(v: u8) -> Seq<u8> {
        <u8 as FromU8Array>::spec_encode(v)
    }

    proof fn lemma_view_valid(&self) {
    }

    proof fn lemma_round_trip(v: u8) {
        <u8 as FromU8Array>::lemma_round_trip(v);
    }

    fn from_slice(slice: &[u8]) -> (r: Result<(usize, Self), FromU8Error<Self>>) {
        match <u8 as FromU8Array>::from_slice(slice) {
            Ok((read, v)) => Ok((read, Self { inner: v })),
            Err(_) => Err(FromU8Error::NotEnoughSlice(None)),
        }
    }

    fn to_slice(&self) -> (r: Vec<u8>) {
        self.inner.to_slice()
    }
}

impl RepresentU8Array for Cu8 {
    fn size() -> (r: usize) {
        1
    }
}

/// A `u16` read and written as its little-endian bytes.
#[derive(Debug, Clone, Copy, PartialEq, Eq)]
pub struct Cu16 {
    inner: u16,
}

impl View for Cu16 {
    type V = u16;

    closed spec fn view(&self) -> u16 {
        self.inner
    }
}

impl Cu16 {
    /// The wrapper of `inner`.
    pub fn from_inner(inner: u16) -> (r: Self)
        ensures
            r@ == inner,
    {
        Self { inner }
    }

    /// The wrapped number.
    pub fn into_inner(self) -> (r: u16)
        ensures
            r == self@,
    {
        self.inner
    }
}

impl FromU8Array for Cu16 {
    open spec fn spec_size() -> nat {
        <u16 as FromU8Array>::spec_size()
    }

    open spec fn spec_valid(v: u16) -> bool {
        true
    }

    open spec fn spec_decode(bytes: Seq<u8>) -> u16 {
        <u16 as FromU8Array>::spec_decode(bytes)
    }

    open spec fn spec_encode(v: u16) -> Seq<u8> {
        <u16 as FromU8Array>::spec_encode(v)
    }

    proof fn lemma_view_valid(&self) {
    }

    proof fn lemma_round_trip(v: u16) {
        <u16 as FromU8Array>::lemma_round_trip(v);
    }

    fn from_slice(slice: &[u8]) -> (r: Result<(usize, Self), FromU8Error<Self>>) {
        match <u16 as FromU8Array>::from_slice(slice) {
            Ok((read, v)) => Ok((read, Self { inner: v })),
            Err(_) => Err(FromU8Error::NotEnoughSlice(None)),
        }
    }

    fn to_slice(&self) -> (r: Vec<u8>) {
        self.inner.to_slice()
    }
}

impl RepresentU8Array for Cu16 {
    fn size() -> (r: usize) {
        2
    }
}

/// A `u32` read and written as its little-endian bytes.
#[derive(Debug, Clone, Copy, PartialEq, Eq)]
pub struct Cu32 {
    inner: u32,
}

impl View for Cu32 {
    type V = u32;

    closed spec fn view(&self) -> u32 {
        self.inner
    }
}

impl Cu32 {
    /// The wrapper of `inner`.
    pub fn from_inner(inner: u32) -> (r: Self)
        ensures
            r@ == inner,
    {
        Self { inner }
    }

    /// The wrapped number.
    pub fn into_inner(self) -> (r: u32)
        ensures
            r == self@,
    {
        self.inner
    }
}

impl FromU8Array for Cu32 {
    open spec fn spec_size() -> nat {
        <u32 as FromU8Array>::spec_size()
    }

    open spec fn spec_valid(v: u32) -> bool {
        true
    }

    open spec fn spec_decode(bytes: Seq<u8>) -> u32 {
        <u32 as FromU8Array>::spec_decode(bytes)
    }

    open spec fn spec_encode(v: u32) -> Seq<u8> {
        <u32 as FromU8Array>::spec_encode(v)
    }

    proof fn lemma_view_valid(&self) {
    }

    proof fn lemma_round_trip(v: u32) {
        <u32 as FromU8Array>::lemma_round_trip(v);
    }

    fn from_slice(slice: &[u8]) -> (r: Result<(usize, Self), FromU8Error<Self>>) {
        match <u32 as FromU8Array>::from_slice(slice) {
            Ok((read, v)) => Ok((read, Self { inner: v })),
            Err(_) => Err(FromU8Error::NotEnoughSlice(None)),
        }
    }

    fn to_slice(&self) -> (r: Vec<u8>) {
        self.inner.to_slice()
    }
}

impl RepresentU8Array for Cu32 {
    fn size() -> (r: usize) {
        4
    }
}

/// A `u64` read and written as its little-endian bytes.
#[derive(Debug, Clone, Copy, PartialEq, Eq)]
pub struct Cu64 {
    inner: u64,
}

impl View for Cu64 {
    type V = u64;

    closed spec fn view(&self) -> u64 {
        self.inner
    }
}

impl Cu64 {
    /// The wrapper of `inner`.
    pub fn from_inner(inner: u64) -> (r: Self)
        ensures
            r@ == inner,
    {
        Self { inner }
    }

    /// The wrapped number.
    pub fn into_inner(self) -> (r: u64)
        ensures
            r == self@,
    {
        self.inner
    }
}

impl FromU8Array for Cu64 {
    open spec fn spec_size() -> nat {
        <u64 as FromU8Array>::spec_size()
    }

    open spec fn spec_valid(v: u64) -> bool {
        true
    }

    open spec fn spec_decode(bytes: Seq<u8>) -> u64 {
        <u64 as FromU8Array>::spec_decode(bytes)
    }

    open spec fn spec_encode(v: u64) -> Seq<u8> {
        <u64 as FromU8Array>::spec_encode(v)
    }

    proof fn lemma_view_valid(&self) {
    }

    proof fn lemma_round_trip(v: u64) {
        <u64 as FromU8Array>::lemma_round_trip(v);
    }

    fn from_slice(slice: &[u8]) -> (r: Result<(usize, Self), FromU8Error<Self>>) {
        match <u64 as FromU8Array>::from_slice(slice) {
            Ok((read, v)) => Ok((read, Self { inner: v })),
            Err(_) => Err(FromU8Error::NotEnoughSlice(None)),
        }
    }

    fn to_slice(&self) -> (r: Vec<u8>) {
        self.inner.to_slice()
    }
}

impl RepresentU8Array for Cu64 {
    fn size() -> (r: usize) {
        8
    }
}

/// A `i8` read and written as its little-endian bytes.
#[derive(Debug, Clone, Copy, PartialEq, Eq)]
pub struct Ci8 {
    inner: i8,
}

impl View for Ci8 {
    type V = i8;

    closed spec fn view(&self) -> i8 {
        self.inner
    }
}

impl Ci8 {
    /// The wrapper of `inner`.
    pub fn from_inner(inner: i8) -> (r: Self)
        ensures
            r@ == inner,
    {
        Self { inner }
    }

    /// The wrapped number.
    pub fn into_inner(self) -> (r: i8)
        ensures
            r == self@,
    {
        self.inner
    }
}

impl FromU8Array for Ci8 {
    open spec fn spec_size() -> nat {
        <i8 as FromU8Array>::spec_size()
    }

    open spec fn spec_valid(v: i8) -> bool {
        true
    }

    open spec fn spec_decode(bytes: Seq<u8>) -> i8 {
        <i8 as FromU8Array>::spec_decode(bytes)
    }

    open spec fn spec_encode(v: i8) -> Seq<u8> {
        <i8 as FromU8Array>::spec_encode(v)
    }

    proof fn lemma_view_valid(&self) {
    }

    proof fn lemma_round_trip(v: i8) {
        <i8 as FromU8Array>::lemma_round_trip(v);
    }

    fn from_slice(slice: &[u8]) -> (r: Result<(usize, Self), FromU8Error<Self>>) {
        match <i8 as FromU8Array>::from_slice(slice) {
            Ok((read, v)) => Ok((read, Self { inner: v })),
            Err(_) => Err(FromU8Error::NotEnoughSlice(None)),
        }
    }

    fn to_slice(&self) -> (r: Vec<u8>) {
        self.inner.to_slice()
    }
}

impl RepresentU8Array for Ci8 {
    fn size() -> (r: usize) {
        1
    }
}

/// A `i16` read and written as its little-endian bytes.
#[derive(Debug, Clone, Copy, PartialEq, Eq)]
pub struct Ci16 {
    inner: i16,
}

impl View for Ci16 {
    type V = i16;

    closed spec fn view(&self) -> i16 {
        self.inner
    }
}

impl Ci16 {
    /// The wrapper of `inner`.
    pub fn from_inner(inner: i16) -> (r: Self)
        ensures
            r@ == inner,
    {
        Self { inner }
    }

    /// The wrapped number.
    pub fn into_inner(self) -> (r: i16)
        ensures
            r == self@,
    {
        self.inner
    }
}

impl FromU8Array for Ci16 {
    open spec fn spec_size() -> nat {
        <i16 as FromU8Array>::spec_size()
    }

    open spec fn spec_valid(v: i16) -> bool {
        true
    }

    open spec fn spec_decode(bytes: Seq<u8>) -> i16 {
        <i16 as FromU8Array>::spec_decode(bytes)
    }

    open spec fn spec_encode(v: i16) -> Seq<u8> {
        <i16 as FromU8Array>::spec_encode(v)
    }

    proof fn lemma_view_valid(&self) {
    }

    proof fn lemma_round_trip(v: i16) {
        <i16 as FromU8Array>::lemma_round_trip(v);
    }

    fn from_slice(slice: &[u8]) -> (r: Result<(usize, Self), FromU8Error<Self>>) {
        match <i16 as FromU8Array>::from_slice(slice) {
            Ok((read, v)) => Ok((read, Self { inner: v })),
            Err(_) => Err(FromU8Error::NotEnoughSlice(None)),
        }
    }

    fn to_slice(&self) -> (r: Vec<u8>) {
        self.inner.to_slice()
    }
}

impl RepresentU8Array for Ci16 {
    fn size() -> (r: usize) {
        2
    }
}

/// A `i32` read and written as its little-endian bytes.
#[derive(Debug, Clone, Copy, PartialEq, Eq)]
pub struct Ci32 {
    inner: i32,
}

impl View for Ci32 {
    type V = i32;

    closed spec fn view(&self) -> i32 {
        self.inner
    }
}

impl Ci32 {
    /// The wrapper of `inner`.
    pub fn from_inner(inner: i32) -> (r: Self)
        ensures
            r@ == inner,
    {
        Self { inner }
    }

    /// The wrapped number.
    pub fn into_inner(self) -> (r: i32)
        ensures
            r == self@,
    {
        self.inner
    }
}

impl FromU8Array for Ci32 {
    open spec fn spec_size() -> nat {
        <i32 as FromU8Array>::spec_size()
    }

    open spec fn spec_valid(v: i32) -> bool {
        true
    }

    open spec fn spec_decode(bytes: Seq<u8>) -> i32 {
        <i32 as FromU8Array>::spec_decode(bytes)
    }

    open spec fn spec_encode(v: i32) -> Seq<u8> {
        <i32 as FromU8Array>::spec_encode(v)
    }

    proof fn lemma_view_valid(&self) {
    }

    proof fn lemma_round_trip(v: i32) {
        <i32 as FromU8Array>::lemma_round_trip(v);
    }

    fn from_slice(slice: &[u8]) -> (r: Result<(usize, Self), FromU8Error<Self>>) {
        match <i32 as FromU8Array>::from_slice(slice) {
            Ok((read, v)) => Ok((read, Self { inner: v })),
            Err(_) => Err(FromU8Error::NotEnoughSlice(None)),
        }
    }

    fn to_slice(&self) -> (r: Vec<u8>) {
        self.inner.to_slice()
    }
}

impl RepresentU8Array for Ci32 {
    fn size() -> (r: usize) {
        4
    }
}

/// A `i64` read and written as its little-endian bytes.
#[derive(Debug, Clone, Copy, PartialEq, Eq)]
pub struct Ci64 {
    inner: i64,
}

impl View for Ci64 {
    type V = i64;

    closed spec fn view(&self) -> i64 {
        self.inner
    }
}

impl Ci64 {
    /// The wrapper of `inner`.
    pub fn from_inner(inner: i64) -> (r: Self)
        ensures
            r@ == inner,
    {
        Self { inner }
    }

    /// The wrapped number.
    pub fn into_inner(self) -> (r: i64)
        ensures
            r == self@,
    {
        self.inner
    }
}

impl FromU8Array for Ci64 {
    open spec fn spec_size() -> nat {
        <i64 as FromU8Array>::spec_size()
    }

    open spec fn spec_valid(v: i64) -> bool {
        true
    }

    open spec fn spec_decode(bytes: Seq<u8>) -> i64 {
        <i64 as FromU8Array>::spec_decode(bytes)
    }

    open spec fn spec_encode(v: i64) -> Seq<u8> {
        <i64 as FromU8Array>::spec_encode(v)
    }

    proof fn lemma_view_valid(&self) {
    }

    proof fn lemma_round_trip(v: i64) {
        <i64 as FromU8Array>::lemma_round_trip(v);
    }

    fn from_slice(slice: &[u8]) -> (r: Result<(usize, Self), FromU8Error<Self>>) {
        match <i64 as FromU8Array>::from_slice(slice) {
            Ok((read, v)) => Ok((read, Self { inner: v })),
            Err(_) => Err(FromU8Error::NotEnoughSlice(None)),
        }
    }

    fn to_slice(&self) -> (r: Vec<u8>) {
        self.inner.to_slice()
    }
}

impl RepresentU8Array for Ci64 {
    fn size() -> (r: usize) {
        8
    }
}

/// A `usize` read and written as its little-endian bytes.
#[derive(Debug, Clone, Copy, PartialEq, Eq)]
pub struct Csize {
    inner: usize,
}

impl View for Csize {
    type V = usize;

    closed spec fn view(&self) -> usize {
        self.inner
    }
}

impl Csize {
    /// The wrapper of `inner`.
    pub fn from_inner(inner: usize) -> (r: Self)
        ensures
            r@ == inner,
    {
        Self { inner }
    }

    /// The wrapped number.
    pub fn into_inner(self) -> (r: usize)
        ensures
            r == self@,
    {
        self.inner
    }
}

impl FromU8Array for Csize {
    open spec fn spec_size() -> nat {
        <usize as FromU8Array>::spec_size()
    }

    open spec fn spec_valid(v: usize) -> bool {
        true
    }

    open spec fn spec_decode(bytes: Seq<u8>) -> usize {
        <usize as FromU8Array>::spec_decode(bytes)
    }

    open spec fn spec_encode(v: usize) -> Seq<u8> {
        <usize as FromU8Array>::spec_encode(v)
    }

    proof fn lemma_view_valid(&self) {
    }

    proof fn lemma_round_trip(v: usize) {
        <usize as FromU8Array>::lemma_round_trip(v);
    }

    fn from_slice(slice: &[u8]) -> (r: Result<(usize, Self), FromU8Error<Self>>) {
        match <usize as FromU8Array>::from_slice(slice) {
            Ok((read, v)) => Ok((read, Self { inner: v })),
            Err(_) => Err(FromU8Error::NotEnoughSlice(None)),
        }
    }

    fn to_slice(&self) -> (r: Vec<u8>) {
        self.inner.to_slice()
    }
}

impl RepresentU8Array for Csize {
    fn size() -> (r: usize) {
        core::mem::size_of::<usize>()
    }
}

/// A C `char`, taken as a signed byte, read and written as its byte.
#[derive(Debug, Clone, Copy, PartialEq, Eq)]
pub struct Cchar {
    inner: i8,
}

impl View for Cchar {
    type V = i8;

    closed spec fn view(&self) -> i8 {
        self.inner
    }
}

impl Cchar {
    /// The wrapper of `inner`.
    pub fn from_inner(inner: i8) -> (r: Self)
        ensures
            r@ == inner,
    {
        Self { inner }
    }

    /// The wrapped number.
    pub fn into_inner(self) -> (r: i8)
        ensures
            r == self@,
    {
        self.inner
    }
}

impl FromU8Array for Cchar {
    open spec fn spec_size() -> nat {
        <i8 as FromU8Array>::spec_size()
    }

    open spec fn spec_valid(v: i8) -> bool {
        true
    }

    open spec fn spec_decode(bytes: Seq<u8>) -> i8 {
        <i8 as FromU8Array>::spec_decode(bytes)
    }

    open spec fn spec_encode(v: i8) -> Seq<u8> {
        <i8 as FromU8Array>::spec_encode(v)
    }

    proof fn lemma_view_valid(&self) {
    }

    proof fn lemma_round_trip(v: i8) {
        <i8 as FromU8Array>::lemma_round_trip(v);
    }

    fn from_slice(slice: &[u8]) -> (r: Result<(usize, Self), FromU8Error<Self>>) {
        match <i8 as FromU8Array>::from_slice(slice) {
            Ok((read, v)) => Ok((read, Self { inner: v })),
            Err(_) => Err(FromU8Error::NotEnoughSlice(None)),
        }
    }

    fn to_slice(&self) -> (r: Vec<u8>) {
        self.inner.to_slice()
    }
}

impl RepresentU8Array for Cchar {
    fn size() -> (r: usize) {
        1
    }
}

} // verus!
