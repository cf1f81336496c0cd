//! The reading protocol of fixed-size types, and arrays of them.

use vstd::prelude::*;
use vstd::slice::slice_subrange;
use vstd::std_specs::convert::IntoSpec;

verus! {

/// Why bytes could not be read as a value.
#[derive(Debug, PartialEq, Eq)]
pub enum FromU8Error<T> {
    /// Too few bytes remained; where the type keeps one, the part read so far.
    NotEnoughSlice(Option<T>),
    /// All bytes were read but the value is not one the format allows: the
    /// number of bytes read, and the value as read.
    InvalidValue((usize, Option<T>)),
    /// The position asked for lies outside the bytes.
    RangeError,
}

/// `x` converted by `Into`, where it holds a value.
pub open spec fn option_into<T: Into<U>, U>(x: Option<T>) -> Option<U> {
    match x {
        Some(v) => Some(v.into_spec()),
        None => None,
    }
}

impl<T> FromU8Error<T> {
    /// The same error, with the value it carries converted.
    pub fn into<U>(self) -> (r: FromU8Error<U>) where T: Into<U>
        ensures
            <T as IntoSpec<U>>::obeys_into_spec() ==> r == match self {
                FromU8Error::NotEnoughSlice(x) => FromU8Error::NotEnoughSlice(option_into(x)),
                FromU8Error::InvalidValue((read, x)) => FromU8Error::InvalidValue(
                    (read, option_into(x)),
                ),
                FromU8Error::RangeError => FromU8Error::RangeError,
            },
            r is NotEnoughSlice <==> self is NotEnoughSlice,
            r is InvalidValue ==> r->InvalidValue_0.0 == self->InvalidValue_0.0,
    {
        match self {
            FromU8Error::NotEnoughSlice(x) => FromU8Error::NotEnoughSlice(
                match x {
                    Some(x) => Some(x.into()),
                    None => None,
                },
            ),
            FromU8Error::InvalidValue((read, x)) => FromU8Error::InvalidValue(
                match x {
                    Some(x) => (read, Some(x.into())),
                    None => (read, None),
                },
            ),
            FromU8Error::RangeError => FromU8Error::RangeError,
        }
    }
}

/// A type whose values are stored as a fixed number of bytes.
pub trait FromU8Array: Sized + View {
    /// The number of bytes a value occupies.
    spec fn spec_size() -> nat;

    /// The views that values of the type can have.
    spec fn spec_valid(v: Self::V) -> bool;

    /// The value that `spec_size()` bytes denote.
    spec fn spec_decode(bytes: Seq<u8>) -> Self::V;

    /// The bytes that store a value.
    spec fn spec_encode(v: Self::V) -> Seq<u8>;

    /// Every value has a valid view.
    proof fn lemma_view_valid(&self)
        ensures
            Self::spec_valid(self@),
    ;

    /// A value is stored in `spec_size()` bytes, and reading them gives the
    /// value back.
    proof fn lemma_round_trip(v: Self::V)
        requires
            Self::spec_valid(v),
        ensures
            Self::spec_encode(v).len() == Self::spec_size(),
            Self::spec_decode(Self::spec_encode(v)) == v,
    ;

    /// Reads a value from the front of `slice`.
    fn from_slice(slice: &[u8]) -> (r: Result<(usize, Self), FromU8Error<Self>>)
        ensures
            match r {
                Ok((read, v)) => {
                    &&& slice@.len() >= Self::spec_size()
                    &&& read == Self::spec_size()
                    &&& v@ == Self::spec_decode(slice@.take(read as int))
                },
                Err(e) => {
                    &&& slice@.len() < Self::spec_size()
                    &&& e == FromU8Error::<Self>::NotEnoughSlice(None)
                },
            },
    ;

    /// The bytes that store the value.
    fn to_slice(&self) -> (r: Vec<u8>)
        ensures
            r@ == Self::spec_encode(self@),
    ;

    /// Reads a value from the front of `slice` and moves `slice` past it;
    /// on error `slice` stays as it was.
    fn from_slice_consume(slice: &mut &[u8]) -> (r: Result<Self, FromU8Error<Self>>)
        ensures
            match r {
                Ok(v) => {
                    &&& old(slice)@.len() >= Self::spec_size()
                    &&& v@ == Self::spec_decode(old(slice)@.take(Self::spec_size() as int))
                    &&& final(slice)@ == old(slice)@.skip(Self::spec_size() as int)
                },
                Err(e) => {
                    &&& old(slice)@.len() < Self::spec_size()
                    &&& e == FromU8Error::<Self>::NotEnoughSlice(None)
                    &&& final(slice)@ == old(slice)@
                },
            },
    {
        match Self::from_slice(*slice) {
            Ok((read, obj)) => {
                *slice = slice_subrange(*slice, read, slice.len());
                Ok(obj)
            },
            Err(e) => Err(e),
        }
    }
}

/// Reading the stored bytes of any value gives the value back.
pub proof fn lemma_read_after_write<T: FromU8Array>(v: T)
    ensures
        T::spec_encode(v@).len() == T::spec_size(),
        T::spec_decode(T::spec_encode(v@)) == v@,
{
    v.lemma_view_valid();
    T::lemma_round_trip(v@);
}

/// Exactly `N` values of `T`, stored one after another.
#[derive(Debug, PartialEq, Eq)]
pub struct Array<T, const N: usize> {
    items: Vec<T>,
}

impl<T: View, const N: usize> View for Array<T, N> {
    type V = Seq<T::V>;

    closed spec fn view(&self) -> Seq<T::V> {
        Seq::new(N as nat, |i: int| self.items@[i]@)
    }
}

impl<T: View, const N: usize> Array<T, N> {
    /// The view of an array is the view of each of its `N` elements.
    pub proof fn lemma_view_is_elements(&self)
        ensures
            self.elements().len() == N,
            self@ == self.elements().map_values(|x: T| x@),
    {
        assert(self@ =~= self.elements().map_values(|x: T| x@));
    }
}

impl<T, const N: usize> Array<T, N> {
    #[verifier::type_invariant]
    spec fn inv(self) -> bool {
        self.items.len() == N
    }

    /// The elements, in order.
    pub closed spec fn elements(self) -> Seq<T> {
        Seq::new(N as nat, |i: int| self.items@[i])
    }

    /// The array holding `items`, where there are exactly `N` of them.
    pub fn from_vec(items: Vec<T>) -> (r: Option<Self>)
        ensures
            items@.len() == N ==> r is Some && r->0.elements() == items@,
            items@.len() != N ==> r is None,
    {
        if items.len() == N {
            Some(Array { items })
        } else {
            None
        }
    }

    /// The elements, in order.
    pub fn inner(&self) -> (r: &[T])
        ensures
            r@ == self.elements(),
            r@.len() == N,
    {
        proof {
            use_type_invariant(self);
        }
        self.items.as_slice()
    }

    /// The element at `i`.
    pub fn get(&self, i: usize) -> (r: &T)
        requires
            i < N,
        ensures
            *r == self.elements()[i as int],
    {
        proof {
            use_type_invariant(self);
        }
        &self.items[i]
    }

    /// The array with the element at `i` replaced by `v`.
    pub fn with_element(self, i: usize, v: T) -> (r: Self)
        requires
            i < N,
        ensures
            r.elements() == self.elements().update(i as int, v),
    {
        proof {
            use_type_invariant(&self);
        }
        let Array { mut items } = self;
        items.set(i, v);
        let r = Array { items };
        assert(r.elements() =~= self.elements().update(i as int, v));
        r
    }
}

impl<T: FromU8Array, const N: usize> Array<T, N> {
    /// The bytes that store `vs`, one value after another.
    pub open spec fn encode_all(vs: Seq<T::V>) -> Seq<u8>
        decreases vs.len(),
    {
        if vs.len() == 0 {
            seq![]
        } else {
            Self::encode_all(vs.drop_last()) + T::spec_encode(vs.last())
        }
    }

    /// The `i`-th block of `T::spec_size()` bytes in `bytes`.
    pub open spec fn chunk(bytes: Seq<u8>, i: int) -> Seq<u8> {
        bytes.subrange(i * T::spec_size(), i * T::spec_size() + T::spec_size())
    }

    proof fn lemma_encode_all(vs: Seq<T::V>)
        requires
            forall|i: int| 0 <= i < vs.len() ==> T::spec_valid(#[trigger] vs[i]),
        ensures
            Self::encode_all(vs).len() == vs.len() * T::spec_size(),
            forall|i: int|
                0 <= i < vs.len() ==> #[trigger] Self::chunk(Self::encode_all(vs), i)
                    == T::spec_encode(vs[i]),
        decreases vs.len(),
    {
        let sz = T::spec_size();
        if vs.len() > 0 {
            let init = vs.drop_last();
            Self::lemma_encode_all(init);
            T::lemma_round_trip(vs.last());
            let e = Self::encode_all(vs);
            let p = Self::encode_all(init);
            assert(vs.len() * sz == init.len() * sz + sz) by (nonlinear_arith)
                requires
                    vs.len() == init.len() + 1,
            ;
            assert forall|i: int| 0 <= i < vs.len() implies #[trigger] Self::chunk(e, i)
                == T::spec_encode(vs[i]) by {
                if i < init.len() {
                    assert(i * sz + sz <= init.len() * sz) by (nonlinear_arith)
                        requires
                            i < init.len(),
                    ;
                    assert(Self::chunk(e, i) =~= Self::chunk(p, i));
                    assert(init[i] == vs[i]);
                } else {
                    assert(Self::chunk(e, i) =~= T::spec_encode(vs.last()));
                }
            }
        }
    }
}

impl<T: FromU8Array, const N: usize> FromU8Array for Array<T, N> {
    open spec fn spec_size() -> nat {
        N as nat * T::spec_size()
    }

    open spec fn spec_valid(v: Seq<T::V>) -> bool {
        &&& v.len() == N
        &&& forall|i: int| 0 <= i < v.len() ==> T::spec_valid(#[trigger] v[i])
    }

    open spec fn spec_decode(bytes: Seq<u8>) -> Seq<T::V> {
        Seq::new(N as nat, |i: int| T::spec_decode(Self::chunk(bytes, i)))
    }

    open spec fn spec_encode(v: Seq<T::V>) -> Seq<u8> {
        Self::encode_all(v)
    }

    proof fn lemma_view_valid(&self) {
        assert forall|i: int| 0 <= i < self@.len() implies T::spec_valid(#[trigger] self@[i]) by {
            self.items@[i].lemma_view_valid();
        }
    }

    proof fn lemma_round_trip(v: Seq<T::V>) {
        Self::lemma_encode_all(v);
        assert forall|i: int| 0 <= i < v.len() implies #[trigger] T::spec_decode(
            Self::chunk(Self::encode_all(v), i),
        ) == v[i] by {
            T::lemma_round_trip(v[i]);
        }
        assert(Self::spec_decode(Self::encode_all(v)) =~= v);
    }

    fn from_slice(slice: &[u8]) -> (r: Result<(usize, Self), FromU8Error<Self>>) {
        let ghost sz = T::spec_size();
        let mut items: Vec<T> = Vec::new();
        let mut pos: usize = 0;
        let mut i: usize = 0;
        while i < N
            invariant
                sz == T::spec_size(),
                i <= N,
                pos == i * sz,
                pos <= slice@.len(),
                items@.len() == i,
                forall|j: int|
                    0 <= j < i ==> (#[trigger] items@[j])@ == T::spec_decode(
                        Self::chunk(slice@, j),
                    ),
            decreases N - i,
        {
            let rest = slice_subrange(slice, pos, slice.len());
            match T::from_slice(rest) {
                Ok((read, v)) => {
                    assert(read == sz);
                    assert(rest@.take(read as int) =~= Self::chunk(slice@, i as int));
                    items.push(v);
                    pos = pos + read;
                },
                Err(_) => {
                    assert(slice@.len() < N * sz) by (nonlinear_arith)
                        requires
                            slice@.len() - i * sz < sz,
                            i < N,
                    ;
                    return Err(FromU8Error::NotEnoughSlice(None));
                },
            }
            i = i + 1;
            assert(pos == i * sz) by (nonlinear_arith)
                requires
                    pos == (i - 1) * sz + sz,
            ;
        }
        let r = Array { items };
        assert forall|j: int| 0 <= j < N implies #[trigger] Self::chunk(slice@.take(pos as int), j)
            == Self::chunk(slice@, j) by {
            assert(j * sz + sz <= N * sz) by (nonlinear_arith)
                requires
                    j < N,
            ;
            assert(Self::chunk(slice@.take(pos as int), j) =~= Self::chunk(slice@, j));
        }
        assert(r@ =~= Self::spec_decode(slice@.take(pos as int)));
        Ok((pos, r))
    }

    fn to_slice(&self) -> (r: Vec<u8>) {
        proof {
            use_type_invariant(self);
        }
        let mut out: Vec<u8> = Vec::new();
        let mut i: usize = 0;
        while i < self.items.len()
            invariant
                self.items@.len() == N,
                i <= self.items@.len(),
                out@ == Self::encode_all(self@.take(i as int)),
            decreases self.items@.len() - i,
        {
            let mut part = self.items[i].to_slice();
            let ghost before = out@;
            out.append(&mut part);
            assert(self@.take(i + 1).drop_last() =~= self@.take(i as int));
            assert(out@ =~= before + T::spec_encode(self@.take(i + 1).last()));
            i = i + 1;
        }
        assert(self@.take(i as int) =~= self@);
        out
    }
}

} // verus!
