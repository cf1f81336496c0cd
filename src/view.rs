//! Exclusive pieces of a buffer: splitting one into disjoint parts that
//! remember where they lie, reading values in place, and joining parts back.

use crate::file::Sequential;
use crate::record::{all_present, all_sane, parse_fields, record_size, ComposedRecord, RecordType};
use crate::types::{FromU8Array, FromU8Error};
use vstd::prelude::*;

verus! {

/// Why a view could not be split, read or joined.
#[derive(Debug, Clone, Copy, PartialEq, Eq)]
pub enum ViewError {
    /// The split points are out of order.
    InvalidSplit,
    /// A position lies outside the view.
    OutOfRange,
    /// Too few bytes for the value asked for.
    InsufficientLength,
    /// Parts to be joined do not lie one right after the other.
    LayoutMismatch,
}

/// What a view holds: where it starts in the whole buffer, and its bytes.
pub struct MutViewModel {
    pub start: nat,
    pub bytes: Seq<u8>,
}

/// An exclusive, contiguous piece of a buffer, with its offset in the whole.
/// Pieces made by splitting never overlap: each owns its bytes.
#[derive(Debug)]
pub struct MutView {
    start: usize,
    bytes: Vec<u8>,
}

impl View for MutView {
    type V = MutViewModel;

    closed spec fn view(&self) -> MutViewModel {
        MutViewModel { start: self.start as nat, bytes: self.bytes@ }
    }
}

/// The bytes of `v` from `a` to `b`, as a piece at `a` further on.
pub open spec fn piece(v: MutViewModel, a: int, b: int) -> MutViewModel {
    MutViewModel { start: (v.start + a) as nat, bytes: v.bytes.subrange(a, b) }
}

/// Copies the bytes of `v` from `a` to `b`.
fn copy_range(v: &Vec<u8>, a: usize, b: usize) -> (r: Vec<u8>)
    requires
        a <= b <= v@.len(),
    ensures
        r@ == v@.subrange(a as int, b as int),
{
    let mut out: Vec<u8> = Vec::new();
    let mut k: usize = a;
    while k < b
        invariant
            a <= k <= b <= v@.len(),
            out@ == v@.subrange(a as int, k as int),
        decreases b - k,
    {
        out.push(v[k]);
        k = k + 1;
        assert(out@ =~= v@.subrange(a as int, k as int));
    }
    out
}

impl Sequential {
    /// The whole buffer as one view, at offset 0.
    pub fn to_mut_view(self) -> (r: MutView)
        ensures
            r@.start == 0,
            r@.bytes == self@,
    {
        MutView { start: 0, bytes: self.into_vec() }
    }
}

impl MutView {
    /// The number of bytes in the view.
    pub fn len(&self) -> (r: usize)
        ensures
            r == self@.bytes.len(),
    {
        self.bytes.len()
    }

    /// Where the view starts in the whole buffer.
    pub fn start(&self) -> (r: usize)
        ensures
            r == self@.start,
    {
        self.start
    }

    /// The bytes of the view.
    pub fn as_slice(&self) -> (r: &[u8])
        ensures
            r@ == self@.bytes,
    {
        self.bytes.as_slice()
    }

    /// Overwrites the byte at `i`.
    pub fn set(&mut self, i: usize, b: u8)
        requires
            i < old(self)@.bytes.len(),
        ensures
            final(self)@.start == old(self)@.start,
            final(self)@.bytes == old(self)@.bytes.update(i as int, b),
    {
        self.bytes.set(i, b);
    }

    /// Overwrites the bytes from `at` with `src`.
    pub fn write(&mut self, at: usize, src: &[u8])
        requires
            at + src@.len() <= old(self)@.bytes.len(),
        ensures
            final(self)@.start == old(self)@.start,
            final(self)@.bytes == old(self)@.bytes.take(at as int) + src@ + old(self)@.bytes.skip(
                at + src@.len(),
            ),
    {
        let mut k: usize = 0;
        while k < src.len()
            invariant
                at + src@.len() <= self@.bytes.len(),
                self@.start == old(self)@.start,
                self@.bytes.len() == old(self)@.bytes.len(),
                k <= src@.len(),
                self@.bytes == old(self)@.bytes.take(at as int) + src@.take(k as int)
                    + old(self)@.bytes.skip(at + k),
            decreases src@.len() - k,
        {
            let n = self.bytes.len();
            assert(at + k < n);
            self.bytes.set(at + k, src[k]);
            k = k + 1;
            assert(self@.bytes =~= old(self)@.bytes.take(at as int) + src@.take(k as int)
                + old(self)@.bytes.skip(at + k));
        }
        assert(src@.take(k as int) =~= src@);
    }

    /// The buffer of the view's bytes.
    pub fn into_sequential(self) -> (r: Sequential)
        ensures
            r@ == self@.bytes,
    {
        Sequential::from_vec(self.bytes)
    }

    /// Splits the view at `at` into a head before it and a tail from it on;
    /// fails, giving the view back, where `at` is not inside the view.
    pub fn split2(self, at: usize) -> (r: Result<(MutView, MutView), (ViewError, MutView)>)
        requires
            self@.start + self@.bytes.len() <= usize::MAX,
        ensures
            at >= self@.bytes.len() ==> r == Err::<(MutView, MutView), (ViewError, MutView)>(
                (ViewError::OutOfRange, self),
            ),
            at < self@.bytes.len() ==> (r matches Ok((head, tail)) && head@ == piece(
                self@,
                0,
                at as int,
            ) && tail@ == piece(self@, at as int, self@.bytes.len() as int)),
    {
        if at >= self.bytes.len() {
            return Err((ViewError::OutOfRange, self));
        }
        let head = MutView { start: self.start, bytes: copy_range(&self.bytes, 0, at) };
        let tail = MutView {
            start: self.start + at,
            bytes: copy_range(&self.bytes, at, self.bytes.len()),
        };
        Ok((head, tail))
    }

    /// Splits the view into a head before `at1`, a body from `at1` to `at2`
    /// and a tail from `at2` on; fails, giving the view back, where the
    /// points are out of order or `at2` is not inside the view.
    pub fn split3(self, at1: usize, at2: usize) -> (r: Result<(MutView, MutView, MutView), (ViewError, MutView)>)
        requires
            self@.start + self@.bytes.len() <= usize::MAX,
        ensures
            at1 > at2 ==> r == Err::<(MutView, MutView, MutView), (ViewError, MutView)>(
                (ViewError::InvalidSplit, self),
            ),
            at1 <= at2 && at2 >= self@.bytes.len() ==> r == Err::<
                (MutView, MutView, MutView),
                (ViewError, MutView),
            >((ViewError::OutOfRange, self)),
            at1 <= at2 < self@.bytes.len() ==> (r matches Ok((head, body, tail)) && head@ == piece(
                self@,
                0,
                at1 as int,
            ) && body@ == piece(self@, at1 as int, at2 as int) && tail@ == piece(
                self@,
                at2 as int,
                self@.bytes.len() as int,
            )),
    {
        if at1 > at2 {
            return Err((ViewError::InvalidSplit, self));
        }
        if at2 >= self.bytes.len() {
            return Err((ViewError::OutOfRange, self));
        }
        let head = MutView { start: self.start, bytes: copy_range(&self.bytes, 0, at1) };
        let body = MutView { start: self.start + at1, bytes: copy_range(&self.bytes, at1, at2) };
        let tail = MutView {
            start: self.start + at2,
            bytes: copy_range(&self.bytes, at2, self.bytes.len()),
        };
        Ok((head, body, tail))
    }

    /// Joins a view and the one that lies right after it into one; fails
    /// with a layout mismatch, giving both back, where they are not adjacent.
    pub fn join(head: MutView, tail: MutView) -> (r: Result<MutView, (ViewError, MutView, MutView)>)
        ensures
            head@.start + head@.bytes.len() == tail@.start ==> (r matches Ok(v) && v@.start
                == head@.start && v@.bytes == head@.bytes + tail@.bytes),
            head@.start + head@.bytes.len() != tail@.start ==> r == Err::<
                MutView,
                (ViewError, MutView, MutView),
            >((ViewError::LayoutMismatch, head, tail)),
    {
        if head.bytes.len() > tail.start || tail.start - head.bytes.len() != head.start {
            return Err((ViewError::LayoutMismatch, head, tail));
        }
        let MutView { start, bytes: mut joined } = head;
        let MutView { start: _, bytes: mut rest } = tail;
        joined.append(&mut rest);
        Ok(MutView { start, bytes: joined })
    }
}

/// A value read in place: the piece that stores it, and the value.
#[derive(Debug)]
pub struct Placed<T> {
    view: MutView,
    value: T,
}

impl<T> Placed<T> {
    pub closed spec fn spec_view(&self) -> MutView {
        self.view
    }

    pub closed spec fn spec_value(&self) -> T {
        self.value
    }

    /// The value.
    pub fn value(&self) -> (r: &T)
        ensures
            *r == self.spec_value(),
    {
        &self.value
    }

    /// The piece, with whatever was stored in it.
    pub fn into_view(self) -> (r: MutView)
        ensures
            r == self.spec_view(),
    {
        self.view
    }
}

impl<T: FromU8Array> Placed<T> {
    /// The piece stores the value.
    pub open spec fn wf(&self) -> bool {
        T::spec_decode(self.spec_view()@.bytes) == self.spec_value()@
    }

    /// Replaces the value, and writes its bytes into the piece.
    pub fn store(&mut self, value: T)
        requires
            old(self).spec_view()@.bytes.len() == T::spec_size(),
        ensures
            final(self).spec_value() == value,
            final(self).spec_view()@.start == old(self).spec_view()@.start,
            final(self).spec_view()@.bytes == T::spec_encode(value@),
            final(self).wf(),
    {
        let bytes = value.to_slice();
        proof {
            crate::types::lemma_read_after_write(value);
        }
        self.view.write(0, bytes.as_slice());
        assert(self.view@.bytes =~= T::spec_encode(value@));
        self.value = value;
    }
}

/// What reading a value in place gives: the untouched head before it, the
/// value in its piece, and the untouched tail after it; or an error, with
/// the view given back.
#[derive(Debug)]
pub enum VOConstitudeResultMut<T> {
    Valid(MutView, Placed<T>, MutView),
    Invalid(MutView, Placed<T>, MutView),
    Error(ViewError, MutView),
}

/// What reading a `T` in place at `rel` from the start of `v` gives: the
/// view back with a range error where `rel` is not inside it, or where the
/// value ends right at its end; the view back with a length error where the
/// value runs past its end; otherwise the head, the value in its piece, and
/// the tail.
pub open spec fn relative_read<T: FromU8Array>(v: MutView, rel: nat, r: VOConstitudeResultMut<T>) -> bool {
    let len = v@.bytes.len();
    let end = rel + T::spec_size();
    if rel >= len {
        r matches VOConstitudeResultMut::Error(e, back) && e == ViewError::OutOfRange && back == v
    } else if end > len {
        r matches VOConstitudeResultMut::Error(e, back) && e == ViewError::InsufficientLength
            && back == v
    } else if end == len {
        r matches VOConstitudeResultMut::Error(e, back) && e == ViewError::OutOfRange && back == v
    } else {
        r matches VOConstitudeResultMut::Valid(head, placed, tail) && head@ == piece(
            v@,
            0,
            rel as int,
        ) && placed.spec_view()@ == piece(v@, rel as int, end as int) && placed.wf() && tail@
            == piece(v@, end as int, len as int)
    }
}

impl MutView {
    /// Reads a `T` at `rel` from the start of the view, in place: splits the
    /// view at `rel` and at the end of the value, and reads the body. Fails
    /// where the value does not end before the end of the view.
    pub fn interpret_relative<T: FromU8Array>(self, rel: usize) -> (r: VOConstitudeResultMut<T>)
        requires
            self@.start + self@.bytes.len() <= usize::MAX,
        ensures
            relative_read(self, rel as nat, r),
    {
        if rel >= self.bytes.len() {
            return VOConstitudeResultMut::Error(ViewError::OutOfRange, self);
        }
        let rest = vstd::slice::slice_subrange(self.bytes.as_slice(), rel, self.bytes.len());
        match T::from_slice(rest) {
            Err(_) => VOConstitudeResultMut::Error(ViewError::InsufficientLength, self),
            Ok((read, value)) => {
                assert(rest@.take(read as int) =~= self@.bytes.subrange(rel as int, rel + read));
                match self.split3(rel, rel + read) {
                    Ok((head, body, tail)) => VOConstitudeResultMut::Valid(
                        head,
                        Placed { view: body, value },
                        tail,
                    ),
                    Err((e, v)) => VOConstitudeResultMut::Error(e, v),
                }
            },
        }
    }

    /// Reads a `T` at the absolute position `apos`, in place, as
    /// `interpret_relative` does from the view's own start; fails where
    /// `apos` lies before the view.
    pub fn interpret_absolute<T: FromU8Array>(self, apos: usize) -> (r: VOConstitudeResultMut<T>)
        requires
            self@.start + self@.bytes.len() <= usize::MAX,
        ensures
            apos < self@.start ==> (r matches VOConstitudeResultMut::Error(e, v) && e
                == ViewError::OutOfRange && v == self),
            apos >= self@.start ==> relative_read(self, (apos - self@.start) as nat, r),
    {
        if apos < self.start {
            return VOConstitudeResultMut::Error(ViewError::OutOfRange, self);
        }
        let rel = apos - self.start;
        self.interpret_relative::<T>(rel)
    }
}

/// What reading a record of type `ty` in place at `rel` from the start of
/// `v` gives: the view back with a range error where `rel` is not inside it
/// or the record ends right at its end, and with a length error where the
/// record does not fit; otherwise the head, the record in its piece (valid or
/// invalid as it is sane or not), and the tail.
pub open spec fn relative_record_read(
    ty: RecordType,
    v: MutView,
    rel: nat,
    r: VOConstitudeResultMut<ComposedRecord>,
) -> bool {
    let len = v@.bytes.len();
    let vals = parse_fields(ty@.fields, v@.bytes.skip(rel as int));
    let end = rel + record_size(ty@.fields);
    if rel >= len {
        r matches VOConstitudeResultMut::Error(e, back) && e == ViewError::OutOfRange && back == v
    } else if !all_present(vals) {
        r matches VOConstitudeResultMut::Error(e, back) && e == ViewError::InsufficientLength
            && back == v
    } else if end >= len {
        r matches VOConstitudeResultMut::Error(e, back) && e == ViewError::OutOfRange && back == v
    } else {
        let placed_as_read = |p: Placed<ComposedRecord>|
            {
                &&& p.spec_value()@.ty == ty@
                &&& p.spec_value()@.values == vals
                &&& p.spec_value().wf()
                &&& p.spec_view()@ == piece(v@, rel as int, end as int)
            };
        if all_sane(ty@.fields, vals) {
            r matches VOConstitudeResultMut::Valid(head, placed, tail) && head@ == piece(
                v@,
                0,
                rel as int,
            ) && placed_as_read(placed) && tail@ == piece(v@, end as int, len as int)
        } else {
            r matches VOConstitudeResultMut::Invalid(head, placed, tail) && head@ == piece(
                v@,
                0,
                rel as int,
            ) && placed_as_read(placed) && tail@ == piece(v@, end as int, len as int)
        }
    }
}

impl MutView {
    /// Reads a record of type `ty` at `rel` from the start of the view, in
    /// place: splits the view at `rel` and at the end of the record, which
    /// is handed back in its piece together with the head and the tail.
    pub fn interpret_relative_record(self, ty: &RecordType, rel: usize) -> (r: VOConstitudeResultMut<ComposedRecord>)
        requires
            ty.wf(),
            self@.start + self@.bytes.len() <= usize::MAX,
        ensures
            relative_record_read(*ty, self, rel as nat, r),
    {
        if rel >= self.bytes.len() {
            return VOConstitudeResultMut::Error(ViewError::OutOfRange, self);
        }
        let rest = vstd::slice::slice_subrange(self.bytes.as_slice(), rel, self.bytes.len());
        assert(rest@ =~= self@.bytes.skip(rel as int));
        let parsed = ty.parse(rest);
        proof {
            crate::record::lemma_read_fits(ty@, rest@, parsed);
        }
        match parsed {
            Ok((read, rec)) => {
                if rel + read >= self.bytes.len() {
                    return VOConstitudeResultMut::Error(ViewError::OutOfRange, self);
                }
                match self.split3(rel, rel + read) {
                    Ok((head, body, tail)) => VOConstitudeResultMut::Valid(
                        head,
                        Placed { view: body, value: rec },
                        tail,
                    ),
                    Err((e, v)) => VOConstitudeResultMut::Error(e, v),
                }
            },
            Err(FromU8Error::InvalidValue((read, Some(rec)))) => {
                if rel + read >= self.bytes.len() {
                    return VOConstitudeResultMut::Error(ViewError::OutOfRange, self);
                }
                match self.split3(rel, rel + read) {
                    Ok((head, body, tail)) => VOConstitudeResultMut::Invalid(
                        head,
                        Placed { view: body, value: rec },
                        tail,
                    ),
                    Err((e, v)) => VOConstitudeResultMut::Error(e, v),
                }
            },
            _ => VOConstitudeResultMut::Error(ViewError::InsufficientLength, self),
        }
    }
}

} // verus!
