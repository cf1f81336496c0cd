//! A byte buffer, and cursors that read typed values out of it.

use crate::record::{record_read, ComposedRecord, RecordType};
use crate::types::{FromU8Array, FromU8Error};
use vstd::prelude::*;
use vstd::slice::slice_subrange;

verus! {

/// The bytes under analysis; their length never changes.
#[derive(Debug, Clone, PartialEq, Eq)]
pub struct Sequential {
    vector: Vec<u8>,
}

impl View for Sequential {
    type V = Seq<u8>;

    closed spec fn view(&self) -> Seq<u8> {
        self.vector@
    }
}

/// A read position in a buffer. Many may read one buffer at once.
#[derive(Debug, Clone, Copy, PartialEq, Eq)]
pub struct Seekable<'a> {
    inner: &'a Sequential,
    pos: usize,
}

impl Sequential {
    /// The buffer holding `vector`.
    pub fn from_vec(vector: Vec<u8>) -> (r: Self)
        ensures
            r@ == vector@,
    {
        Self { vector }
    }

    /// The number of bytes.
    pub fn len(&self) -> (r: usize)
        ensures
            r == self@.len(),
    {
        self.vector.len()
    }

    /// The bytes.
    pub fn as_slice(&self) -> (r: &[u8])
        ensures
            r@ == self@,
    {
        self.vector.as_slice()
    }

    /// Gives the bytes back.
    pub fn into_vec(self) -> (r: Vec<u8>)
        ensures
            r@ == self@,
    {
        self.vector
    }

    /// A cursor at `pos`, which is not checked against the length.
    pub fn to_seeakble_at(&self, pos: usize) -> (r: Seekable<'_>)
        ensures
            r.spec_buffer() == self,
            r.spec_pos() == pos,
    {
        Seekable { inner: self, pos }
    }

    /// A cursor at the start.
    pub fn to_seeakble(&self) -> (r: Seekable<'_>)
        ensures
            r.spec_buffer() == self,
            r.spec_pos() == 0,
    {
        self.to_seeakble_at(0)
    }

    /// The bytes from `pos` up to the first zero byte after it: an error
    /// where `pos` is not inside the buffer, or where no zero byte follows.
    pub fn read_c_string(&self, pos: usize) -> (r: Result<Vec<u8>, FromU8Error<Vec<u8>>>)
        ensures
            pos >= self@.len() ==> r == Err::<Vec<u8>, FromU8Error<Vec<u8>>>(
                FromU8Error::RangeError,
            ),
            pos < self@.len() ==> match r {
                Ok(s) => {
                    &&& pos + s@.len() < self@.len()
                    &&& s@ == self@.subrange(pos as int, pos + s@.len())
                    &&& self@[pos + s@.len()] == 0
                    &&& forall|k: int| 0 <= k < s@.len() ==> #[trigger] s@[k] != 0
                },
                Err(e) => {
                    &&& e == FromU8Error::<Vec<u8>>::NotEnoughSlice(None)
                    &&& forall|k: int| pos <= k < self@.len() ==> #[trigger] self@[k] != 0
                },
            },
    {
        if pos >= self.vector.len() {
            return Err(FromU8Error::RangeError);
        }
        let mut out: Vec<u8> = Vec::new();
        let mut k: usize = pos;
        while k < self.vector.len()
            invariant
                pos <= k <= self@.len(),
                out@ == self@.subrange(pos as int, k as int),
                forall|m: int| pos <= m < k ==> #[trigger] self@[m] != 0,
            decreases self@.len() - k,
        {
            let b = self.vector[k];
            if b == 0 {
                assert forall|m: int| 0 <= m < out@.len() implies #[trigger] out@[m] != 0 by {
                    assert(out@[m] == self@[pos + m]);
                }
                return Ok(out);
            }
            out.push(b);
            k = k + 1;
            assert(out@ =~= self@.subrange(pos as int, k as int));
        }
        Err(FromU8Error::NotEnoughSlice(None))
    }
}

/// Where a value was read, and what reading gave.
#[derive(Debug, PartialEq, Eq)]
pub struct InterpretResult<T> {
    pos: usize,
    val: Result<(usize, T), FromU8Error<T>>,
}

impl<T> InterpretResult<T> {
    pub closed spec fn spec_pos(&self) -> usize {
        self.pos
    }

    pub closed spec fn spec_val(&self) -> Result<(usize, T), FromU8Error<T>> {
        self.val
    }

    /// The position and the result.
    pub fn to_tuple(self) -> (r: (usize, Result<(usize, T), FromU8Error<T>>))
        ensures
            r.0 == self.spec_pos(),
            r.1 == self.spec_val(),
    {
        (self.pos, self.val)
    }

    /// The result `val` of reading at `pos`.
    pub fn new(pos: usize, val: Result<(usize, T), FromU8Error<T>>) -> (r: Self)
        ensures
            r.spec_pos() == pos,
            r.spec_val() == val,
    {
        Self { pos, val }
    }

    /// The position and the value read, where reading succeeded.
    pub fn to_tuple_unwrap(self) -> (r: (usize, T))
        requires
            self.spec_val() is Ok,
        ensures
            r.0 == self.spec_pos(),
            r.1 == self.spec_val()->Ok_0.1,
    {
        match self.val {
            Ok((_, v)) => (self.pos, v),
            Err(_) => vstd::pervasive::unreached(),
        }
    }

    /// The position and the value read, where reading succeeded.
    pub fn to_obj(self) -> (r: InterpretObject<T>)
        requires
            self.spec_val() is Ok,
        ensures
            r.spec_pos() == self.spec_pos(),
            r.spec_val() == self.spec_val()->Ok_0.1,
    {
        let (pos, val) = self.to_tuple_unwrap();
        InterpretObject { pos, val }
    }
}

/// A value that was read, and where.
#[derive(Debug, Clone, Copy, PartialEq, Eq)]
pub struct InterpretObject<T> {
    pos: usize,
    val: T,
}

impl<T> InterpretObject<T> {
    pub closed spec fn spec_pos(&self) -> usize {
        self.pos
    }

    pub closed spec fn spec_val(&self) -> T {
        self.val
    }

    /// Where the value was read.
    pub fn pos(&self) -> (r: usize)
        ensures
            r == self.spec_pos(),
    {
        self.pos
    }

    /// The value read.
    pub fn val(self) -> (r: T)
        ensures
            r == self.spec_val(),
    {
        self.val
    }
}

/// What reading a `T` at `apos` in `bytes` gives: a range error where `apos`
/// lies beyond the bytes; the value stored from `apos`, where all of it fits;
/// a length error otherwise.
pub open spec fn read_at<T: FromU8Array>(
    bytes: Seq<u8>,
    apos: nat,
    val: Result<(usize, T), FromU8Error<T>>,
) -> bool {
    if apos > bytes.len() {
        val == Err::<(usize, T), FromU8Error<T>>(FromU8Error::RangeError)
    } else {
        match val {
            Ok((read, v)) => {
                &&& apos + T::spec_size() <= bytes.len()
                &&& read == T::spec_size()
                &&& v@ == T::spec_decode(bytes.subrange(apos as int, apos + read))
            },
            Err(e) => {
                &&& apos + T::spec_size() > bytes.len()
                &&& e == FromU8Error::<T>::NotEnoughSlice(None)
            },
        }
    }
}

/// How far a successful or invalid read moved: the bytes it consumed.
pub open spec fn consumed<T>(val: Result<(usize, T), FromU8Error<T>>) -> nat {
    match val {
        Ok((read, _)) => read as nat,
        Err(FromU8Error::InvalidValue((read, _))) => read as nat,
        _ => 0,
    }
}

impl<'a> Seekable<'a> {
    pub closed spec fn spec_buffer(&self) -> &'a Sequential {
        self.inner
    }

    pub closed spec fn spec_pos(&self) -> usize {
        self.pos
    }

    /// The current position.
    pub fn pos(&self) -> (r: usize)
        ensures
            r == self.spec_pos(),
    {
        self.pos
    }

    /// Reads a `T` at the absolute position `apos`, leaving the cursor where
    /// it is: a range error where `apos` lies beyond the buffer.
    pub fn interpret_abs_pos<InterpretType>(&self, apos: usize) -> (r: InterpretResult<InterpretType>)
        where
            InterpretType: FromU8Array,
        ensures
            r.spec_pos() == apos,
            read_at(self.spec_buffer()@, apos as nat, r.spec_val()),
    {
        let bytes = self.inner.as_slice();
        if apos > bytes.len() {
            return InterpretResult::new(apos, Err(FromU8Error::RangeError));
        }
        let rest = slice_subrange(bytes, apos, bytes.len());
        let val = InterpretType::from_slice(rest);
        proof {
            if let Ok((read, _)) = val {
                assert(rest@.take(read as int) =~= bytes@.subrange(apos as int, apos + read));
            }
        }
        InterpretResult::new(apos, val)
    }

    /// Reads a `T` at the cursor; where bytes were consumed, moves the cursor
    /// past them.
    pub fn interpret_next<InterpretType>(&mut self) -> (r: InterpretResult<InterpretType>)
        where
            InterpretType: FromU8Array,
        ensures
            r.spec_pos() == old(self).spec_pos(),
            read_at(old(self).spec_buffer()@, old(self).spec_pos() as nat, r.spec_val()),
            final(self).spec_buffer() == old(self).spec_buffer(),
            final(self).spec_pos() == old(self).spec_pos() + consumed(r.spec_val()),
    {
        let res = self.interpret_abs_pos::<InterpretType>(self.pos);
        let (pos, result) = res.to_tuple();
        let total = self.inner.len();
        match &result {
            Ok((read, _)) => {
                self.pos = self.pos + *read;
            },
            Err(FromU8Error::InvalidValue((read, _))) => {
                self.pos = self.pos + *read;
            },
            _ => {},
        }
        InterpretResult::new(pos, result)
    }

    /// Reads a record of type `ty` at the absolute position `apos`, leaving
    /// the cursor where it is: a range error where `apos` lies beyond the
    /// buffer.
    pub fn interpret_abs_record(&self, ty: &RecordType, apos: usize) -> (r: InterpretResult<ComposedRecord>)
        requires
            ty.wf(),
        ensures
            r.spec_pos() == apos,
            apos > self.spec_buffer()@.len() ==> r.spec_val() == Err::<
                (usize, ComposedRecord),
                FromU8Error<ComposedRecord>,
            >(FromU8Error::RangeError),
            apos <= self.spec_buffer()@.len() ==> record_read(
                ty@,
                self.spec_buffer()@.skip(apos as int),
                r.spec_val(),
            ),
    {
        let bytes = self.inner.as_slice();
        if apos > bytes.len() {
            return InterpretResult::new(apos, Err(FromU8Error::RangeError));
        }
        let rest = slice_subrange(bytes, apos, bytes.len());
        assert(rest@ =~= bytes@.skip(apos as int));
        InterpretResult::new(apos, ty.parse(rest))
    }

    /// Reads a record of type `ty` at the cursor; where bytes were consumed
    /// (the record is complete, sane or not), moves the cursor past them.
    pub fn interpret_next_record(&mut self, ty: &RecordType) -> (r: InterpretResult<ComposedRecord>)
        requires
            ty.wf(),
        ensures
            r.spec_pos() == old(self).spec_pos(),
            old(self).spec_pos() > old(self).spec_buffer()@.len() ==> r.spec_val() == Err::<
                (usize, ComposedRecord),
                FromU8Error<ComposedRecord>,
            >(FromU8Error::RangeError),
            old(self).spec_pos() <= old(self).spec_buffer()@.len() ==> record_read(
                ty@,
                old(self).spec_buffer()@.skip(old(self).spec_pos() as int),
                r.spec_val(),
            ),
            final(self).spec_buffer() == old(self).spec_buffer(),
            final(self).spec_pos() == old(self).spec_pos() + consumed(r.spec_val()),
    {
        let res = self.interpret_abs_record(ty, self.pos);
        let (pos, result) = res.to_tuple();
        let total = self.inner.len();
        if self.pos > total {
            return InterpretResult::new(pos, result);
        }
        proof {
            crate::record::lemma_read_fits(ty@, self.inner@.skip(self.pos as int), result);
        }
        assert(self.inner@.skip(self.pos as int).len() == total - self.pos);
        match &result {
            Ok((read, _)) => {
                self.pos = self.pos + *read;
            },
            Err(FromU8Error::InvalidValue((read, _))) => {
                self.pos = self.pos + *read;
            },
            _ => {},
        }
        InterpretResult::new(pos, result)
    }

    /// Moves the cursor to `at`, and gives a copy of it.
    pub fn seek(&mut self, at: usize) -> (r: Self)
        ensures
            final(self).spec_buffer() == old(self).spec_buffer(),
            final(self).spec_pos() == at,
            r == *final(self),
    {
        self.pos = at;
        *self
    }
}

} // verus!
