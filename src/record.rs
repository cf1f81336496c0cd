//! Composed records: ordered fields read one after another, with partial
//! results on truncated input and best-effort values on insane input.

use crate::endian::{decode_le, encode_le, le_bytes, le_value};
use crate::model::{mask_of, ComposedFromU8Array, ModelFromU8Array, Table, TableView};
use crate::types::FromU8Error;
use vstd::prelude::*;
use vstd::slice::slice_subrange;

verus! {

/// The kind of a scalar inside a field: an enumerated value or a set of flags.
#[derive(Debug, Clone)]
pub enum ScalarType {
    Model(Table),
    Flags(Table),
}

/// What a scalar kind says: its table, and whether it is a set of flags.
pub struct ScalarView {
    pub table: TableView,
    pub flags: bool,
}

impl View for ScalarType {
    type V = ScalarView;

    open spec fn view(&self) -> ScalarView {
        match self {
            ScalarType::Model(t) => ScalarView { table: t@, flags: false },
            ScalarType::Flags(t) => ScalarView { table: t@, flags: true },
        }
    }
}

/// The number of bytes that store a scalar of kind `s`.
pub open spec fn scalar_width(s: ScalarView) -> nat {
    s.table.width
}

/// Whether `raw` is a sane value of a scalar of kind `s`: a declared constant
/// (or anything, where none is declared) for an enumerated value; no bit
/// outside the declared ones for a set of flags.
pub open spec fn scalar_sane(s: ScalarView, raw: u128) -> bool {
    if s.flags {
        raw & !mask_of(s.table.values) == 0
    } else {
        s.table.values.len() == 0 || s.table.values.contains(raw)
    }
}

impl ScalarType {
    pub open spec fn table_of(&self) -> Table {
        match self {
            ScalarType::Model(t) => *t,
            ScalarType::Flags(t) => *t,
        }
    }

    pub open spec fn wf(&self) -> bool {
        self.table_of().wf()
    }

    /// The same kind.
    pub fn duplicate(&self) -> (r: ScalarType)
        ensures
            r@ == self@,
            r.wf() == self.wf(),
    {
        match self {
            ScalarType::Model(t) => ScalarType::Model(t.duplicate()),
            ScalarType::Flags(t) => ScalarType::Flags(t.duplicate()),
        }
    }

    /// Whether `raw` is a sane value of this kind.
    pub fn is_sane(&self, raw: u128) -> (r: bool)
        ensures
            r == scalar_sane(self@, raw),
    {
        match self {
            ScalarType::Model(t) => t.constants().len() == 0 || t.declares(raw),
            ScalarType::Flags(t) => raw & !t.mask() == 0,
        }
    }
}

/// The number of bytes that store scalars of kinds `leaves`, one after another.
pub open spec fn field_size(leaves: Seq<ScalarView>) -> nat
    decreases leaves.len(),
{
    if leaves.len() == 0 {
        0
    } else {
        field_size(leaves.drop_last()) + scalar_width(leaves.last())
    }
}

/// Where the scalar at `j` of a field starts, from the start of the field.
pub open spec fn leaf_offset(leaves: Seq<ScalarView>, j: int) -> nat {
    field_size(leaves.take(j))
}

/// The scalars that a field of kinds `leaves` holds, where `bytes` start with it.
pub open spec fn decode_field(leaves: Seq<ScalarView>, bytes: Seq<u8>) -> Seq<u128> {
    Seq::new(
        leaves.len(),
        |j: int|
            le_value(
                bytes.subrange(
                    leaf_offset(leaves, j) as int,
                    (leaf_offset(leaves, j) + scalar_width(leaves[j])) as int,
                ),
            ) as u128,
    )
}

/// Whether every scalar of a field is sane.
pub open spec fn field_sane(leaves: Seq<ScalarView>, vals: Seq<u128>) -> bool {
    &&& vals.len() == leaves.len()
    &&& forall|j: int| 0 <= j < leaves.len() ==> scalar_sane(leaves[j], #[trigger] vals[j])
}

/// The bytes that store the scalars `vals` of kinds `leaves`.
pub open spec fn encode_field(leaves: Seq<ScalarView>, vals: Seq<u128>) -> Seq<u8>
    decreases leaves.len(),
{
    if leaves.len() == 0 {
        seq![]
    } else {
        encode_field(leaves.drop_last(), vals.take(leaves.len() - 1)) + le_bytes(
            vals[leaves.len() - 1] as nat,
            scalar_width(leaves.last()),
        )
    }
}

/// The number of bytes that store fields of kinds `fields`, one after another.
pub open spec fn record_size(fields: Seq<Seq<ScalarView>>) -> nat
    decreases fields.len(),
{
    if fields.len() == 0 {
        0
    } else {
        field_size(fields[0]) + record_size(fields.drop_first())
    }
}

/// Reads fields of kinds `fields` from the front of `bytes`, one after
/// another; from the first that does not fit on, every field is absent.
pub open spec fn parse_fields(fields: Seq<Seq<ScalarView>>, bytes: Seq<u8>) -> Seq<Option<Seq<u128>>>
    decreases fields.len(),
{
    if fields.len() == 0 {
        seq![]
    } else if bytes.len() < field_size(fields[0]) {
        Seq::new(fields.len(), |i: int| None)
    } else {
        seq![Some(decode_field(fields[0], bytes))] + parse_fields(
            fields.drop_first(),
            bytes.skip(field_size(fields[0]) as int),
        )
    }
}

/// Every field is present.
pub open spec fn all_present(vals: Seq<Option<Seq<u128>>>) -> bool {
    forall|i: int| 0 <= i < vals.len() ==> (#[trigger] vals[i]) is Some
}

/// Every field is present and sane.
pub open spec fn all_sane(fields: Seq<Seq<ScalarView>>, vals: Seq<Option<Seq<u128>>>) -> bool {
    &&& vals.len() == fields.len()
    &&& all_present(vals)
    &&& forall|i: int| 0 <= i < vals.len() ==> field_sane(fields[i], (#[trigger] vals[i])->0)
}

/// The bytes that store the fields `vals` of kinds `fields`, up to the first
/// absent one.
pub open spec fn encode_fields(fields: Seq<Seq<ScalarView>>, vals: Seq<Option<Seq<u128>>>) -> Seq<u8>
    decreases fields.len(),
{
    if fields.len() == 0 || vals.len() == 0 {
        seq![]
    } else {
        match vals[0] {
            None => seq![],
            Some(v) => encode_field(fields[0], v) + encode_fields(fields.drop_first(), vals.drop_first()),
        }
    }
}

/// `leaves` repeated `n` times.
pub open spec fn repeat(leaves: Seq<ScalarView>, n: nat) -> Seq<ScalarView>
    decreases n,
{
    if n == 0 {
        seq![]
    } else {
        repeat(leaves, (n - 1) as nat) + leaves
    }
}

/// The kinds of `fields`, one field after another.
pub open spec fn flatten(fields: Seq<Seq<ScalarView>>) -> Seq<ScalarView>
    decreases fields.len(),
{
    if fields.len() == 0 {
        seq![]
    } else {
        flatten(fields.drop_last()) + fields.last()
    }
}

/// The view of each scalar kind of `leaves`.
pub open spec fn leaves_view(leaves: Seq<ScalarType>) -> Seq<ScalarView> {
    leaves.map_values(|s: ScalarType| s@)
}

/// How a field of a record is stored: the scalars it consists of, in the
/// order of storage. A scalar field has one; an array has those of its
/// element, repeated; a nested record has those of its fields in turn.
#[derive(Debug, Clone)]
pub struct FieldType {
    leaves: Vec<ScalarType>,
}

impl View for FieldType {
    type V = Seq<ScalarView>;

    closed spec fn view(&self) -> Seq<ScalarView> {
        leaves_view(self.leaves@)
    }
}

impl FieldType {
    /// Every scalar kind has a well-formed table.
    pub closed spec fn wf(&self) -> bool {
        forall|j: int| 0 <= j < self.leaves@.len() ==> (#[trigger] self.leaves@[j]).wf()
    }

    /// A field of one scalar of kind `s`.
    pub fn scalar(s: ScalarType) -> (r: FieldType)
        ensures
            r@ == seq![s@],
            r.wf() == s.wf(),
    {
        let mut leaves: Vec<ScalarType> = Vec::new();
        leaves.push(s);
        let r = FieldType { leaves };
        assert(r.leaves@[0] == s);
        assert(r@ =~= seq![s@]);
        r
    }

    /// A field of one enumerated value with table `t`.
    pub fn model(t: Table) -> (r: FieldType)
        ensures
            r@ == seq![ScalarView { table: t@, flags: false }],
            r.wf() == t.wf(),
    {
        FieldType::scalar(ScalarType::Model(t))
    }

    /// A field of one set of flags with table `t`.
    pub fn flags(t: Table) -> (r: FieldType)
        ensures
            r@ == seq![ScalarView { table: t@, flags: true }],
            r.wf() == t.wf(),
    {
        FieldType::scalar(ScalarType::Flags(t))
    }

    /// A field of `n` elements of kind `elem`, one after another.
    pub fn array(elem: &FieldType, n: usize) -> (r: FieldType)
        requires
            elem.wf(),
        ensures
            r@ == repeat(elem@, n as nat),
            r.wf(),
    {
        let mut leaves: Vec<ScalarType> = Vec::new();
        let mut k: usize = 0;
        while k < n
            invariant
                k <= n,
                elem.wf(),
                leaves_view(leaves@) == repeat(elem@, k as nat),
                forall|j: int| 0 <= j < leaves@.len() ==> (#[trigger] leaves@[j]).wf(),
            decreases n - k,
        {
            let mut j: usize = 0;
            let ghost start = leaves@;
            while j < elem.leaves.len()
                invariant
                    j <= elem.leaves@.len(),
                    elem.wf(),
                    leaves@.len() == start.len() + j,
                    leaves_view(leaves@) == leaves_view(start) + elem@.take(j as int),
                    forall|m: int| 0 <= m < leaves@.len() ==> (#[trigger] leaves@[m]).wf(),
                decreases elem.leaves@.len() - j,
            {
                let s = elem.leaves[j].duplicate();
                let ghost before = leaves@;
                leaves.push(s);
                assert(leaves_view(leaves@) =~= leaves_view(before).push(s@));
                assert(elem@[j as int] == elem.leaves@[j as int]@);
                assert(elem@.take(j + 1) =~= elem@.take(j as int).push(elem@[j as int]));
                assert(leaves_view(leaves@) =~= leaves_view(start) + elem@.take(j + 1));
                j = j + 1;
            }
            assert(elem@.take(j as int) =~= elem@);
            k = k + 1;
        }
        FieldType { leaves }
    }

    /// A field that holds a record of type `ty`.
    pub fn record(ty: &RecordType) -> (r: FieldType)
        requires
            ty.wf(),
        ensures
            r@ == flatten(ty@.fields),
            r.wf(),
    {
        let mut leaves: Vec<ScalarType> = Vec::new();
        let mut i: usize = 0;
        while i < ty.fields.len()
            invariant
                i <= ty.fields@.len(),
                ty.wf(),
                leaves_view(leaves@) == flatten(ty@.fields.take(i as int)),
                forall|j: int| 0 <= j < leaves@.len() ==> (#[trigger] leaves@[j]).wf(),
            decreases ty.fields@.len() - i,
        {
            let f = &ty.fields[i];
            assert(f.wf());
            let mut j: usize = 0;
            let ghost start = leaves@;
            while j < f.leaves.len()
                invariant
                    j <= f.leaves@.len(),
                    f.wf(),
                    leaves@.len() == start.len() + j,
                    leaves_view(leaves@) == leaves_view(start) + f@.take(j as int),
                    forall|m: int| 0 <= m < leaves@.len() ==> (#[trigger] leaves@[m]).wf(),
                decreases f.leaves@.len() - j,
            {
                let s = f.leaves[j].duplicate();
                let ghost before = leaves@;
                leaves.push(s);
                assert(leaves_view(leaves@) =~= leaves_view(before).push(s@));
                assert(f@[j as int] == f.leaves@[j as int]@);
                assert(f@.take(j + 1) =~= f@.take(j as int).push(f@[j as int]));
                assert(leaves_view(leaves@) =~= leaves_view(start) + f@.take(j + 1));
                j = j + 1;
            }
            assert(f@.take(j as int) =~= f@);
            assert(ty@.fields.take(i + 1).drop_last() =~= ty@.fields.take(i as int));
            assert(ty@.fields[i as int] == f@);
            i = i + 1;
        }
        assert(ty@.fields.take(i as int) =~= ty@.fields);
        FieldType { leaves }
    }

    /// The same field type.
    pub fn duplicate(&self) -> (r: FieldType)
        requires
            self.wf(),
        ensures
            r@ == self@,
            r.wf(),
    {
        let mut leaves: Vec<ScalarType> = Vec::new();
        let mut j: usize = 0;
        while j < self.leaves.len()
            invariant
                j <= self.leaves@.len(),
                leaves@.len() == j,
                self.wf(),
                forall|m: int|
                    0 <= m < j ==> (#[trigger] leaves@[m])@ == self.leaves@[m]@ && leaves@[m].wf(),
            decreases self.leaves@.len() - j,
        {
            leaves.push(self.leaves[j].duplicate());
            j = j + 1;
        }
        let r = FieldType { leaves };
        assert(r@ =~= self@);
        r
    }

    /// The number of scalars in the field.
    pub fn len(&self) -> (r: usize)
        ensures
            r == self@.len(),
    {
        self.leaves.len()
    }
}

/// What a record type says: the names of its fields and their kinds, in order.
pub struct RecordTypeView {
    pub names: Seq<Seq<char>>,
    pub fields: Seq<Seq<ScalarView>>,
}

/// The ordered, named fields of a record.
#[derive(Debug, Clone)]
pub struct RecordType {
    names: Vec<String>,
    fields: Vec<FieldType>,
}

impl View for RecordType {
    type V = RecordTypeView;

    closed spec fn view(&self) -> RecordTypeView {
        RecordTypeView {
            names: self.names@.map_values(|s: String| s@),
            fields: self.fields@.map_values(|f: FieldType| f@),
        }
    }
}

impl RecordType {
    /// Every field is well formed and has a name.
    pub closed spec fn wf(&self) -> bool {
        &&& self.names@.len() == self.fields@.len()
        &&& forall|i: int| 0 <= i < self.fields@.len() ==> (#[trigger] self.fields@[i]).wf()
    }

    /// A record type without fields.
    pub fn new() -> (r: RecordType)
        ensures
            r@.names == Seq::<Seq<char>>::empty(),
            r@.fields == Seq::<Seq<ScalarView>>::empty(),
            r.wf(),
    {
        let r = RecordType { names: Vec::new(), fields: Vec::new() };
        assert(r@.names =~= Seq::<Seq<char>>::empty());
        assert(r@.fields =~= Seq::<Seq<ScalarView>>::empty());
        r
    }

    /// The type with one more field, named `name` and of kind `f`, at the end.
    pub fn field(self, name: &str, f: FieldType) -> (r: RecordType)
        requires
            self.wf(),
            f.wf(),
        ensures
            r@.names == self@.names.push(name@),
            r@.fields == self@.fields.push(f@),
            r.wf(),
    {
        let RecordType { mut names, mut fields } = self;
        names.push(name.to_owned());
        fields.push(f);
        let r = RecordType { names, fields };
        assert(r@.names =~= self@.names.push(name@));
        assert(r@.fields =~= self@.fields.push(f@));
        r
    }

    /// The number of fields.
    pub fn len(&self) -> (r: usize)
        ensures
            r == self@.fields.len(),
    {
        self.fields.len()
    }

    /// The same record type.
    pub fn duplicate(&self) -> (r: RecordType)
        requires
            self.wf(),
        ensures
            r@ == self@,
            r.wf(),
    {
        let mut names: Vec<String> = Vec::new();
        let mut fields: Vec<FieldType> = Vec::new();
        let mut i: usize = 0;
        while i < self.fields.len()
            invariant
                self.wf(),
                i <= self.fields@.len(),
                names@.len() == i,
                fields@.len() == i,
                forall|m: int|
                    0 <= m < i ==> (#[trigger] fields@[m])@ == self.fields@[m]@ && fields@[m].wf(),
                forall|m: int| 0 <= m < i ==> (#[trigger] names@[m])@ == self.names@[m]@,
            decreases self.fields@.len() - i,
        {
            fields.push(self.fields[i].duplicate());
            names.push(self.names[i].clone());
            i = i + 1;
        }
        let r = RecordType { names, fields };
        assert(r@.fields =~= self@.fields);
        assert(r@.names =~= self@.names);
        r
    }
}

proof fn lemma_field_size_monotone(leaves: Seq<ScalarView>, a: int, b: int)
    requires
        0 <= a <= b <= leaves.len(),
    ensures
        field_size(leaves.take(a)) <= field_size(leaves.take(b)),
    decreases b - a,
{
    if a < b {
        lemma_field_size_monotone(leaves, a, b - 1);
        assert(leaves.take(b).drop_last() =~= leaves.take(b - 1));
    }
}

/// The view of fields that may be absent.
pub open spec fn values_view(vals: Seq<Option<Vec<u128>>>) -> Seq<Option<Seq<u128>>> {
    vals.map_values(
        |o: Option<Vec<u128>>|
            match o {
                Some(v) => Some(v@),
                None => None,
            },
    )
}

impl FieldType {
    /// Reads the scalars of the field from `bytes` at `pos`; `None` where
    /// the field does not fit in what remains.
    fn read(&self, bytes: &[u8], pos: usize) -> (r: Option<(Vec<u128>, usize)>)
        requires
            self.wf(),
            pos <= bytes@.len(),
        ensures
            match r {
                Some((vals, size)) => {
                    &&& bytes@.skip(pos as int).len() >= field_size(self@)
                    &&& vals@ == decode_field(self@, bytes@.skip(pos as int))
                    &&& size == field_size(self@)
                },
                None => bytes@.skip(pos as int).len() < field_size(self@),
            },
    {
        let ghost lv = self@;
        let ghost rest = bytes@.skip(pos as int);
        let mut vals: Vec<u128> = Vec::new();
        let mut off: usize = 0;
        let mut j: usize = 0;
        while j < self.leaves.len()
            invariant
                self.wf(),
                lv == self@,
                rest == bytes@.skip(pos as int),
                pos <= bytes@.len(),
                j <= self.leaves@.len(),
                off == field_size(lv.take(j as int)),
                pos + off <= bytes@.len(),
                vals@.len() == j,
                forall|k: int| 0 <= k < j ==> #[trigger] vals@[k] == decode_field(lv, rest)[k],
            decreases self.leaves@.len() - j,
        {
            let s = &self.leaves[j];
            assert(s.wf());
            let w = match s {
                ScalarType::Model(t) => t.width(),
                ScalarType::Flags(t) => t.width(),
            };
            assert(lv[j as int] == s@);
            assert(lv.take(j + 1).drop_last() =~= lv.take(j as int));
            if bytes.len() - (pos + off) < w {
                proof {
                    lemma_field_size_monotone(lv, j + 1, lv.len() as int);
                    assert(lv.take(lv.len() as int) =~= lv);
                }
                return None;
            }
            let v = decode_le(bytes, pos + off, w);
            assert(bytes@.subrange(pos + off, pos + off + w) =~= rest.subrange(
                off as int,
                off + w,
            ));
            vals.push(v);
            off = off + w;
            j = j + 1;
        }
        assert(lv.take(j as int) =~= lv);
        assert(vals@ =~= decode_field(lv, rest));
        Some((vals, off))
    }

    /// Whether every scalar of `vals` is sane for its kind.
    fn is_sane(&self, vals: &Vec<u128>) -> (r: bool)
        ensures
            r == field_sane(self@, vals@),
    {
        if vals.len() != self.leaves.len() {
            return false;
        }
        let mut j: usize = 0;
        while j < vals.len()
            invariant
                vals@.len() == self.leaves@.len(),
                j <= vals@.len(),
                forall|k: int| 0 <= k < j ==> scalar_sane(self@[k], #[trigger] vals@[k]),
            decreases vals@.len() - j,
        {
            assert(self@[j as int] == self.leaves@[j as int]@);
            if !self.leaves[j].is_sane(vals[j]) {
                return false;
            }
            j = j + 1;
        }
        true
    }
}

/// What a record says: its type, and the value of each field where present.
pub struct RecordView {
    pub ty: RecordTypeView,
    pub values: Seq<Option<Seq<u128>>>,
}

/// A record of a given type: each field present with its scalars, or absent.
#[derive(Debug, Clone)]
pub struct ComposedRecord {
    ty: RecordType,
    values: Vec<Option<Vec<u128>>>,
}

impl View for ComposedRecord {
    type V = RecordView;

    closed spec fn view(&self) -> RecordView {
        RecordView { ty: self.ty@, values: values_view(self.values@) }
    }
}

impl ComposedRecord {
    /// The record has as many fields as its type, and each present one has
    /// as many scalars as its kind.
    pub closed spec fn wf(&self) -> bool {
        &&& self.ty.wf()
        &&& self.values@.len() == self.ty@.fields.len()
        &&& forall|i: int|
            0 <= i < self.values@.len() && (#[trigger] values_view(self.values@)[i]) is Some
                ==> values_view(self.values@)[i]->0.len() == self.ty@.fields[i].len()
    }
}

/// What reading a record of type `ty` from the front of `bytes` gives.
pub open spec fn record_read(
    ty: RecordTypeView,
    bytes: Seq<u8>,
    r: Result<(usize, ComposedRecord), FromU8Error<ComposedRecord>>,
) -> bool {
    let vals = parse_fields(ty.fields, bytes);
    match r {
        Ok((read, rec)) => {
            &&& all_sane(ty.fields, vals)
            &&& read == record_size(ty.fields)
            &&& rec@.ty == ty
            &&& rec@.values == vals
            &&& rec.wf()
        },
        Err(FromU8Error::NotEnoughSlice(Some(rec))) => {
            &&& !all_present(vals)
            &&& rec@.ty == ty
            &&& rec@.values == vals
            &&& rec.wf()
        },
        Err(FromU8Error::InvalidValue((read, Some(rec)))) => {
            &&& all_present(vals)
            &&& !all_sane(ty.fields, vals)
            &&& read == record_size(ty.fields)
            &&& rec@.ty == ty
            &&& rec@.values == vals
            &&& rec.wf()
        },
        _ => false,
    }
}

impl RecordType {
    /// Reads a record of this type from the front of `bytes`, field by field
    /// in declared order. A field that does not fit in what remains ends the
    /// reading: the result is a length error that carries the record with
    /// the fields read so far. A field that is read but not sane is kept and
    /// the reading goes on; the result is then an invalid-value error that
    /// carries the complete record. Otherwise the result is the record and
    /// the number of bytes it occupies.
    pub fn parse(&self, bytes: &[u8]) -> (r: Result<(usize, ComposedRecord), FromU8Error<ComposedRecord>>)
        requires
            self.wf(),
        ensures
            record_read(self@, bytes@, r),
    {
        let ghost fields = self@.fields;
        let ghost whole = parse_fields(fields, bytes@);
        let mut vals: Vec<Option<Vec<u128>>> = Vec::new();
        let mut pos: usize = 0;
        let mut valid_so_far = true;
        let mut i: usize = 0;
        assert(fields.skip(0) =~= fields);
        assert(bytes@.skip(0) =~= bytes@);
        assert(values_view(vals@) =~= Seq::<Option<Seq<u128>>>::empty());
        assert(values_view(vals@) + whole =~= whole);
        while i < self.fields.len()
            invariant
                self.wf(),
                fields == self@.fields,
                whole == parse_fields(fields, bytes@),
                i <= fields.len(),
                pos <= bytes@.len(),
                vals@.len() == i,
                values_view(vals@) + parse_fields(fields.skip(i as int), bytes@.skip(pos as int))
                    == whole,
                pos + record_size(fields.skip(i as int)) == record_size(fields),
                all_present(values_view(vals@)),
                valid_so_far == (forall|k: int|
                    0 <= k < i ==> field_sane(fields[k], (#[trigger] values_view(vals@)[k])->0)),
                forall|k: int|
                    0 <= k < i ==> (#[trigger] values_view(vals@)[k])->0.len() == fields[k].len(),
            decreases fields.len() - i,
        {
            let f = &self.fields[i];
            assert(f.wf());
            assert(fields[i as int] == f@);
            let ghost tail = fields.skip(i as int);
            assert(tail.drop_first() =~= fields.skip(i + 1));
            assert(tail[0] == f@);
            match f.read(bytes, pos) {
                None => {
                    let ghost absent = parse_fields(tail, bytes@.skip(pos as int));
                    assert(absent =~= Seq::new(tail.len(), |k: int| None::<Seq<u128>>));
                    let mut k: usize = i;
                    while k < self.fields.len()
                        invariant
                            i <= k <= fields.len(),
                            fields.len() == self.fields@.len(),
                            vals@.len() == k,
                            values_view(vals@) + absent.skip(k - i) == whole,
                            absent =~= Seq::new(tail.len(), |m: int| None::<Seq<u128>>),
                            tail.len() == fields.len() - i,
                            forall|m: int| i <= m < k ==> (#[trigger] values_view(vals@)[m]) is None,
                            forall|m: int|
                                0 <= m < vals@.len() ==> (#[trigger] values_view(vals@)[m]) is Some
                                    ==> values_view(vals@)[m]->0.len() == fields[m].len(),
                        decreases fields.len() - k,
                    {
                        let ghost before = vals@;
                        vals.push(None);
                        assert(values_view(vals@) =~= values_view(before).push(None));
                        assert(absent.skip(k - i) =~= seq![None::<Seq<u128>>] + absent.skip(k + 1 - i));
                        k = k + 1;
                    }
                    assert(absent.skip(k - i) =~= Seq::<Option<Seq<u128>>>::empty());
                    assert(values_view(vals@) =~= whole);
                    assert(!all_present(whole)) by {
                        assert(whole[i as int] is None);
                    }
                    let rec = ComposedRecord { ty: self.duplicate(), values: vals };
                    return Err(FromU8Error::NotEnoughSlice(Some(rec)));
                },
                Some((v, size)) => {
                    assert(bytes@.skip(pos as int).len() == bytes@.len() - pos);
                    let total = bytes.len();
                    assert(pos + size <= total);
                    assert(record_size(tail) == size + record_size(fields.skip(i + 1)));
                    let sane = f.is_sane(&v);
                    let ghost before = vals@;
                    let ghost vv = values_view(before);
                    vals.push(Some(v));
                    assert(values_view(vals@) =~= vv.push(
                        Some(decode_field(f@, bytes@.skip(pos as int))),
                    ));
                    assert(bytes@.skip(pos as int).skip(size as int) =~= bytes@.skip(pos + size));
                    assert(parse_fields(tail, bytes@.skip(pos as int)) =~= seq![
                        Some(decode_field(f@, bytes@.skip(pos as int))),
                    ] + parse_fields(fields.skip(i + 1), bytes@.skip(pos + size)));
                    assert(values_view(vals@) + parse_fields(
                        fields.skip(i + 1),
                        bytes@.skip(pos + size),
                    ) =~= vv + parse_fields(tail, bytes@.skip(pos as int)));
                    assert(forall|k: int| 0 <= k < i ==> values_view(vals@)[k] == vv[k]);
                    valid_so_far = valid_so_far && sane;
                    pos = pos + size;
                },
            }
            i = i + 1;
        }
        assert(fields.skip(i as int) =~= Seq::<Seq<ScalarView>>::empty());
        assert(values_view(vals@) =~= whole);
        let rec = ComposedRecord { ty: self.duplicate(), values: vals };
        if valid_so_far {
            Ok((pos, rec))
        } else {
            Err(FromU8Error::InvalidValue((pos, Some(rec))))
        }
    }
}

/// Reading fields one after another: the field at `i` is present exactly
/// where it and every field before it fit in `bytes`, and then holds what its
/// own bytes denote, read on their own.
pub proof fn lemma_parse_by_field(fields: Seq<Seq<ScalarView>>, bytes: Seq<u8>, i: int)
    requires
        0 <= i < fields.len(),
    ensures
        parse_fields(fields, bytes).len() == fields.len(),
        parse_fields(fields, bytes)[i] is Some <==> record_size(fields.take(i + 1)) <= bytes.len(),
        parse_fields(fields, bytes)[i] is Some ==> parse_fields(fields, bytes)[i]->0
            == decode_field(fields[i], bytes.skip(record_size(fields.take(i)) as int)),
    decreases i,
{
    let size0 = field_size(fields[0]);
    lemma_parse_len(fields, bytes);
    assert(fields.take(i + 1).drop_first() =~= fields.drop_first().take(i));
    assert(fields.take(1).drop_first() =~= Seq::<Seq<ScalarView>>::empty());
    if i == 0 {
        assert(fields.take(0) =~= Seq::<Seq<ScalarView>>::empty());
        assert(bytes.skip(0) =~= bytes);
    } else {
        assert(fields.take(i).drop_first() =~= fields.drop_first().take(i - 1));
        assert(fields.take(i + 1)[0] == fields[0]);
        assert(record_size(fields.take(i + 1)) == size0 + record_size(fields.drop_first().take(i)));
        assert(fields.take(i)[0] == fields[0]);
        assert(record_size(fields.take(i)) == size0 + record_size(fields.drop_first().take(i - 1)));
        if bytes.len() >= size0 {
            let rest = bytes.skip(size0 as int);
            lemma_parse_by_field(fields.drop_first(), rest, i - 1);
            assert(fields.drop_first()[i - 1] == fields[i]);
            assert(parse_fields(fields, bytes)[i] == parse_fields(fields.drop_first(), rest)[i - 1]);
            if parse_fields(fields, bytes)[i] is Some {
                lemma_record_size_prefix(fields.drop_first().take(i), i - 1);
                assert(fields.drop_first().take(i).take(i - 1) =~= fields.drop_first().take(i - 1));
                assert(rest.skip(record_size(fields.drop_first().take(i - 1)) as int) =~= bytes.skip(
                    record_size(fields.take(i)) as int,
                ));
            }
        }
    }
}

proof fn lemma_parse_len(fields: Seq<Seq<ScalarView>>, bytes: Seq<u8>)
    ensures
        parse_fields(fields, bytes).len() == fields.len(),
    decreases fields.len(),
{
    if fields.len() > 0 && bytes.len() >= field_size(fields[0]) {
        lemma_parse_len(fields.drop_first(), bytes.skip(field_size(fields[0]) as int));
    }
}

proof fn lemma_record_size_prefix(fields: Seq<Seq<ScalarView>>, k: int)
    requires
        0 <= k <= fields.len(),
    ensures
        record_size(fields.take(k)) <= record_size(fields),
    decreases k,
{
    if k > 0 {
        lemma_record_size_prefix(fields.drop_first(), k - 1);
        assert(fields.take(k).drop_first() =~= fields.drop_first().take(k - 1));
    } else {
        assert(fields.take(0) =~= Seq::<Seq<ScalarView>>::empty());
    }
}

pub proof fn lemma_repeat(elem: Seq<ScalarView>, n: nat)
    ensures
        repeat(elem, n).len() == n * elem.len(),
        forall|i: int, j: int|
            0 <= i < n && 0 <= j < elem.len() ==> #[trigger] repeat(elem, n)[i * elem.len() + j]
                == elem[j],
    decreases n,
{
    let k = elem.len() as int;
    if n > 0 {
        lemma_repeat(elem, (n - 1) as nat);
        assert(n * k == (n - 1) * k + k) by (nonlinear_arith);
        assert forall|i: int, j: int| 0 <= i < n && 0 <= j < k implies #[trigger] repeat(elem, n)[i
            * k + j] == elem[j] by {
            if i < n - 1 {
                assert(i * k + j < (n - 1) * k) by (nonlinear_arith)
                    requires
                        0 <= i < n - 1,
                        0 <= j < k,
                ;
            } else {
                assert(i * k == (n - 1) * k);
            }
        }
    }
}

/// A field of `n` elements of kind `elem` is sane exactly where every
/// element is; so an array without elements always is.
pub proof fn lemma_array_field_sane(elem: Seq<ScalarView>, n: nat, vals: Seq<u128>)
    requires
        vals.len() == n * elem.len(),
    ensures
        field_sane(repeat(elem, n), vals) <==> forall|i: int|
            0 <= i < n ==> field_sane(
                elem,
                #[trigger] vals.subrange(i * elem.len(), i * elem.len() + elem.len()),
            ),
{
    let k = elem.len() as int;
    lemma_repeat(elem, n);
    if field_sane(repeat(elem, n), vals) {
        assert forall|i: int| 0 <= i < n implies field_sane(
            elem,
            #[trigger] vals.subrange(i * k, i * k + k),
        ) by {
            assert(i * k + k <= n * k) by (nonlinear_arith)
                requires
                    0 <= i < n,
                    0 <= k,
            ;
            assert(0 <= i * k) by (nonlinear_arith)
                requires
                    0 <= i,
                    0 <= k,
            ;
            assert forall|j: int| 0 <= j < k implies scalar_sane(
                elem[j],
                #[trigger] vals.subrange(i * k, i * k + k)[j],
            ) by {
                assert(i * k + j < n * k) by (nonlinear_arith)
                    requires
                        0 <= i < n,
                        0 <= j < k,
                ;
                assert(i * k + k <= n * k) by (nonlinear_arith)
                    requires
                        0 <= i < n,
                        0 <= k,
                ;
                assert(repeat(elem, n)[i * k + j] == elem[j]);
            }
            assert(i * k + k <= n * k) by (nonlinear_arith)
                requires
                    0 <= i < n,
                    0 <= k,
            ;
        }
    }
    if forall|i: int|
        0 <= i < n ==> field_sane(elem, #[trigger] vals.subrange(i * k, i * k + k)) {
        assert forall|m: int| 0 <= m < repeat(elem, n).len() implies scalar_sane(
            repeat(elem, n)[m],
            #[trigger] vals[m],
        ) by {
            let i = m / k;
            let j = m % k;
            assert(k > 0) by (nonlinear_arith)
                requires
                    m < n * k,
                    0 <= m,
            ;
            assert(m == i * k + j && 0 <= j < k && 0 <= i < n) by (nonlinear_arith)
                requires
                    k > 0,
                    0 <= m < n * k,
                    i == m / k,
                    j == m % k,
            ;
            assert(i * k + k <= n * k) by (nonlinear_arith)
                requires
                    0 <= i < n,
                    0 <= k,
            ;
            assert(vals.subrange(i * k, i * k + k)[j] == vals[m]);
            assert(field_sane(elem, vals.subrange(i * k, i * k + k)));
        }
    }
}

/// `f` is a field of one scalar of `width` bytes, declaring `values`, and
/// a set of flags exactly where `flags` holds.
pub open spec fn is_scalar(f: Seq<ScalarView>, width: nat, values: Seq<u128>, flags: bool) -> bool {
    &&& f.len() == 1
    &&& f[0].table.width == width
    &&& f[0].table.values == values
    &&& f[0].flags == flags
}

/// `f` is a field of `n` scalars of `width` bytes each, declaring nothing
/// and none of them a set of flags.
pub open spec fn is_free_array(f: Seq<ScalarView>, n: nat, width: nat) -> bool {
    &&& f.len() == n
    &&& forall|j: int|
        0 <= j < n ==> (#[trigger] f[j]).table.width == width && f[j].table.values.len() == 0
            && !f[j].flags
}

/// Where the field at `i` starts, from the start of the record.
pub open spec fn field_offset(fields: Seq<Seq<ScalarView>>, i: int) -> nat {
    record_size(fields.take(i))
}

pub proof fn lemma_field_size_concat(a: Seq<ScalarView>, b: Seq<ScalarView>)
    ensures
        field_size(a + b) == field_size(a) + field_size(b),
    decreases b.len(),
{
    if b.len() == 0 {
        assert(a + b =~= a);
    } else {
        lemma_field_size_concat(a, b.drop_last());
        assert((a + b).drop_last() =~= a + b.drop_last());
    }
}

pub proof fn lemma_field_size_repeat(elem: Seq<ScalarView>, n: nat)
    ensures
        field_size(repeat(elem, n)) == n * field_size(elem),
    decreases n,
{
    if n > 0 {
        lemma_field_size_repeat(elem, (n - 1) as nat);
        lemma_field_size_concat(repeat(elem, (n - 1) as nat), elem);
        let f = field_size(elem);
        assert(n * f == (n - 1) * f + f) by (nonlinear_arith)
            requires
                n >= 1,
        ;
        assert(repeat(elem, n) == repeat(elem, (n - 1) as nat) + elem);
    } else {
        assert(repeat(elem, 0) == Seq::<ScalarView>::empty());
        assert(field_size(Seq::<ScalarView>::empty()) == 0);
    }
}

pub proof fn lemma_field_size_one(s: ScalarView)
    ensures
        field_size(seq![s]) == s.table.width,
{
    assert(seq![s].drop_last() =~= Seq::<ScalarView>::empty());
    assert(seq![s].last() == s);
    assert(field_size(Seq::<ScalarView>::empty()) == 0);
}

proof fn lemma_record_size_push(fs: Seq<Seq<ScalarView>>, f: Seq<ScalarView>)
    ensures
        record_size(fs.push(f)) == record_size(fs) + field_size(f),
    decreases fs.len(),
{
    if fs.len() == 0 {
        assert(fs.push(f).drop_first() =~= Seq::<Seq<ScalarView>>::empty());
        assert(fs.push(f)[0] == f);
        assert(record_size(Seq::<Seq<ScalarView>>::empty()) == 0);
    } else {
        assert(fs.push(f)[0] == fs[0]);
        lemma_record_size_push(fs.drop_first(), f);
        assert(fs.push(f).drop_first() =~= fs.drop_first().push(f));
    }
}

/// A field starts where the one before it ends.
pub proof fn lemma_field_offset_step(fields: Seq<Seq<ScalarView>>, k: int)
    requires
        0 <= k < fields.len(),
    ensures
        field_offset(fields, k + 1) == field_offset(fields, k) + field_size(fields[k]),
        field_offset(fields, 0) == 0,
{
    assert(fields.take(k + 1) =~= fields.take(k).push(fields[k]));
    lemma_record_size_push(fields.take(k), fields[k]);
    assert(fields.take(0) =~= Seq::<Seq<ScalarView>>::empty());
}

/// Bytes too few for every field leave some field absent: reading them gives
/// a length error.
pub proof fn lemma_short_input_is_partial(fields: Seq<Seq<ScalarView>>, bytes: Seq<u8>)
    requires
        bytes.len() < record_size(fields),
    ensures
        !all_present(parse_fields(fields, bytes)),
{
    let n = fields.len() as int;
    assert(n > 0);
    assert(fields.take(n) =~= fields);
    lemma_parse_by_field(fields, bytes, n - 1);
}

/// Bytes enough for every field leave none absent.
pub proof fn lemma_long_input_is_complete(fields: Seq<Seq<ScalarView>>, bytes: Seq<u8>)
    requires
        bytes.len() >= record_size(fields),
    ensures
        all_present(parse_fields(fields, bytes)),
{
    lemma_parse_len(fields, bytes);
    assert forall|i: int| 0 <= i < parse_fields(fields, bytes).len() implies (
    #[trigger] parse_fields(fields, bytes)[i]) is Some by {
        lemma_parse_by_field(fields, bytes, i);
        lemma_record_size_prefix(fields, i + 1);
    }
}

/// Bytes of exactly the size of a record, where one field holds a value that
/// is not sane, read as a complete record that is not sane: an invalid value,
/// not a length error.
pub proof fn lemma_insane_field_is_invalid(fields: Seq<Seq<ScalarView>>, bytes: Seq<u8>, i: int)
    requires
        bytes.len() == record_size(fields),
        0 <= i < fields.len(),
        !field_sane(
            fields[i],
            decode_field(fields[i], bytes.skip(record_size(fields.take(i)) as int)),
        ),
    ensures
        all_present(parse_fields(fields, bytes)),
        !all_sane(fields, parse_fields(fields, bytes)),
{
    lemma_long_input_is_complete(fields, bytes);
    lemma_parse_by_field(fields, bytes, i);
    lemma_record_size_prefix(fields, i + 1);
}

/// What reading a value from the front of a slice gives: the value, sane or
/// not, with the bytes after it; or, where it does not fit, the slice back.
#[derive(Debug)]
pub enum VOConstitudeResult<'a, T> {
    Valid(T, &'a [u8]),
    Invalid(T, &'a [u8]),
    Error(&'a [u8]),
}

impl RecordType {
    /// Reads a record of this type from the front of `slice`, handing back
    /// the bytes after it: valid where every field is present and sane,
    /// invalid where every field is present but one is not sane, and the
    /// slice back where some field does not fit.
    pub fn constitude<'a>(&self, slice: &'a [u8]) -> (r: VOConstitudeResult<'a, ComposedRecord>)
        requires
            self.wf(),
        ensures
            match r {
                VOConstitudeResult::Valid(rec, rest) => {
                    &&& all_sane(self@.fields, parse_fields(self@.fields, slice@))
                    &&& rec@.ty == self@
                    &&& rec@.values == parse_fields(self@.fields, slice@)
                    &&& rec.wf()
                    &&& rest@ == slice@.skip(record_size(self@.fields) as int)
                },
                VOConstitudeResult::Invalid(rec, rest) => {
                    &&& all_present(parse_fields(self@.fields, slice@))
                    &&& !all_sane(self@.fields, parse_fields(self@.fields, slice@))
                    &&& rec@.ty == self@
                    &&& rec@.values == parse_fields(self@.fields, slice@)
                    &&& rec.wf()
                    &&& rest@ == slice@.skip(record_size(self@.fields) as int)
                },
                VOConstitudeResult::Error(back) => {
                    &&& !all_present(parse_fields(self@.fields, slice@))
                    &&& back@ == slice@
                },
            },
    {
        let parsed = self.parse(slice);
        proof {
            lemma_read_fits(self@, slice@, parsed);
        }
        match parsed {
            Ok((read, rec)) => VOConstitudeResult::Valid(rec, slice_subrange(slice, read, slice.len())),
            Err(FromU8Error::InvalidValue((read, Some(rec)))) => VOConstitudeResult::Invalid(
                rec,
                slice_subrange(slice, read, slice.len()),
            ),
            _ => VOConstitudeResult::Error(slice),
        }
    }
}

/// A record read whole occupies no more bytes than there were.
pub proof fn lemma_read_fits(
    ty: RecordTypeView,
    bytes: Seq<u8>,
    r: Result<(usize, ComposedRecord), FromU8Error<ComposedRecord>>,
)
    requires
        record_read(ty, bytes, r),
    ensures
        r is Ok ==> r->Ok_0.0 <= bytes.len(),
        r matches Err(FromU8Error::InvalidValue((read, _))) ==> read <= bytes.len(),
{
    if bytes.len() < record_size(ty.fields) {
        lemma_short_input_is_partial(ty.fields, bytes);
    }
}

/// What a read of a record from `bytes` is, by length alone: a length error
/// carrying the fields that fit where the bytes are fewer than the record's
/// size; otherwise the record or an invalid value, either covering exactly
/// the record's size, so that a cursor moves past the whole record.
pub proof fn lemma_read_by_length(
    ty: RecordTypeView,
    bytes: Seq<u8>,
    r: Result<(usize, ComposedRecord), FromU8Error<ComposedRecord>>,
)
    requires
        record_read(ty, bytes, r),
    ensures
        bytes.len() < record_size(ty.fields) ==> r matches Err(FromU8Error::NotEnoughSlice(Some(_))),
        bytes.len() >= record_size(ty.fields) ==> match r {
            Ok((read, _)) => read == record_size(ty.fields),
            Err(FromU8Error::InvalidValue((read, Some(_)))) => read == record_size(ty.fields),
            _ => false,
        },
{
    if bytes.len() < record_size(ty.fields) {
        lemma_short_input_is_partial(ty.fields, bytes);
    } else {
        lemma_long_input_is_complete(ty.fields, bytes);
    }
}

impl ComposedRecord {
    /// A record of type `ty` with every field absent.
    pub fn get_none(ty: &RecordType) -> (r: ComposedRecord)
        requires
            ty.wf(),
        ensures
            r@.ty == ty@,
            r@.values == Seq::new(ty@.fields.len(), |i: int| None::<Seq<u128>>),
            r.wf(),
    {
        let mut values: Vec<Option<Vec<u128>>> = Vec::new();
        let mut i: usize = 0;
        while i < ty.len()
            invariant
                i <= ty@.fields.len(),
                values@.len() == i,
                forall|k: int| 0 <= k < i ==> (#[trigger] values@[k]) is None,
            decreases ty@.fields.len() - i,
        {
            values.push(None);
            i = i + 1;
        }
        let r = ComposedRecord { ty: ty.duplicate(), values };
        assert(r@.values =~= Seq::new(ty@.fields.len(), |i: int| None::<Seq<u128>>));
        r
    }

    /// The number of fields.
    pub fn len(&self) -> (r: usize)
        requires
            self.wf(),
        ensures
            r == self@.values.len(),
    {
        self.values.len()
    }

    /// The type of the record.
    pub fn record_type(&self) -> (r: &RecordType)
        ensures
            r@ == self@.ty,
    {
        &self.ty
    }

    /// Whether the field at `i` is present.
    pub fn is_some_field(&self, i: usize) -> (r: bool)
        requires
            self.wf(),
            i < self@.values.len(),
        ensures
            r == self@.values[i as int] is Some,
    {
        self.values[i].is_some()
    }

    /// Whether the field at `i` is present and sane.
    pub fn is_sanity_field(&self, i: usize) -> (r: bool)
        requires
            self.wf(),
            i < self@.values.len(),
        ensures
            r == (self@.values[i as int] is Some && field_sane(
                self@.ty.fields[i as int],
                self@.values[i as int]->0,
            )),
    {
        proof {
            assert(self.ty@.fields[i as int] == self.ty.fields@[i as int]@);
        }
        match &self.values[i] {
            Some(v) => self.ty.fields[i].is_sane(v),
            None => false,
        }
    }

    /// The scalar at `j` of the field at `i`, where the field is present.
    pub fn get(&self, i: usize, j: usize) -> (r: Option<u128>)
        requires
            self.wf(),
            i < self@.values.len(),
        ensures
            self@.values[i as int] is None ==> r is None,
            self@.values[i as int] is Some ==> (if j < self@.values[i as int]->0.len() {
                r == Some(self@.values[i as int]->0[j as int])
            } else {
                r is None
            }),
    {
        match &self.values[i] {
            Some(v) => if j < v.len() {
                Some(v[j])
            } else {
                None
            },
            None => None,
        }
    }

    /// Sets the scalar at `j` of the field at `i` to `raw`, where the field
    /// is present and has such a scalar; returns whether it did.
    pub fn set(&mut self, i: usize, j: usize, raw: u128) -> (r: bool)
        requires
            old(self).wf(),
            i < old(self)@.values.len(),
        ensures
            final(self).wf(),
            final(self)@.ty == old(self)@.ty,
            r == (old(self)@.values[i as int] is Some && j < old(self)@.values[i as int]->0.len()),
            r ==> final(self)@.values == old(self)@.values.update(
                i as int,
                Some(old(self)@.values[i as int]->0.update(j as int, raw)),
            ),
            !r ==> final(self)@.values == old(self)@.values,
    {
        let updated = match &self.values[i] {
            Some(v) => {
                if j >= v.len() {
                    return false;
                }
                let mut w: Vec<u128> = Vec::new();
                let mut k: usize = 0;
                while k < v.len()
                    invariant
                        k <= v@.len(),
                        j < v@.len(),
                        w@ == v@.update(j as int, raw).take(k as int),
                    decreases v@.len() - k,
                {
                    if k == j {
                        w.push(raw);
                    } else {
                        w.push(v[k]);
                    }
                    assert(w@ =~= v@.update(j as int, raw).take(k + 1));
                    k = k + 1;
                }
                assert(w@ =~= v@.update(j as int, raw));
                w
            },
            None => {
                return false;
            },
        };
        let ghost before = self.values@;
        self.values.set(i, Some(updated));
        assert(values_view(self.values@) =~= values_view(before).update(
            i as int,
            Some(values_view(before)[i as int]->0.update(j as int, raw)),
        ));
        true
    }

    /// Makes the field at `i` present with the scalars `vals`, where it has
    /// as many scalars as `vals`; returns whether it did.
    pub fn set_field(&mut self, i: usize, vals: Vec<u128>) -> (r: bool)
        requires
            old(self).wf(),
            i < old(self)@.values.len(),
        ensures
            final(self).wf(),
            final(self)@.ty == old(self)@.ty,
            r == (vals@.len() == old(self)@.ty.fields[i as int].len()),
            r ==> final(self)@.values == old(self)@.values.update(i as int, Some(vals@)),
            !r ==> final(self)@.values == old(self)@.values,
    {
        assert(self@.ty.fields[i as int] == self.ty.fields@[i as int]@);
        if vals.len() != self.ty.fields[i].len() {
            return false;
        }
        let ghost before = self.values@;
        let ghost v = vals@;
        self.values.set(i, Some(vals));
        assert(values_view(self.values@) =~= values_view(before).update(i as int, Some(v)));
        true
    }

    /// Makes the field at `i` absent.
    pub fn clear_field(&mut self, i: usize)
        requires
            old(self).wf(),
            i < old(self)@.values.len(),
        ensures
            final(self).wf(),
            final(self)@.ty == old(self)@.ty,
            final(self)@.values == old(self)@.values.update(i as int, None),
    {
        let ghost before = self.values@;
        self.values.set(i, None);
        assert(values_view(self.values@) =~= values_view(before).update(i as int, None));
    }

    /// The bytes that store the record, up to its first absent field.
    pub fn to_slice(&self) -> (r: Vec<u8>)
        requires
            self.wf(),
        ensures
            r@ == encode_fields(self@.ty.fields, self@.values),
    {
        let ghost fields = self@.ty.fields;
        let ghost vals = self@.values;
        let mut out: Vec<u8> = Vec::new();
        let mut i: usize = 0;
        assert(fields.skip(0) =~= fields);
        assert(vals.skip(0) =~= vals);
        assert(out@ + encode_fields(fields, vals) =~= encode_fields(fields, vals));
        while i < self.values.len()
            invariant
                self.wf(),
                fields == self@.ty.fields,
                vals == self@.values,
                i <= vals.len(),
                forall|k: int| 0 <= k < i ==> (#[trigger] vals[k]) is Some,
                out@ + encode_fields(fields.skip(i as int), vals.skip(i as int)) == encode_fields(
                    fields,
                    vals,
                ),
            decreases vals.len() - i,
        {
            assert(fields.skip(i as int).drop_first() =~= fields.skip(i + 1));
            assert(vals.skip(i as int).drop_first() =~= vals.skip(i + 1));
            assert(fields.skip(i as int)[0] == fields[i as int]);
            match &self.values[i] {
                None => {
                    assert(out@ + Seq::<u8>::empty() =~= out@);
                    return out;
                },
                Some(v) => {
                    let f = &self.ty.fields[i];
                    assert(f@ == fields[i as int]);
                    let mut part = f.encode(v);
                    let ghost before = out@;
                    out.append(&mut part);
                    assert(out@ + encode_fields(fields.skip(i + 1), vals.skip(i + 1)) =~= before
                        + encode_fields(fields.skip(i as int), vals.skip(i as int)));
                },
            }
            i = i + 1;
        }
        assert(out@ + Seq::<u8>::empty() =~= out@);
        out
    }
}

impl FieldType {
    /// The bytes that store the scalars `vals` of the field.
    fn encode(&self, vals: &Vec<u128>) -> (r: Vec<u8>)
        requires
            self.wf(),
            vals@.len() == self@.len(),
        ensures
            r@ == encode_field(self@, vals@),
    {
        let mut out: Vec<u8> = Vec::new();
        let mut j: usize = 0;
        while j < self.leaves.len()
            invariant
                self.wf(),
                vals@.len() == self@.len(),
                j <= self@.len(),
                out@ == encode_field(self@.take(j as int), vals@.take(j as int)),
            decreases self@.len() - j,
        {
            let s = &self.leaves[j];
            assert(s.wf());
            assert(self@[j as int] == s@);
            let w = match s {
                ScalarType::Model(t) => t.width(),
                ScalarType::Flags(t) => t.width(),
            };
            let mut part = encode_le(vals[j], w);
            assert(self@.take(j + 1).drop_last() =~= self@.take(j as int));
            assert(vals@.take(j + 1).take(j as int) =~= vals@.take(j as int));
            out.append(&mut part);
            j = j + 1;
        }
        assert(self@.take(j as int) =~= self@);
        assert(vals@.take(j as int) =~= vals@);
        out
    }
}

impl ModelFromU8Array for ComposedRecord {
    /// Every field is present and sane.
    open spec fn spec_sane(&self) -> bool {
        all_sane(self@.ty.fields, self@.values)
    }

    fn is_sanity(&self) -> (r: bool) {
        if self.values.len() != self.ty.len() {
            return false;
        }
        let mut i: usize = 0;
        while i < self.values.len()
            invariant
                self.values@.len() == self@.ty.fields.len(),
                self@.values.len() == self.values@.len(),
                i <= self.values@.len(),
                forall|k: int|
                    0 <= k < i ==> (#[trigger] self@.values[k]) is Some && field_sane(
                        self@.ty.fields[k],
                        self@.values[k]->0,
                    ),
            decreases self.values@.len() - i,
        {
            assert(self@.ty.fields[i as int] == self.ty.fields@[i as int]@);
            match &self.values[i] {
                Some(v) => {
                    assert(self@.values[i as int] == Some(v@));
                    if !self.ty.fields[i].is_sane(v) {
                        return false;
                    }
                },
                None => {
                    assert(self@.values[i as int] is None);
                    return false;
                },
            }
            i = i + 1;
        }
        true
    }
}

impl ComposedFromU8Array for ComposedRecord {
    /// Every field is present.
    open spec fn spec_complete(&self) -> bool {
        all_present(self@.values)
    }

    fn is_some(&self) -> (r: bool) {
        let mut i: usize = 0;
        while i < self.values.len()
            invariant
                self@.values.len() == self.values@.len(),
                i <= self.values@.len(),
                forall|k: int| 0 <= k < i ==> (#[trigger] self@.values[k]) is Some,
            decreases self.values@.len() - i,
        {
            if self.values[i].is_none() {
                assert(self@.values[i as int] is None);
                return false;
            }
            assert(self@.values[i as int] is Some);
            i = i + 1;
        }
        true
    }
}

} // verus!
