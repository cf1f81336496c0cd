//! Scalars with declared constants: enumerated values and bit-flag sets.

use crate::endian::{
    decode_le, encode_le, le_bytes, le_value, lemma_le_bytes_len, lemma_le_round_trip,
    lemma_le_value_bound, lemma_pow256_16, lemma_pow256_monotone, pow256,
};
use crate::types::{Array, FromU8Error};
use vstd::prelude::*;
use vstd::string::StringExecFns;

verus! {

/// A value that may or may not be one the format allows.
pub trait ModelFromU8Array: Sized {
    /// The value is one the format allows.
    spec fn spec_sane(&self) -> bool;

    /// Whether the value is one the format allows.
    fn is_sanity(&self) -> (r: bool)
        ensures
            r == self.spec_sane(),
    ;
}

/// A record whose fields may be absent.
pub trait ComposedFromU8Array: ModelFromU8Array {
    /// Every field is present.
    spec fn spec_complete(&self) -> bool;

    /// Whether every field is present.
    fn is_some(&self) -> (r: bool)
        ensures
            r == self.spec_complete(),
    ;

    /// Whether some field is absent.
    fn is_none(&self) -> (r: bool)
        ensures
            r == !self.spec_complete(),
    {
        !self.is_some()
    }
}

/// A named constant of a scalar field.
#[derive(Debug, Clone)]
pub struct Constant {
    pub name: String,
    pub value: u128,
}

impl Constant {
    /// The same constant.
    pub fn clone_constant(&self) -> (r: Constant)
        ensures
            r.name@ == self.name@,
            r.value == self.value,
    {
        Constant { name: self.name.clone(), value: self.value }
    }

    /// The constant `value`, named by a copy of `name`.
    pub fn named(name: &str, value: u128) -> (r: Constant)
        ensures
            r.name@ == name@,
            r.value == value,
    {
        Constant { name: name.to_owned(), value }
    }

    /// The constant `value`, named `name`.
    pub fn new(name: String, value: u128) -> (r: Constant)
        ensures
            r.name@ == name@,
            r.value == value,
    {
        Constant { name, value }
    }
}

/// The values of `cs`, in order.
pub open spec fn values_of(cs: Seq<Constant>) -> Seq<u128> {
    cs.map_values(|c: Constant| c.value)
}

/// The width in bytes of a scalar field and its declared constants, each of
/// which fits in that width.
#[derive(Debug, Clone)]
pub struct Table {
    width: usize,
    constants: Vec<Constant>,
}

/// What a table says: the width, and the names and values of its constants,
/// in order of declaration.
pub struct TableView {
    pub width: nat,
    pub names: Seq<Seq<char>>,
    pub values: Seq<u128>,
}

impl View for Table {
    type V = TableView;

    closed spec fn view(&self) -> TableView {
        TableView {
            width: self.width as nat,
            names: self.constants@.map_values(|c: Constant| c.name@),
            values: values_of(self.constants@),
        }
    }
}

impl Table {
    /// The number of bytes that store the scalar.
    pub open spec fn spec_width(&self) -> nat {
        self@.width
    }

    /// The declared values, in order of declaration.
    pub open spec fn spec_values(&self) -> Seq<u128> {
        self@.values
    }

    /// The width is that of an integer type and every constant fits in it.
    pub open spec fn wf(&self) -> bool {
        &&& 1 <= self@.width <= 16
        &&& forall|i: int|
            0 <= i < self@.values.len() ==> #[trigger] self@.values[i] < pow256(self@.width)
    }

    /// A table that says the same.
    pub fn duplicate(&self) -> (r: Table)
        ensures
            r@ == self@,
    {
        let mut constants: Vec<Constant> = Vec::new();
        let mut i: usize = 0;
        while i < self.constants.len()
            invariant
                i <= self.constants@.len(),
                constants@.len() == i,
                forall|j: int|
                    0 <= j < i ==> (#[trigger] constants@[j]).name@ == self.constants@[j].name@
                        && constants@[j].value == self.constants@[j].value,
            decreases self.constants@.len() - i,
        {
            constants.push(self.constants[i].clone_constant());
            i = i + 1;
        }
        let r = Table { width: self.width, constants };
        assert(r@.names =~= self@.names);
        assert(r@.values =~= self@.values);
        r
    }

    /// The table of `constants` for a scalar of `width` bytes; `None` where the
    /// width is not between 1 and 16 or a constant does not fit in it.
    pub fn new(width: usize, constants: Vec<Constant>) -> (r: Option<Table>)
        ensures
            r is Some <==> (1 <= width <= 16 && forall|i: int|
                0 <= i < constants@.len() ==> (#[trigger] constants@[i]).value < pow256(
                    width as nat,
                )),
            r is Some ==> r->0.wf() && r->0@.width == width && r->0@.values == values_of(
                constants@,
            ) && r->0@.names == constants@.map_values(|c: Constant| c.name@),
    {
        if width < 1 || width > 16 {
            return None;
        }
        let limit = max_of_width(width);
        let mut i: usize = 0;
        while i < constants.len()
            invariant
                1 <= width <= 16,
                limit as nat + 1 == pow256(width as nat),
                i <= constants@.len(),
                forall|j: int| 0 <= j < i ==> (#[trigger] constants@[j]).value < pow256(width as nat),
            decreases constants@.len() - i,
        {
            if constants[i].value > limit {
                return None;
            }
            i = i + 1;
        }
        let r = Table { width, constants };
        assert forall|i: int| 0 <= i < r@.values.len() implies #[trigger] r@.values[i] < pow256(
            r@.width,
        ) by {
            assert(r@.values[i] == constants@[i].value);
        }
        Some(r)
    }

    /// The table of a scalar of `width` bytes that declares no constant.
    pub fn free(width: usize) -> (r: Table)
        requires
            1 <= width <= 16,
        ensures
            r.wf(),
            r@.width == width,
            r@.values == Seq::<u128>::empty(),
            r@.names == Seq::<Seq<char>>::empty(),
    {
        let r = Table { width, constants: Vec::new() };
        assert(r@.values =~= Seq::<u128>::empty());
        assert(r@.names =~= Seq::<Seq<char>>::empty());
        r
    }

    /// The table with one more constant, `value` named `name`, declared
    /// last; the value must fit in the width.
    pub fn with_constant(self, name: &str, value: u128) -> (r: Table)
        requires
            self.wf(),
            value < pow256(self@.width),
        ensures
            r.wf(),
            r@.width == self@.width,
            r@.values == self@.values.push(value),
            r@.names == self@.names.push(name@),
    {
        let Table { width, mut constants } = self;
        let ghost before = constants@;
        constants.push(Constant::named(name, value));
        let r = Table { width, constants };
        assert(r@.values =~= self@.values.push(value));
        assert(r@.names =~= self@.names.push(name@));
        assert forall|i: int| 0 <= i < r@.values.len() implies #[trigger] r@.values[i] < pow256(
            r@.width,
        ) by {
            if i < before.len() {
                assert(r@.values[i] == self@.values[i]);
            }
        }
        r
    }

    /// The table of the named constants `pairs`, in order, for a scalar of
    /// `width` bytes; every value must fit in the width.
    pub fn from_pairs(width: usize, pairs: &[(&str, u128)]) -> (r: Table)
        requires
            1 <= width <= 16,
            forall|i: int| 0 <= i < pairs@.len() ==> (#[trigger] pairs@[i]).1 < pow256(width as nat),
        ensures
            r.wf(),
            r@.width == width,
            r@.values == pairs@.map_values(|p: (&str, u128)| p.1),
            r@.names == pairs@.map_values(|p: (&str, u128)| p.0@),
    {
        let mut cs: Vec<Constant> = Vec::new();
        let mut i: usize = 0;
        while i < pairs.len()
            invariant
                i <= pairs@.len(),
                cs@.len() == i,
                forall|j: int|
                    0 <= j < i ==> (#[trigger] cs@[j]).value == pairs@[j].1 && cs@[j].name@
                        == pairs@[j].0@,
            decreases pairs@.len() - i,
        {
            let (name, value) = pairs[i];
            cs.push(Constant::named(name, value));
            i = i + 1;
        }
        let r = Table { width, constants: cs };
        assert(r@.values =~= pairs@.map_values(|p: (&str, u128)| p.1));
        assert(r@.names =~= pairs@.map_values(|p: (&str, u128)| p.0@));
        assert forall|i: int| 0 <= i < r@.values.len() implies #[trigger] r@.values[i] < pow256(
            r@.width,
        ) by {
            assert(r@.values[i] == pairs@[i].1);
        }
        r
    }

    /// The number of bytes that store the scalar.
    pub fn width(&self) -> (r: usize)
        ensures
            r == self.spec_width(),
    {
        self.width
    }

    /// The declared constants.
    pub fn constants(&self) -> (r: &Vec<Constant>)
        ensures
            values_of(r@) == self@.values,
            r@.map_values(|c: Constant| c.name@) == self@.names,
    {
        &self.constants
    }

    /// Whether `raw` is one of the declared values.
    pub fn declares(&self, raw: u128) -> (r: bool)
        ensures
            r == self.spec_values().contains(raw),
    {
        let mut i: usize = 0;
        while i < self.constants.len()
            invariant
                i <= self.constants@.len(),
                forall|j: int| 0 <= j < i ==> (#[trigger] self.constants@[j]).value != raw,
            decreases self.constants@.len() - i,
        {
            if self.constants[i].value == raw {
                assert(self@.values[i as int] == raw);
                return true;
            }
            i = i + 1;
        }
        assert forall|j: int| 0 <= j < self@.values.len() implies self@.values[j] != raw by {
            assert(self.constants@[j].value != raw);
        }
        false
    }

    /// The union of the declared values, as bits.
    pub fn mask(&self) -> (r: u128)
        ensures
            r == mask_of(self.spec_values()),
    {
        let mut m: u128 = 0;
        let mut i: usize = 0;
        while i < self.constants.len()
            invariant
                i <= self.constants@.len(),
                m == mask_of(self.spec_values().take(i as int)),
            decreases self.constants@.len() - i,
        {
            assert(self.spec_values().take(i + 1).drop_last() =~= self.spec_values().take(
                i as int,
            ));
            assert(self.spec_values()[i as int] == self.constants@[i as int].value);
            m = m | self.constants[i].value;
            i = i + 1;
        }
        assert(self.spec_values().take(i as int) =~= self.spec_values());
        m
    }

    /// The first declared constant whose name is `name`, by position.
    pub fn find(&self, name: &str) -> (r: Option<usize>)
        ensures
            match r {
                Some(i) => {
                    &&& first_named(self@.names, name@) == i as int
                    &&& i < self@.names.len()
                    &&& i < self@.values.len()
                },
                None => first_named(self@.names, name@) == -1,
            },
    {
        let wanted = name.to_owned();
        let mut i: usize = 0;
        while i < self.constants.len()
            invariant
                i <= self.constants@.len(),
                wanted@ == name@,
                forall|j: int| 0 <= j < i ==> (#[trigger] self.constants@[j]).name@ != name@,
            decreases self.constants@.len() - i,
        {
            if self.constants[i].name == wanted {
                assert(self@.names[i as int] == name@);
                assert(forall|j: int| 0 <= j < i ==> self@.names[j] == self.constants@[j].name@);
                proof {
                    lemma_first_named(self@.names, name@, i as int);
                }
                return Some(i);
            }
            i = i + 1;
        }
        assert(forall|j: int| 0 <= j < i ==> self@.names[j] == self.constants@[j].name@);
        proof {
            lemma_first_named(self@.names, name@, i as int);
        }
        None
    }
}

/// The position of the first of `names` equal to `name`, or `-1`.
pub open spec fn first_named(names: Seq<Seq<char>>, name: Seq<char>) -> int
    decreases names.len(),
{
    if names.len() == 0 {
        -1
    } else if names[0] == name {
        0
    } else {
        let r = first_named(names.drop_first(), name);
        if r < 0 {
            -1
        } else {
            r + 1
        }
    }
}

proof fn lemma_first_named(names: Seq<Seq<char>>, name: Seq<char>, i: int)
    requires
        0 <= i <= names.len(),
        forall|j: int| 0 <= j < i ==> names[j] != name,
        i == names.len() || names[i] == name,
    ensures
        first_named(names, name) == if i == names.len() {
            -1
        } else {
            i
        },
    decreases i,
{
    if i > 0 {
        lemma_first_named(names.drop_first(), name, i - 1);
    }
}

/// The bitwise union of `vs`.
pub open spec fn mask_of(vs: Seq<u128>) -> u128
    decreases vs.len(),
{
    if vs.len() == 0 {
        0
    } else {
        mask_of(vs.drop_last()) | vs.last()
    }
}

/// The largest number that `width` bytes store.
fn max_of_width(width: usize) -> (r: u128)
    requires
        1 <= width <= 16,
    ensures
        r as nat + 1 == pow256(width as nat),
{
    let mut p: u128 = 255;
    let mut i: usize = 1;
    proof {
        lemma_pow256_16();
    }
    while i < width
        invariant
            1 <= i <= width <= 16,
            p as nat + 1 == pow256(i as nat),
        decreases width - i,
    {
        proof {
            lemma_pow256_monotone(i as nat, 15);
            lemma_pow256_16();
        }
        assert(p * 256 + 255 + 1 == 256 * pow256(i as nat)) by (nonlinear_arith)
            requires
                p + 1 == pow256(i as nat),
        ;
        assert(256 * pow256(i as nat) <= pow256(16)) by (nonlinear_arith)
            requires
                pow256(i as nat) <= pow256(15),
                pow256(16) == 256 * pow256(15),
        ;
        p = p * 256 + 255;
        i = i + 1;
    }
    p
}

/// The scalar that the first `t.spec_width()` bytes of `bytes` store.
pub open spec fn read_scalar(t: Table, bytes: Seq<u8>) -> u128 {
    le_value(bytes.take(t.spec_width() as int)) as u128
}

/// The bytes that store `raw` in a scalar of table `t`.
pub open spec fn write_scalar(t: Table, raw: u128) -> Seq<u8> {
    le_bytes(raw as nat, t.spec_width())
}

/// Reads the scalar at the front of `bytes`, where `t.width()` bytes remain.
fn read_raw(t: &Table, bytes: &[u8]) -> (r: Option<u128>)
    requires
        t.wf(),
    ensures
        r is Some <==> bytes@.len() >= t.spec_width(),
        r is Some ==> r->0 == read_scalar(*t, bytes@) && r->0 < pow256(t.spec_width()),
{
    let w = t.width();
    if bytes.len() < w {
        return None;
    }
    proof {
        lemma_pow256_monotone(w as nat, 16);
        lemma_pow256_16();
        lemma_le_value_bound(bytes@.take(w as int));
    }
    let r = decode_le(bytes, 0, w);
    assert(bytes@.subrange(0, w as int) =~= bytes@.take(w as int));
    Some(r)
}

/// Writing a scalar that fits and reading it back gives it back.
pub proof fn lemma_scalar_round_trip(t: Table, raw: u128)
    requires
        t.wf(),
        raw < pow256(t.spec_width()),
    ensures
        write_scalar(t, raw).len() == t.spec_width(),
        read_scalar(t, write_scalar(t, raw)) == raw,
{
    lemma_le_bytes_len(raw as nat, t.spec_width());
    lemma_le_round_trip(raw as nat, t.spec_width());
    assert(write_scalar(t, raw).take(t.spec_width() as int) =~= write_scalar(t, raw));
}

impl<T: ModelFromU8Array, const N: usize> ModelFromU8Array for Array<T, N> {
    /// Every element is sane; so an array without elements is.
    open spec fn spec_sane(&self) -> bool {
        forall|i: int| 0 <= i < N ==> (#[trigger] self.elements()[i]).spec_sane()
    }

    fn is_sanity(&self) -> (r: bool) {
        let items = self.inner();
        let mut i: usize = 0;
        while i < items.len()
            invariant
                items@ == self.elements(),
                items@.len() == N,
                i <= N,
                forall|j: int| 0 <= j < i ==> (#[trigger] self.elements()[j]).spec_sane(),
            decreases N - i,
        {
            if !items[i].is_sanity() {
                return false;
            }
            i = i + 1;
        }
        true
    }
}

/// A scalar whose sane values are the declared constants. A table that
/// declares no constant puts no restriction on the value.
#[derive(Debug, Clone)]
pub struct ModelValue {
    table: Table,
    raw: u128,
}

impl ModelValue {
    pub closed spec fn spec_table(&self) -> Table {
        self.table
    }

    pub closed spec fn spec_raw(&self) -> u128 {
        self.raw
    }

    /// The table is well formed and the value fits in its width.
    pub open spec fn wf(&self) -> bool {
        &&& self.spec_table().wf()
        &&& self.spec_raw() < pow256(self.spec_table().spec_width())
    }

    /// The value `raw` of a scalar with table `table`; `None` where it does
    /// not fit in the table's width.
    pub fn new(table: Table, raw: u128) -> (r: Option<ModelValue>)
        requires
            table.wf(),
        ensures
            r is Some <==> raw < pow256(table.spec_width()),
            r is Some ==> r->0.wf() && r->0.spec_table()@ == table@ && r->0.spec_raw() == raw,
    {
        proof {
            }
        if raw > max_of_width(table.width()) {
            None
        } else {
            Some(ModelValue { table, raw })
        }
    }

    /// The value, as an unsigned number.
    pub fn inner(&self) -> (r: u128)
        ensures
            r == self.spec_raw(),
    {
        self.raw
    }

    /// The table of the scalar.
    pub fn table(&self) -> (r: &Table)
        ensures
            *r == self.spec_table(),
    {
        &self.table
    }

    /// Whether the value is one of the declared constants.
    pub fn is_constant(&self) -> (r: bool)
        ensures
            r == self.spec_table().spec_values().contains(self.spec_raw()),
    {
        self.table.declares(self.raw)
    }

    /// Whether the value is the constant named `name` (the first one of that name).
    pub fn is_named(&self, name: &str) -> (r: bool)
        ensures
            r == (first_named(self.spec_table()@.names, name@) >= 0 && self.spec_table()@.values[first_named(
                self.spec_table()@.names,
                name@,
            )] == self.spec_raw()),
    {
        match self.table.find(name) {
            Some(i) => {
                let cs = self.table.constants();
                assert(values_of(cs@)[i as int] == cs@[i as int].value);
                cs[i].value == self.raw
            },
            None => false,
        }
    }

    /// Reads a scalar of table `table` from the front of `bytes`: an error
    /// where fewer than its width remain, the value where it is sane, and the
    /// value marked invalid where it is not.
    pub fn parse(table: &Table, bytes: &[u8]) -> (r: Result<(usize, ModelValue), FromU8Error<ModelValue>>)
        requires
            table.wf(),
        ensures
            bytes@.len() < table.spec_width() ==> r == Err::<(usize, ModelValue), FromU8Error<ModelValue>>(FromU8Error::NotEnoughSlice(None)),
            bytes@.len() >= table.spec_width() ==> match r {
                Ok((read, v)) => read == table.spec_width() && v.spec_table()@ == table@
                    && v.spec_raw() == read_scalar(*table, bytes@) && v.spec_sane() && v.wf(),
                Err(FromU8Error::InvalidValue((read, Some(v)))) => read == table.spec_width()
                    && v.spec_table()@ == table@ && v.spec_raw() == read_scalar(*table, bytes@)
                    && !v.spec_sane() && v.wf(),
                _ => false,
            },
    {
        match read_raw(table, bytes) {
            None => Err(FromU8Error::NotEnoughSlice(None)),
            Some(raw) => {
                let v = ModelValue { table: table.duplicate(), raw };
                if v.is_sanity() {
                    Ok((table.width(), v))
                } else {
                    Err(FromU8Error::InvalidValue((table.width(), Some(v))))
                }
            },
        }
    }

    /// The bytes that store the value.
    pub fn to_slice(&self) -> (r: Vec<u8>)
        requires
            self.wf(),
        ensures
            r@ == write_scalar(self.spec_table(), self.spec_raw()),
    {
        proof {
            }
        encode_le(self.raw, self.table.width())
    }
}

proof fn lemma_declared_within_mask(vs: Seq<u128>, i: int)
    requires
        0 <= i < vs.len(),
    ensures
        vs[i] & !mask_of(vs) == 0,
    decreases vs.len(),
{
    let a = mask_of(vs.drop_last());
    let b = vs.last();
    let v = vs[i];
    if i == vs.len() - 1 {
        assert(b & !(a | b) == 0) by (bit_vector);
    } else {
        lemma_declared_within_mask(vs.drop_last(), i);
        assert(vs.drop_last()[i] == v);
        assert(v & !a == 0 ==> v & !(a | b) == 0) by (bit_vector);
    }
}

/// Reading the stored bytes of a declared constant of a table gives the
/// constant back, in as many bytes as the width, and as a sane value both of
/// an enumerated scalar (it is declared) and of a set of flags (it sets no
/// bit outside the declared ones): so `ModelValue::parse` and
/// `BitFlagValue::parse` return it as `Ok`.
pub proof fn lemma_constant_round_trip(t: Table, i: int)
    requires
        t.wf(),
        0 <= i < t@.values.len(),
    ensures
        read_scalar(t, write_scalar(t, t@.values[i])) == t@.values[i],
        write_scalar(t, t@.values[i]).len() == t@.width,
        t@.values.contains(read_scalar(t, write_scalar(t, t@.values[i]))),
        read_scalar(t, write_scalar(t, t@.values[i])) & !mask_of(t@.values) == 0,
{
    lemma_scalar_round_trip(t, t@.values[i]);
    lemma_declared_within_mask(t@.values, i);
}

/// The largest value that a scalar of table `t` holds, as bits.
pub open spec fn width_mask(t: Table) -> u128 {
    (pow256(t@.width) - 1) as u128
}

proof fn lemma_and_bounded(x: u128, m: u128)
    ensures
        x & m <= m,
{
    assert(x & m <= m) by (bit_vector);
}

proof fn lemma_clear_union(raw: u128, vs: Seq<u128>)
    requires
        raw & mask_of(vs) == 0,
    ensures
        forall|i: int| 0 <= i < vs.len() ==> raw & #[trigger] vs[i] == 0,
    decreases vs.len(),
{
    if vs.len() > 0 {
        let a = mask_of(vs.drop_last());
        let b = vs.last();
        assert(raw & (a | b) == 0 ==> raw & a == 0 && raw & b == 0) by (bit_vector);
        lemma_clear_union(raw, vs.drop_last());
        assert forall|i: int| 0 <= i < vs.len() implies raw & #[trigger] vs[i] == 0 by {
            if i < vs.len() - 1 {
                assert(vs.drop_last()[i] == vs[i]);
            }
        }
    }
}

/// A set of bit flags: its sane values are those with no bit set outside the
/// declared constants. A table that declares no constant allows only zero.
#[derive(Debug, Clone)]
pub struct BitFlagValue {
    table: Table,
    raw: u128,
}

impl ModelFromU8Array for ModelValue {
    /// The value is a declared constant, or nothing is declared.
    open spec fn spec_sane(&self) -> bool {
        let vs = self.spec_table()@.values;
        vs.len() == 0 || vs.contains(self.spec_raw())
    }

    fn is_sanity(&self) -> (r: bool) {
        self.table.constants().len() == 0 || self.table.declares(self.raw)
    }
}

impl ModelFromU8Array for BitFlagValue {
    /// No bit is set outside the declared constants.
    open spec fn spec_sane(&self) -> bool {
        self.spec_raw() & !mask_of(self.spec_table()@.values) == 0
    }

    fn is_sanity(&self) -> (r: bool) {
        self.raw & !self.table.mask() == 0
    }
}

impl BitFlagValue {
    pub closed spec fn spec_table(&self) -> Table {
        self.table
    }

    pub closed spec fn spec_raw(&self) -> u128 {
        self.raw
    }

    /// The table is well formed and the value fits in its width.
    pub open spec fn wf(&self) -> bool {
        &&& self.spec_table().wf()
        &&& self.spec_raw() < pow256(self.spec_table()@.width)
    }

    /// No declared constant has a bit set in the value.
    pub open spec fn spec_empty(&self) -> bool {
        forall|i: int|
            0 <= i < self.spec_table()@.values.len() ==> self.spec_raw()
                & #[trigger] self.spec_table()@.values[i] == 0
    }

    /// The flags `raw` of a set with table `table`; `None` where they do not
    /// fit in the table's width.
    pub fn new(table: Table, raw: u128) -> (r: Option<BitFlagValue>)
        requires
            table.wf(),
        ensures
            r is Some <==> raw < pow256(table@.width),
            r is Some ==> r->0.wf() && r->0.spec_table()@ == table@ && r->0.spec_raw() == raw,
    {
        if raw > max_of_width(table.width()) {
            None
        } else {
            Some(BitFlagValue { table, raw })
        }
    }

    /// The flags, as an unsigned number.
    pub fn inner(&self) -> (r: u128)
        ensures
            r == self.spec_raw(),
    {
        self.raw
    }

    /// The table of the set.
    pub fn table(&self) -> (r: &Table)
        ensures
            r@ == self.spec_table()@,
    {
        &self.table
    }

    /// Whether no bit at all is set.
    pub fn is_zero(&self) -> (r: bool)
        ensures
            r == (self.spec_raw() == 0),
    {
        self.raw == 0
    }

    /// Whether no declared constant has a bit set; bits outside the declared
    /// constants do not count.
    pub fn is_empty(&self) -> (r: bool)
        ensures
            r == self.spec_empty(),
    {
        let cs = self.table.constants();
        let mut i: usize = 0;
        while i < cs.len()
            invariant
                i <= cs@.len(),
                values_of(cs@) == self.table@.values,
                forall|j: int| 0 <= j < i ==> self.raw & #[trigger] values_of(cs@)[j] == 0,
            decreases cs@.len() - i,
        {
            assert(values_of(cs@)[i as int] == cs@[i as int].value);
            if self.raw & cs[i].value != 0 {
                assert(self.spec_table()@.values[i as int] == cs@[i as int].value);
                return false;
            }
            i = i + 1;
        }
        true
    }

    /// Whether any bit of `pos` is set.
    pub fn get(&self, pos: u128) -> (r: bool)
        ensures
            r == (self.spec_raw() & pos != 0),
    {
        self.raw & pos != 0
    }

    /// Sets the bits of `pos` where `val` holds and clears them where it does
    /// not; bits beyond the width stay clear. Returns whether any bit of
    /// `pos` was set before.
    pub fn set(&mut self, pos: u128, val: bool) -> (r: bool)
        requires
            old(self).wf(),
        ensures
            r == (old(self).spec_raw() & pos != 0),
            final(self).wf(),
            final(self).spec_table() == old(self).spec_table(),
            final(self).spec_raw() == (if val {
                old(self).spec_raw() | pos
            } else {
                old(self).spec_raw() & !pos
            }) & width_mask(old(self).spec_table()),
    {
        let previous = self.get(pos);
        let limit = max_of_width(self.table.width());
        let next = if val {
            self.raw | pos
        } else {
            self.raw & !pos
        };
        proof {
            lemma_and_bounded(next, limit);
        }
        self.raw = next & limit;
        previous
    }

    /// Sets the bits of `pos`; returns whether any was set before.
    pub fn on(&mut self, pos: u128) -> (r: bool)
        requires
            old(self).wf(),
        ensures
            r == (old(self).spec_raw() & pos != 0),
            final(self).wf(),
            final(self).spec_table() == old(self).spec_table(),
            final(self).spec_raw() == (old(self).spec_raw() | pos) & width_mask(
                old(self).spec_table(),
            ),
    {
        self.set(pos, true)
    }

    /// Clears the bits of `pos`; returns whether any was set before.
    pub fn off(&mut self, pos: u128) -> (r: bool)
        requires
            old(self).wf(),
        ensures
            r == (old(self).spec_raw() & pos != 0),
            final(self).wf(),
            final(self).spec_table() == old(self).spec_table(),
            final(self).spec_raw() == (old(self).spec_raw() & !pos) & width_mask(
                old(self).spec_table(),
            ),
    {
        self.set(pos, false)
    }

    /// Clears the bits of `pos` where any is set, and sets them otherwise;
    /// returns whether any was set before.
    pub fn toggle(&mut self, pos: u128) -> (r: bool)
        requires
            old(self).wf(),
        ensures
            r == (old(self).spec_raw() & pos != 0),
            final(self).wf(),
            final(self).spec_table() == old(self).spec_table(),
            final(self).spec_raw() == (if r {
                old(self).spec_raw() & !pos
            } else {
                old(self).spec_raw() | pos
            }) & width_mask(old(self).spec_table()),
    {
        let was = self.get(pos);
        self.set(pos, !was)
    }

    /// Whether bit `at` is set.
    pub fn get_at(&self, at: u32) -> (r: bool)
        requires
            at < 128,
        ensures
            r == (self.spec_raw() & (1u128 << at) != 0),
    {
        self.get(1u128 << at)
    }

    /// Sets bit `at` where `val` holds and clears it where it does not;
    /// returns whether it was set before.
    pub fn set_at(&mut self, at: u32, val: bool) -> (r: bool)
        requires
            old(self).wf(),
            at < 128,
        ensures
            r == (old(self).spec_raw() & (1u128 << at) != 0),
            final(self).wf(),
            final(self).spec_table() == old(self).spec_table(),
            final(self).spec_raw() == (if val {
                old(self).spec_raw() | (1u128 << at)
            } else {
                old(self).spec_raw() & !(1u128 << at)
            }) & width_mask(old(self).spec_table()),
    {
        self.set(1u128 << at, val)
    }

    /// Sets bit `at`; returns whether it was set before.
    pub fn on_at(&mut self, at: u32) -> (r: bool)
        requires
            old(self).wf(),
            at < 128,
        ensures
            r == (old(self).spec_raw() & (1u128 << at) != 0),
            final(self).wf(),
            final(self).spec_table() == old(self).spec_table(),
            final(self).spec_raw() == (old(self).spec_raw() | (1u128 << at)) & width_mask(
                old(self).spec_table(),
            ),
    {
        self.set(1u128 << at, true)
    }

    /// Clears bit `at`; returns whether it was set before.
    pub fn off_at(&mut self, at: u32) -> (r: bool)
        requires
            old(self).wf(),
            at < 128,
        ensures
            r == (old(self).spec_raw() & (1u128 << at) != 0),
            final(self).wf(),
            final(self).spec_table() == old(self).spec_table(),
            final(self).spec_raw() == (old(self).spec_raw() & !(1u128 << at)) & width_mask(
                old(self).spec_table(),
            ),
    {
        self.set(1u128 << at, false)
    }

    /// Flips bit `at`; returns whether it was set before.
    pub fn toggle_at(&mut self, at: u32) -> (r: bool)
        requires
            old(self).wf(),
            at < 128,
        ensures
            r == (old(self).spec_raw() & (1u128 << at) != 0),
            final(self).wf(),
            final(self).spec_table() == old(self).spec_table(),
            final(self).spec_raw() == (if r {
                old(self).spec_raw() & !(1u128 << at)
            } else {
                old(self).spec_raw() | (1u128 << at)
            }) & width_mask(old(self).spec_table()),
    {
        self.toggle(1u128 << at)
    }

    /// The value of the first constant named `name`.
    pub fn flag(&self, name: &str) -> (r: Option<u128>)
        ensures
            first_named(self.spec_table()@.names, name@) < 0 ==> r is None,
            first_named(self.spec_table()@.names, name@) >= 0 ==> r == Some(
                self.spec_table()@.values[first_named(self.spec_table()@.names, name@)],
            ),
    {
        match self.table.find(name) {
            Some(i) => {
                let cs = self.table.constants();
                assert(values_of(cs@)[i as int] == cs@[i as int].value);
                Some(cs[i].value)
            },
            None => None,
        }
    }

    /// Reads a set of table `table` from the front of `bytes`: an error
    /// where fewer than its width remain, the flags where they are sane, and
    /// the flags marked invalid where they are not.
    pub fn parse(table: &Table, bytes: &[u8]) -> (r: Result<(usize, BitFlagValue), FromU8Error<BitFlagValue>>)
        requires
            table.wf(),
        ensures
            bytes@.len() < table@.width ==> r == Err::<(usize, BitFlagValue), FromU8Error<BitFlagValue>>(FromU8Error::NotEnoughSlice(None)),
            bytes@.len() >= table@.width ==> match r {
                Ok((read, v)) => read == table@.width && v.spec_table()@ == table@
                    && v.spec_raw() == read_scalar(*table, bytes@) && v.spec_sane() && v.wf(),
                Err(FromU8Error::InvalidValue((read, Some(v)))) => read == table@.width
                    && v.spec_table()@ == table@ && v.spec_raw() == read_scalar(*table, bytes@)
                    && !v.spec_sane() && v.wf(),
                _ => false,
            },
    {
        match read_raw(table, bytes) {
            None => Err(FromU8Error::NotEnoughSlice(None)),
            Some(raw) => {
                let v = BitFlagValue { table: table.duplicate(), raw };
                if v.is_sanity() {
                    Ok((table.width(), v))
                } else {
                    Err(FromU8Error::InvalidValue((table.width(), Some(v))))
                }
            },
        }
    }

    /// The bytes that store the flags.
    pub fn to_slice(&self) -> (r: Vec<u8>)
        requires
            self.wf(),
        ensures
            r@ == write_scalar(self.spec_table(), self.spec_raw()),
    {
        encode_le(self.raw, self.table.width())
    }
}

/// The decimal digit `d`.
pub open spec fn digit_char(d: nat) -> char {
    if d == 0 { '0' } else if d == 1 { '1' } else if d == 2 { '2' } else if d == 3 { '3' }
    else if d == 4 { '4' } else if d == 5 { '5' } else if d == 6 { '6' } else if d == 7 { '7' }
    else if d == 8 { '8' } else { '9' }
}

/// `n` written in decimal.
pub open spec fn decimal(n: nat) -> Seq<char>
    decreases n,
{
    if n < 10 {
        seq![digit_char(n)]
    } else {
        decimal(n / 10) + seq![digit_char(n % 10)]
    }
}

/// What is written for the first `k` declared constants of `t` when
/// describing the flags `raw`: the text so far, the bits not yet named, and
/// whether a name was written.
pub open spec fn named_flags(t: TableView, raw: u128, k: nat) -> (Seq<char>, u128, bool)
    decreases k,
{
    if k == 0 {
        (Seq::empty(), raw, false)
    } else {
        let (text, rest, wrote) = named_flags(t, raw, (k - 1) as nat);
        let v = t.values[k - 1];
        if rest & v != 0 {
            let sep = if wrote { seq![' ', '|', ' '] } else { Seq::empty() };
            (text + sep + t.names[k - 1], rest & !v, true)
        } else {
            (text, rest, wrote)
        }
    }
}

/// The text of the flags `raw` of table `t`: in parentheses, the names of
/// the declared constants that have a bit set, in order of declaration and
/// separated by " | ", then the bits left over as "Unknown(n)".
pub open spec fn flags_text(t: TableView, raw: u128) -> Seq<char> {
    let (text, rest, wrote) = named_flags(t, raw, t.values.len());
    let unknown = if rest == 0 {
        Seq::empty()
    } else {
        (if wrote { seq![' ', '|', ' '] } else { Seq::empty() }) + seq!['U', 'n', 'k', 'n', 'o', 'w', 'n', '(']
            + decimal(rest as nat) + seq![')']
    };
    seq!['('] + text + unknown + seq![')']
}

/// The decimal digit `d`, as text.
fn digit_str(d: u128) -> (r: &'static str)
    requires
        d < 10,
    ensures
        r@ == seq![digit_char(d as nat)],
{
    proof {
        reveal_strlit("0");
        reveal_strlit("1");
        reveal_strlit("2");
        reveal_strlit("3");
        reveal_strlit("4");
        reveal_strlit("5");
        reveal_strlit("6");
        reveal_strlit("7");
        reveal_strlit("8");
        reveal_strlit("9");
    }
    if d == 0 { "0" } else if d == 1 { "1" } else if d == 2 { "2" } else if d == 3 { "3" }
    else if d == 4 { "4" } else if d == 5 { "5" } else if d == 6 { "6" } else if d == 7 { "7" }
    else if d == 8 { "8" } else { "9" }
}

/// Writes `n` in decimal at the end of `s`.
fn append_decimal(s: &mut String, n: u128)
    ensures
        final(s)@ == old(s)@ + decimal(n as nat),
    decreases n,
{
    if n >= 10 {
        append_decimal(s, n / 10);
    }
    s.append(digit_str(n % 10));
    assert(final(s)@ == old(s)@ + decimal(n as nat)) by {
        if n >= 10 {
            assert(old(s)@ + decimal(n as nat) =~= old(s)@ + decimal((n / 10) as nat) + seq![digit_char((n % 10) as nat)]);
        }
    }
}

impl BitFlagValue {
    /// The flags as text, such as "(B0 | B2 | Unknown(8))".
    pub fn describe(&self) -> (r: String)
        ensures
            r@ == flags_text(self.spec_table()@, self.spec_raw()),
    {
        let ghost tv = self.table@;
        proof {
            reveal_strlit("(");
            reveal_strlit(")");
            reveal_strlit(" | ");
            reveal_strlit("Unknown(");
        }
        let mut s = String::new();
        s.append("(");
        let cs = self.table.constants();
        let mut rest = self.raw;
        let mut wrote = false;
        let mut i: usize = 0;
        while i < cs.len()
            invariant
                tv == self.table@,
                values_of(cs@) == tv.values,
                cs@.map_values(|c: Constant| c.name@) == tv.names,
                i <= cs@.len(),
                s@ == seq!['('] + named_flags(tv, self.raw, i as nat).0,
                rest == named_flags(tv, self.raw, i as nat).1,
                wrote == named_flags(tv, self.raw, i as nat).2,
            decreases cs@.len() - i,
        {
            let c = &cs[i];
            assert(tv.values[i as int] == c.value);
            assert(tv.names[i as int] == c.name@);
            let ghost prev = named_flags(tv, self.raw, i as nat);
            assert(((i + 1) as nat - 1) as nat == i as nat);
            assert(named_flags(tv, self.raw, (i + 1) as nat) == (if prev.1 & tv.values[i as int] != 0 {
                (prev.0 + (if prev.2 { seq![' ', '|', ' '] } else { Seq::empty() }) + tv.names[i as int], prev.1 & !tv.values[i as int], true)
            } else {
                prev
            }));
            if rest & c.value != 0 {
                let ghost before = s@;
                proof {
                    reveal_strlit(" | ");
                }
                if wrote {
                    s.append(" | ");
                }
                let name = c.name.as_str();
                assert(name@ == c.name@);
                s.append(name);
                rest = rest & !c.value;
                wrote = true;
                assert(s@ =~= seq!['('] + named_flags(tv, self.raw, (i + 1) as nat).0);
            }
            i = i + 1;
        }
        let ghost listed = s@;
        if rest != 0 {
            if wrote {
                s.append(" | ");
            }
            s.append("Unknown(");
            append_decimal(&mut s, rest);
            s.append(")");
        }
        s.append(")");
        assert(s@ =~= flags_text(tv, self.raw));
        s
    }
}

/// A set of flags is empty when no bit is set at all, and also when the
/// only bits set are ones that no constant declares.
pub proof fn lemma_empty_flags(f: BitFlagValue)
    ensures
        f.spec_raw() == 0 ==> f.spec_empty(),
        f.spec_raw() & mask_of(f.spec_table()@.values) == 0 ==> f.spec_empty(),
{
    let raw = f.spec_raw();
    let m = mask_of(f.spec_table()@.values);
    assert(raw == 0 ==> raw & m == 0) by (bit_vector);
    if raw & m == 0 {
        lemma_clear_union(raw, f.spec_table()@.values);
    }
}

} // verus!
