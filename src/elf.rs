//! The 64-bit ELF file header and section header as record types, and the
//! checks a reader makes before resolving section names.

use crate::endian::lemma_pow256_16;
use crate::file::Sequential;
use crate::model::{Table, TableView};
use crate::record::{
    field_offset, field_size, is_free_array, is_scalar, lemma_field_offset_step,
    lemma_field_size_one, lemma_field_size_repeat, lemma_repeat, record_size, repeat,
    ComposedRecord, FieldType, RecordType, ScalarView,
};
use crate::types::FromU8Error;
use vstd::prelude::*;

verus! {

/// The position of `e_shoff` among the fields of the file header.
pub const E_SHOFF: usize = 6;

/// The position of `e_shstrndx` among the fields of the file header.
pub const E_SHSTRNDX: usize = 13;

/// The position of `sh_name` among the fields of a section header.
pub const SH_NAME: usize = 0;

/// The position of `sh_offset` among the fields of a section header.
pub const SH_OFFSET: usize = 4;

/// The section index that means "no section".
pub const SHN_UNDEF: u128 = 0;

/// The identification bytes: sixteen unrestricted single bytes.
proof fn lemma_ident(f: Seq<ScalarView>)
    requires
        f == repeat(seq![ScalarView { table: TableView { width: 1, names: Seq::empty(), values: Seq::empty() }, flags: false }], 16),
    ensures
        is_free_array(f, 16, 1),
        field_size(f) == 16,
{
    let s = ScalarView { table: TableView { width: 1, names: Seq::empty(), values: Seq::empty() }, flags: false };
    lemma_repeat(seq![s], 16);
    lemma_field_size_repeat(seq![s], 16);
    lemma_field_size_one(s);
    assert forall|j: int| 0 <= j < 16 implies (#[trigger] f[j]).table.width == 1
        && f[j].table.values.len() == 0 && !f[j].flags by {
        assert(f[j * 1 + 0] == s);
    }
}

/// The 64-bit ELF file header; `e_shstrndx` is the 2-byte scalar at 62.
pub fn elf_header() -> (r: RecordType)
    ensures
        r.wf(),
        r@.fields.len() == 14,
        is_free_array(r@.fields[0], 16, 1),
        is_scalar(r@.fields[1], 2, seq![0, 1, 2, 3, 4, 5, 0xfe00, 0xfeff, 0xff00, 0xffff], false),
        is_scalar(r@.fields[2], 2, Seq::<u128>::empty(), false),
        is_scalar(r@.fields[3], 4, seq![0, 1, 2], false),
        is_scalar(r@.fields[4], 8, Seq::<u128>::empty(), false),
        is_scalar(r@.fields[5], 8, Seq::<u128>::empty(), false),
        is_scalar(r@.fields[6], 8, Seq::<u128>::empty(), false),
        is_scalar(r@.fields[7], 4, Seq::<u128>::empty(), false),
        is_scalar(r@.fields[8], 2, Seq::<u128>::empty(), false),
        is_scalar(r@.fields[9], 2, Seq::<u128>::empty(), false),
        is_scalar(r@.fields[10], 2, Seq::<u128>::empty(), false),
        is_scalar(r@.fields[11], 2, Seq::<u128>::empty(), false),
        is_scalar(r@.fields[12], 2, Seq::<u128>::empty(), false),
        is_scalar(r@.fields[13], 2, Seq::<u128>::empty(), false),
        field_offset(r@.fields, 0) == 0,
        field_offset(r@.fields, 1) == 16,
        field_offset(r@.fields, 2) == 18,
        field_offset(r@.fields, 3) == 20,
        field_offset(r@.fields, 4) == 24,
        field_offset(r@.fields, 5) == 32,
        field_offset(r@.fields, 6) == 40,
        field_offset(r@.fields, 7) == 48,
        field_offset(r@.fields, 8) == 52,
        field_offset(r@.fields, 9) == 54,
        field_offset(r@.fields, 10) == 56,
        field_offset(r@.fields, 11) == 58,
        field_offset(r@.fields, 12) == 60,
        field_offset(r@.fields, 13) == 62,
        record_size(r@.fields) == 64,
{
    proof {
        lemma_pow256_16();
    }
    let t_e_type = Table::free(2)
        .with_constant("ET_NONE", 0)
        .with_constant("ET_REL", 1)
        .with_constant("ET_EXEC", 2)
        .with_constant("ET_DYN", 3)
        .with_constant("ET_CORE", 4)
        .with_constant("ET_NUM", 5)
        .with_constant("ET_LOOS", 0xfe00)
        .with_constant("ET_HIOS", 0xfeff)
        .with_constant("ET_LOPROC", 0xff00)
        .with_constant("ET_HIPROC", 0xffff);
    assert(t_e_type@.values =~= seq![0u128, 1u128, 2u128, 3u128, 4u128, 5u128, 0xfe00u128, 0xfeffu128, 0xff00u128, 0xffffu128]);
    let t_e_version = Table::free(4)
        .with_constant("EV_NONE", 0)
        .with_constant("EV_CURRENT", 1)
        .with_constant("EV_NUM", 2);
    assert(t_e_version@.values =~= seq![0u128, 1u128, 2u128]);
    let r = RecordType::new()
        .field("e_ident", FieldType::array(&FieldType::model(Table::free(1)), 16))
        .field("e_type", FieldType::model(t_e_type))
        .field("e_machine", FieldType::model(Table::free(2)))
        .field("e_version", FieldType::model(t_e_version))
        .field("e_entry", FieldType::model(Table::free(8)))
        .field("e_phoff", FieldType::model(Table::free(8)))
        .field("e_shoff", FieldType::model(Table::free(8)))
        .field("e_flags", FieldType::model(Table::free(4)))
        .field("e_ehsize", FieldType::model(Table::free(2)))
        .field("e_phentsize", FieldType::model(Table::free(2)))
        .field("e_phnum", FieldType::model(Table::free(2)))
        .field("e_shentsize", FieldType::model(Table::free(2)))
        .field("e_shnum", FieldType::model(Table::free(2)))
        .field("e_shstrndx", FieldType::model(Table::free(2)));
    proof {
        let fs = r@.fields;
        lemma_field_offset_step(fs, 0);
        lemma_ident(fs[0]);
        lemma_field_offset_step(fs, 1);
        assert(fs[1] =~= seq![fs[1][0]]);
        lemma_field_size_one(fs[1][0]);
        lemma_field_offset_step(fs, 2);
        assert(fs[2] =~= seq![fs[2][0]]);
        lemma_field_size_one(fs[2][0]);
        lemma_field_offset_step(fs, 3);
        assert(fs[3] =~= seq![fs[3][0]]);
        lemma_field_size_one(fs[3][0]);
        lemma_field_offset_step(fs, 4);
        assert(fs[4] =~= seq![fs[4][0]]);
        lemma_field_size_one(fs[4][0]);
        lemma_field_offset_step(fs, 5);
        assert(fs[5] =~= seq![fs[5][0]]);
        lemma_field_size_one(fs[5][0]);
        lemma_field_offset_step(fs, 6);
        assert(fs[6] =~= seq![fs[6][0]]);
        lemma_field_size_one(fs[6][0]);
        lemma_field_offset_step(fs, 7);
        assert(fs[7] =~= seq![fs[7][0]]);
        lemma_field_size_one(fs[7][0]);
        lemma_field_offset_step(fs, 8);
        assert(fs[8] =~= seq![fs[8][0]]);
        lemma_field_size_one(fs[8][0]);
        lemma_field_offset_step(fs, 9);
        assert(fs[9] =~= seq![fs[9][0]]);
        lemma_field_size_one(fs[9][0]);
        lemma_field_offset_step(fs, 10);
        assert(fs[10] =~= seq![fs[10][0]]);
        lemma_field_size_one(fs[10][0]);
        lemma_field_offset_step(fs, 11);
        assert(fs[11] =~= seq![fs[11][0]]);
        lemma_field_size_one(fs[11][0]);
        lemma_field_offset_step(fs, 12);
        assert(fs[12] =~= seq![fs[12][0]]);
        lemma_field_size_one(fs[12][0]);
        lemma_field_offset_step(fs, 13);
        assert(fs[13] =~= seq![fs[13][0]]);
        lemma_field_size_one(fs[13][0]);
        assert(fs.take(14) =~= fs);
    }
    r
}

/// A 64-bit ELF section header.
pub fn section_header() -> (r: RecordType)
    ensures
        r.wf(),
        r@.fields.len() == 10,
        is_scalar(r@.fields[0], 4, Seq::<u128>::empty(), false),
        is_scalar(r@.fields[1], 4, seq![0, 1, 2, 3, 4, 5, 6, 7, 8, 9, 10, 11, 14, 15, 16, 17, 18, 19, 0x60000000, 0x6ffffff5, 0x6ffffff6, 0x6ffffff7, 0x6ffffff8, 0x6ffffffa, 0x6ffffffb, 0x6ffffffc, 0x6ffffffd, 0x6ffffffe, 0x6fffffff, 0x70000000, 0x7fffffff, 0x80000000, 0x8fffffff], false),
        is_scalar(r@.fields[2], 8, seq![0x1, 0x2, 0x4, 0x10, 0x20, 0x40, 0x80, 0x100, 0x200, 0x400, 0x800, 0x0ff00000, 0xf0000000, 0x200000, 0x40000000, 0x80000000], true),
        is_scalar(r@.fields[3], 8, Seq::<u128>::empty(), false),
        is_scalar(r@.fields[4], 8, Seq::<u128>::empty(), false),
        is_scalar(r@.fields[5], 8, Seq::<u128>::empty(), false),
        is_scalar(r@.fields[6], 4, Seq::<u128>::empty(), false),
        is_scalar(r@.fields[7], 4, Seq::<u128>::empty(), false),
        is_scalar(r@.fields[8], 8, Seq::<u128>::empty(), false),
        is_scalar(r@.fields[9], 8, Seq::<u128>::empty(), false),
        field_offset(r@.fields, 0) == 0,
        field_offset(r@.fields, 1) == 4,
        field_offset(r@.fields, 2) == 8,
        field_offset(r@.fields, 3) == 16,
        field_offset(r@.fields, 4) == 24,
        field_offset(r@.fields, 5) == 32,
        field_offset(r@.fields, 6) == 40,
        field_offset(r@.fields, 7) == 44,
        field_offset(r@.fields, 8) == 48,
        field_offset(r@.fields, 9) == 56,
        record_size(r@.fields) == 64,
{
    proof {
        lemma_pow256_16();
    }
    let t_sh_type = Table::free(4)
        .with_constant("SHT_NULL", 0)
        .with_constant("SHT_PROGBITS", 1)
        .with_constant("SHT_SYMTAB", 2)
        .with_constant("SHT_STRTAB", 3)
        .with_constant("SHT_RELA", 4)
        .with_constant("SHT_HASH", 5)
        .with_constant("SHT_DYNAMIC", 6)
        .with_constant("SHT_NOTE", 7)
        .with_constant("SHT_NOBITS", 8)
        .with_constant("SHT_REL", 9)
        .with_constant("SHT_SHLIB", 10)
        .with_constant("SHT_DYNSYM", 11)
        .with_constant("SHT_INIT_ARRAY", 14)
        .with_constant("SHT_FINI_ARRAY", 15)
        .with_constant("SHT_PREINIT_ARRAY", 16)
        .with_constant("SHT_GROUP", 17)
        .with_constant("SHT_SYMTAB_SHNDX", 18)
        .with_constant("SHT_NUM", 19)
        .with_constant("SHT_LOOS", 0x60000000)
        .with_constant("SHT_GNU_ATTRIBUTES", 0x6ffffff5)
        .with_constant("SHT_GNU_HASH", 0x6ffffff6)
        .with_constant("SHT_GNU_LIBLIST", 0x6ffffff7)
        .with_constant("SHT_CHECKSUM", 0x6ffffff8)
        .with_constant("SHT_LOSUNW", 0x6ffffffa)
        .with_constant("SHT_SUNW_COMDAT", 0x6ffffffb)
        .with_constant("SHT_SUNW_syminfo", 0x6ffffffc)
        .with_constant("SHT_GNU_verdef", 0x6ffffffd)
        .with_constant("SHT_GNU_verneed", 0x6ffffffe)
        .with_constant("SHT_GNU_versym", 0x6fffffff)
        .with_constant("SHT_LOPROC", 0x70000000)
        .with_constant("SHT_HIPROC", 0x7fffffff)
        .with_constant("SHT_LOUSER", 0x80000000)
        .with_constant("SHT_HIUSER", 0x8fffffff);
    assert(t_sh_type@.values =~= seq![0u128, 1u128, 2u128, 3u128, 4u128, 5u128, 6u128, 7u128, 8u128, 9u128, 10u128, 11u128, 14u128, 15u128, 16u128, 17u128, 18u128, 19u128, 0x60000000u128, 0x6ffffff5u128, 0x6ffffff6u128, 0x6ffffff7u128, 0x6ffffff8u128, 0x6ffffffau128, 0x6ffffffbu128, 0x6ffffffcu128, 0x6ffffffdu128, 0x6ffffffeu128, 0x6fffffffu128, 0x70000000u128, 0x7fffffffu128, 0x80000000u128, 0x8fffffffu128]);
    let t_sh_flags = Table::free(8)
        .with_constant("SHF_WRITE", 0x1)
        .with_constant("SHF_ALLOC", 0x2)
        .with_constant("SHF_EXECINSTR", 0x4)
        .with_constant("SHF_MERGE", 0x10)
        .with_constant("SHF_STRINGS", 0x20)
        .with_constant("SHF_INFO_LINK", 0x40)
        .with_constant("SHF_LINK_ORDER", 0x80)
        .with_constant("SHF_OS_NONCONFORMING", 0x100)
        .with_constant("SHF_GROUP", 0x200)
        .with_constant("SHF_TLS", 0x400)
        .with_constant("SHF_COMPRESSED", 0x800)
        .with_constant("SHF_MASKOS", 0x0ff00000)
        .with_constant("SHF_MASKPROC", 0xf0000000)
        .with_constant("SHF_GNU_RETAIN", 0x200000)
        .with_constant("SHF_ORDERED", 0x40000000)
        .with_constant("SHF_EXCLUDE", 0x80000000);
    assert(t_sh_flags@.values =~= seq![0x1u128, 0x2u128, 0x4u128, 0x10u128, 0x20u128, 0x40u128, 0x80u128, 0x100u128, 0x200u128, 0x400u128, 0x800u128, 0x0ff00000u128, 0xf0000000u128, 0x200000u128, 0x40000000u128, 0x80000000u128]);
    let r = RecordType::new()
        .field("sh_name", FieldType::model(Table::free(4)))
        .field("sh_type", FieldType::model(t_sh_type))
        .field("sh_flags", FieldType::flags(t_sh_flags))
        .field("sh_addr", FieldType::model(Table::free(8)))
        .field("sh_offset", FieldType::model(Table::free(8)))
        .field("sh_size", FieldType::model(Table::free(8)))
        .field("sh_link", FieldType::model(Table::free(4)))
        .field("sh_info", FieldType::model(Table::free(4)))
        .field("sh_addralign", FieldType::model(Table::free(8)))
        .field("sh_entsize", FieldType::model(Table::free(8)));
    proof {
        let fs = r@.fields;
        lemma_field_offset_step(fs, 0);
        assert(fs[0] =~= seq![fs[0][0]]);
        lemma_field_size_one(fs[0][0]);
        lemma_field_offset_step(fs, 1);
        assert(fs[1] =~= seq![fs[1][0]]);
        lemma_field_size_one(fs[1][0]);
        lemma_field_offset_step(fs, 2);
        assert(fs[2] =~= seq![fs[2][0]]);
        lemma_field_size_one(fs[2][0]);
        lemma_field_offset_step(fs, 3);
        assert(fs[3] =~= seq![fs[3][0]]);
        lemma_field_size_one(fs[3][0]);
        lemma_field_offset_step(fs, 4);
        assert(fs[4] =~= seq![fs[4][0]]);
        lemma_field_size_one(fs[4][0]);
        lemma_field_offset_step(fs, 5);
        assert(fs[5] =~= seq![fs[5][0]]);
        lemma_field_size_one(fs[5][0]);
        lemma_field_offset_step(fs, 6);
        assert(fs[6] =~= seq![fs[6][0]]);
        lemma_field_size_one(fs[6][0]);
        lemma_field_offset_step(fs, 7);
        assert(fs[7] =~= seq![fs[7][0]]);
        lemma_field_size_one(fs[7][0]);
        lemma_field_offset_step(fs, 8);
        assert(fs[8] =~= seq![fs[8][0]]);
        lemma_field_size_one(fs[8][0]);
        lemma_field_offset_step(fs, 9);
        assert(fs[9] =~= seq![fs[9][0]]);
        lemma_field_size_one(fs[9][0]);
        assert(fs.take(10) =~= fs);
    }
    r
}

/// Why section names cannot be resolved.
#[derive(Debug, Clone, Copy, PartialEq, Eq)]
pub enum NameTableError {
    /// The header lacks the field, or it holds no scalar.
    Missing,
    /// The field holds `SHN_UNDEF`: there is no table of section names.
    Undefined,
}

/// The index of the section that holds the section names, read from field
/// `field` of `header`; an error where that field is absent or holds
/// `SHN_UNDEF`, so that no name is looked up through it.
pub fn name_table_index(header: &ComposedRecord, field: usize) -> (r: Result<u128, NameTableError>)
    requires
        header.wf(),
    ensures
        field >= header@.values.len() ==> r == Err::<u128, NameTableError>(NameTableError::Missing),
        field < header@.values.len() ==> match header@.values[field as int] {
            Some(v) => if v.len() == 0 {
                r == Err::<u128, NameTableError>(NameTableError::Missing)
            } else if v[0] == SHN_UNDEF {
                r == Err::<u128, NameTableError>(NameTableError::Undefined)
            } else {
                r == Ok::<u128, NameTableError>(v[0])
            },
            None => r == Err::<u128, NameTableError>(NameTableError::Missing),
        },
{
    if field >= header.len() {
        return Err(NameTableError::Missing);
    }
    match header.get(field, 0) {
        None => Err(NameTableError::Missing),
        Some(v) => if v == SHN_UNDEF {
            Err(NameTableError::Undefined)
        } else {
            Ok(v)
        },
    }
}

/// The name at offset `name` in the string table that starts at `table`:
/// the bytes up to the next zero byte. A range error where the position lies
/// beyond the buffer; a length error where no zero byte follows.
pub fn section_name(buf: &Sequential, table: u64, name: u64) -> (r: Result<Vec<u8>, FromU8Error<Vec<u8>>>)
    ensures
        table + name >= buf@.len() ==> r == Err::<Vec<u8>, FromU8Error<Vec<u8>>>(
            FromU8Error::RangeError,
        ),
        table + name < buf@.len() ==> match r {
            Ok(s) => {
                &&& table + name + s@.len() < buf@.len()
                &&& s@ == buf@.subrange(table + name, table + name + s@.len())
                &&& buf@[table + name + s@.len()] == 0
                &&& forall|k: int| 0 <= k < s@.len() ==> #[trigger] s@[k] != 0
            },
            Err(e) => {
                &&& e == FromU8Error::<Vec<u8>>::NotEnoughSlice(None)
                &&& forall|k: int| table + name <= k < buf@.len() ==> #[trigger] buf@[k] != 0
            },
        },
{
    let len = buf.len();
    if table as u128 + name as u128 >= len as u128 {
        return Err(FromU8Error::RangeError);
    }
    buf.read_c_string((table + name) as usize)
}

} // verus!
