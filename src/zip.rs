//! The local file header of a ZIP archive, as a record type.

use crate::endian::lemma_pow256_16;
use crate::model::Table;
use crate::record::{
    field_offset, is_scalar, lemma_field_offset_step, lemma_field_size_one, record_size,
    FieldType, RecordType,
};
use vstd::prelude::*;

verus! {

/// The signature that opens a local file header.
pub const LOCAL_HEADER_MAGIC: u128 = 0x04034b50;

/// The local file header: a signature whose only sane value is
/// `LOCAL_HEADER_MAGIC`, then version, flags (a set declaring no flag, so
/// sane only at zero), time, date, checksum, sizes and name and extra-field
/// lengths, none of them restricted.
pub fn local_header() -> (r: RecordType)
    ensures
        r.wf(),
        r@.fields.len() == 10,
        is_scalar(r@.fields[0], 4, seq![LOCAL_HEADER_MAGIC], false),
        is_scalar(r@.fields[1], 2, Seq::<u128>::empty(), false),
        is_scalar(r@.fields[2], 2, Seq::<u128>::empty(), true),
        is_scalar(r@.fields[3], 2, Seq::<u128>::empty(), false),
        is_scalar(r@.fields[4], 2, Seq::<u128>::empty(), false),
        is_scalar(r@.fields[5], 4, Seq::<u128>::empty(), false),
        is_scalar(r@.fields[6], 4, Seq::<u128>::empty(), false),
        is_scalar(r@.fields[7], 4, Seq::<u128>::empty(), false),
        is_scalar(r@.fields[8], 2, Seq::<u128>::empty(), false),
        is_scalar(r@.fields[9], 2, Seq::<u128>::empty(), false),
        field_offset(r@.fields, 0) == 0,
        field_offset(r@.fields, 1) == 4,
        field_offset(r@.fields, 2) == 6,
        field_offset(r@.fields, 3) == 8,
        field_offset(r@.fields, 4) == 10,
        field_offset(r@.fields, 5) == 12,
        field_offset(r@.fields, 6) == 16,
        field_offset(r@.fields, 7) == 20,
        field_offset(r@.fields, 8) == 24,
        field_offset(r@.fields, 9) == 26,
        record_size(r@.fields) == 28,
{
    proof {
        lemma_pow256_16();
    }
    let t_magic = Table::free(4)
        .with_constant("VALID", LOCAL_HEADER_MAGIC);
    let r = RecordType::new()
        .field("magic", FieldType::model(t_magic))
        .field("version", FieldType::model(Table::free(2)))
        .field("general_purpose_bf", FieldType::flags(Table::free(2)))
        .field("last_modify_time", FieldType::model(Table::free(2)))
        .field("last_modify_data", FieldType::model(Table::free(2)))
        .field("crc32", FieldType::model(Table::free(4)))
        .field("compressed_size", FieldType::model(Table::free(4)))
        .field("uncompressed_size", FieldType::model(Table::free(4)))
        .field("file_name_length", FieldType::model(Table::free(2)))
        .field("extra_field_length", FieldType::model(Table::free(2)));
    proof {
        let fs = r@.fields;
        lemma_field_offset_step(fs, 0);
        assert(fs[0] =~= seq![fs[0][0]]);
        lemma_field_size_one(fs[0][0]);
        lemma_field_offset_step(fs, 1);
        assert(fs[1] =~= seq![fs[1][0]]);
        lemma_field_size_one(fs[1][0]);
        lemma_field_offset_step(fs, 2);
        assert(fs[2] =~= seq![fs[2][0]]);
        lemma_field_size_one(fs[2][0]);
        lemma_field_offset_step(fs, 3);
        assert(fs[3] =~= seq![fs[3][0]]);
        lemma_field_size_one(fs[3][0]);
        lemma_field_offset_step(fs, 4);
        assert(fs[4] =~= seq![fs[4][0]]);
        lemma_field_size_one(fs[4][0]);
        lemma_field_offset_step(fs, 5);
        assert(fs[5] =~= seq![fs[5][0]]);
        lemma_field_size_one(fs[5][0]);
        lemma_field_offset_step(fs, 6);
        assert(fs[6] =~= seq![fs[6][0]]);
        lemma_field_size_one(fs[6][0]);
        lemma_field_offset_step(fs, 7);
        assert(fs[7] =~= seq![fs[7][0]]);
        lemma_field_size_one(fs[7][0]);
        lemma_field_offset_step(fs, 8);
        assert(fs[8] =~= seq![fs[8][0]]);
        lemma_field_size_one(fs[8][0]);
        lemma_field_offset_step(fs, 9);
        assert(fs[9] =~= seq![fs[9][0]]);
        lemma_field_size_one(fs[9][0]);
        assert(fs.take(10) =~= fs);
    }
    r
}

} // verus!
