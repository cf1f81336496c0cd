//! Typed interpretation of binary formats: byte buffers read as
//! little-endian scalars, sets of flags, fixed arrays and composed records,
//! each checked both for being present (enough bytes) and for being sane (a
//! value the format allows).

pub mod elf;
pub mod endian;
pub mod file;
pub mod model;
pub mod primitive;
pub mod record;
pub mod repr_u8;
pub mod types;
pub mod view;
pub mod zip;

