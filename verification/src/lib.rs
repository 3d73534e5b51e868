//! A bitfield codec: packs records of fields with explicit bit-widths
//! (1 to 64 bits each, plus enum-backed fields of power-of-two cardinality)
//! into a contiguous byte buffer, densely and big-endian within each byte,
//! and reads or writes a single field at an arbitrary bit offset while
//! preserving every other bit.
//!
//! The layers, leaf first:
//! - [`bits`]: the mathematical model of the packed byte stream;
//! - [`codec`]: get/set of an n-bit field at a bit offset in a buffer;
//! - [`checks`]: construction-time validations (size, alignment, range);
//! - [`layout`]: offsets and total size of a record's fields;
//! - [`labels`]: the discriminant codec for enum-backed fields;
//! - [`specifier`]: field types that declare their bit-widths;
//! - [`record`]: a packed record with per-field accessors.

pub mod bits;
pub mod checks;
pub mod codec;
pub mod labels;
pub mod layout;
pub mod record;
pub mod specifier;
