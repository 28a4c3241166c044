use vstd::prelude::*;

use crate::register::Register;
use crate::types::{schema_type, DataType};

verus! {

/// The value a definition record's `read` flag takes when the record
/// leaves it out.
pub fn return_true() -> (r: bool)
    ensures
        r,
{
    true
}

/// The register that one definition record describes. The record gives the
/// register's width in bits; the register keeps it in words.
pub fn register_from_definition(id: u16, name: String, kind: DataType, len_bits: u16, read: bool) -> (r: Register)
    ensures
        r.name == name,
        r.addr == id,
        r.len == len_bits / 16,
        r.data_type == schema_type(kind),
        r.read == read,
{
    Register { name, addr: id, len: len_bits / 16, data_type: kind.into(), read }
}

} // verus!
