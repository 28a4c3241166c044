use vstd::prelude::*;

use crate::register;
use crate::register::DataType as RegisterType;

verus! {

/// A decoded register value, one variant per data type.
///
/// A 32-bit float is carried as its IEEE-754 bit pattern.
#[derive(Debug, Clone, Copy)]
pub enum RegisterValue {
    U16(u16),
    U32(u32),
    U64(u64),
    U128(u128),
    S32(i32),
    Enum16(u16),
    Sized([u8; 66]),
    Float32(u32),
    Boolean(bool),
}

/// The data type whose decoding yields a value of this variant.
pub open spec fn tag(v: RegisterValue) -> RegisterType {
    match v {
        RegisterValue::U16(_) => RegisterType::UInt16,
        RegisterValue::U32(_) => RegisterType::UInt32,
        RegisterValue::U64(_) => RegisterType::UInt64,
        RegisterValue::U128(_) => RegisterType::UInt128,
        RegisterValue::S32(_) => RegisterType::Int32,
        RegisterValue::Enum16(_) => RegisterType::Enum16,
        RegisterValue::Sized(_) => RegisterType::Sized,
        RegisterValue::Float32(_) => RegisterType::Float32,
        RegisterValue::Boolean(_) => RegisterType::Boolean,
    }
}

fn same_bytes(a: &[u8; 66], b: &[u8; 66]) -> (r: bool)
    ensures
        r == (a@ == b@),
{
    let mut i: usize = 0;
    while i < 66
        invariant
            i <= 66,
            forall|k: int| 0 <= k < i ==> a@[k] == b@[k],
        decreases 66 - i,
    {
        if a[i] != b[i] {
            return false;
        }
        i = i + 1;
    }
    assert(a@ =~= b@);
    true
}

impl PartialEq for RegisterValue {
    fn eq(&self, other: &RegisterValue) -> (r: bool) {
        match (self, other) {
            (RegisterValue::U16(a), RegisterValue::U16(b)) => *a == *b,
            (RegisterValue::U32(a), RegisterValue::U32(b)) => *a == *b,
            (RegisterValue::U64(a), RegisterValue::U64(b)) => *a == *b,
            (RegisterValue::U128(a), RegisterValue::U128(b)) => *a == *b,
            (RegisterValue::S32(a), RegisterValue::S32(b)) => *a == *b,
            (RegisterValue::Enum16(a), RegisterValue::Enum16(b)) => *a == *b,
            (RegisterValue::Sized(a), RegisterValue::Sized(b)) => {
                let r = same_bytes(a, b);
                proof {
                    if r {
                        assert(*a =~= *b);
                    }
                }
                r
            },
            (RegisterValue::Float32(a), RegisterValue::Float32(b)) => *a == *b,
            (RegisterValue::Boolean(a), RegisterValue::Boolean(b)) => *a == *b,
            _ => false,
        }
    }
}

impl vstd::std_specs::cmp::PartialEqSpecImpl for RegisterValue {
    open spec fn obeys_eq_spec() -> bool {
        true
    }

    open spec fn eq_spec(&self, other: &RegisterValue) -> bool {
        *self == *other
    }
}

impl Eq for RegisterValue {

}

/// The type of a register as a definition file names it.
#[derive(Debug, Clone, Copy, PartialEq, Eq, Structural)]
pub enum DataType {
    UInt16,
    UInt32,
    UInt64,
    UInt128,
    Int32,
    Enum16,
    Sized,
    Float32,
    Boolean,
}

/// The register type that a definition's type stands for.
pub open spec fn schema_type(t: DataType) -> RegisterType {
    match t {
        DataType::UInt16 => RegisterType::UInt16,
        DataType::UInt32 => RegisterType::UInt32,
        DataType::UInt64 => RegisterType::UInt64,
        DataType::UInt128 => RegisterType::UInt128,
        DataType::Int32 => RegisterType::Int32,
        DataType::Enum16 => RegisterType::Enum16,
        DataType::Sized => RegisterType::Sized,
        DataType::Float32 => RegisterType::Float32,
        DataType::Boolean => RegisterType::Boolean,
    }
}

impl From<DataType> for register::DataType {
    fn from(t: DataType) -> (r: register::DataType) {
        match t {
            DataType::UInt16 => RegisterType::UInt16,
            DataType::UInt32 => RegisterType::UInt32,
            DataType::UInt64 => RegisterType::UInt64,
            DataType::UInt128 => RegisterType::UInt128,
            DataType::Int32 => RegisterType::Int32,
            DataType::Enum16 => RegisterType::Enum16,
            DataType::Sized => RegisterType::Sized,
            DataType::Float32 => RegisterType::Float32,
            DataType::Boolean => RegisterType::Boolean,
        }
    }
}

impl vstd::std_specs::convert::FromSpecImpl<DataType> for register::DataType {
    open spec fn obeys_from_spec() -> bool {
        true
    }

    open spec fn from_spec(t: DataType) -> register::DataType {
        schema_type(t)
    }
}

} // verus!
