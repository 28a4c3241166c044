use vstd::prelude::*;

verus! {

/// How the words of a register are to be read.
#[derive(Debug, Clone, Copy, PartialEq, Eq, Structural)]
pub enum DataType {
    UInt16,
    UInt32,
    UInt64,
    UInt128,
    Int32,
    Enum16,
    Sized,
    Float32,
    Boolean,
}

/// Which of the device's two word spaces a register lives in.
#[derive(Debug, Clone, Copy, PartialEq, Eq, Structural)]
pub enum ModBusRegisters {
    INPUT,
    HOLDING,
}

/// Number of words a value of this type occupies on the wire.
pub open spec fn type_words(kind: DataType) -> nat {
    match kind {
        DataType::UInt16 => 1,
        DataType::UInt32 => 2,
        DataType::UInt64 => 4,
        DataType::UInt128 => 8,
        DataType::Int32 => 2,
        DataType::Enum16 => 1,
        DataType::Sized => 33,
        DataType::Float32 => 2,
        DataType::Boolean => 1,
    }
}

impl DataType {
    /// Number of words a value of this type occupies on the wire.
    pub fn word_len(&self) -> (n: u16)
        ensures
            n as nat == type_words(*self),
    {
        match self {
            DataType::UInt16 => 1,
            DataType::UInt32 => 2,
            DataType::UInt64 => 4,
            DataType::UInt128 => 8,
            DataType::Int32 => 2,
            DataType::Enum16 => 1,
            DataType::Sized => 33,
            DataType::Float32 => 2,
            DataType::Boolean => 1,
        }
    }
}

/// A named register: its first word address, its length in words, how
/// it decodes, and whether a dump reads it.
#[derive(Debug, Clone)]
pub struct Register {
    pub name: String,
    pub addr: u16,
    pub len: u16,
    pub data_type: DataType,
    pub read: bool,
}

impl Register {
    /// First address past the register's extent.
    pub open spec fn end(&self) -> int {
        self.addr as int + self.len as int
    }

    /// Copy of a register that Verus can see is equal to the original.
    pub fn duplicate(&self) -> (r: Register)
        ensures
            r == *self,
    {
        Register {
            name: self.name.clone(),
            addr: self.addr,
            len: self.len,
            data_type: self.data_type,
            read: self.read,
        }
    }
}

} // verus!
