//! Target architectures: byte order and the encoded width of each scalar.

use vstd::prelude::*;

use crate::address::Length;

verus! {

#[derive(Clone, Copy, Debug, PartialEq, Eq, Structural)]
pub enum ByteOrder {
    LittleEndian,
    BigEndian,
}

#[derive(Clone, Copy, Debug, PartialEq, Eq, Structural)]
pub enum InstructionSet {
    X64,
    X86Pae,
    X86,
}

/// Fixes the translation rules and the scalar encoding of a target.
#[derive(Clone, Copy, Debug, PartialEq, Eq, Structural)]
pub struct Architecture {
    pub instruction_set: InstructionSet,
}

pub open spec fn spec_byte_order(isa: InstructionSet) -> ByteOrder {
    match isa {
        InstructionSet::X64 => ByteOrder::LittleEndian,
        InstructionSet::X86Pae => ByteOrder::LittleEndian,
        InstructionSet::X86 => ByteOrder::LittleEndian,
    }
}

/// Width in bytes of a pointer on the target.
pub open spec fn spec_addr_width(isa: InstructionSet) -> usize {
    match isa {
        InstructionSet::X64 => 8,
        InstructionSet::X86Pae => 4,
        InstructionSet::X86 => 4,
    }
}

/// The base page size of every supported target.
pub const PAGE_SIZE: usize = 0x1000;

impl Architecture {
    pub fn new(instruction_set: InstructionSet) -> (r: Architecture)
        ensures
            r.instruction_set == instruction_set,
    {
        Architecture { instruction_set }
    }

    pub fn page_size(&self) -> (r: Length)
        ensures
            r.len == PAGE_SIZE,
    {
        Length { len: PAGE_SIZE }
    }
}

impl InstructionSet {
    pub fn byte_order(&self) -> (r: ByteOrder)
        ensures
            r == spec_byte_order(*self),
    {
        match self {
            InstructionSet::X64 => ByteOrder::LittleEndian,
            InstructionSet::X86Pae => ByteOrder::LittleEndian,
            InstructionSet::X86 => ByteOrder::LittleEndian,
        }
    }

    pub fn len_addr(&self) -> (r: Length)
        ensures
            r.len == spec_addr_width(*self),
    {
        match self {
            InstructionSet::X64 => Length { len: 8 },
            InstructionSet::X86Pae => Length { len: 4 },
            InstructionSet::X86 => Length { len: 4 },
        }
    }

    pub fn len_u64(&self) -> (r: Length)
        ensures
            r.len == 8,
    {
        Length { len: 8 }
    }

    pub fn len_i64(&self) -> (r: Length)
        ensures
            r.len == 8,
    {
        Length { len: 8 }
    }

    pub fn len_u32(&self) -> (r: Length)
        ensures
            r.len == 4,
    {
        Length { len: 4 }
    }

    pub fn len_i32(&self) -> (r: Length)
        ensures
            r.len == 4,
    {
        Length { len: 4 }
    }

    pub fn len_f32(&self) -> (r: Length)
        ensures
            r.len == 4,
    {
        Length { len: 4 }
    }
}

} // verus!
