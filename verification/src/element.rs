//! Element types and their little-endian encoding.

use vstd::prelude::*;

verus! {

/// The element types a view can project linear memory onto.
///
/// Integer elements are held in two's complement. A floating-point element is
/// handled as its IEEE 754 bit pattern, an unsigned integer of the same width.
#[derive(Clone, Copy, Debug, PartialEq, Eq, Structural)]
pub enum ElementType {
    Uint8,
    Int8,
    Uint16,
    Int16,
    Uint32,
    Int32,
    Uint64,
    Int64,
    Float32,
    Float64,
}

impl ElementType {
    /// Bytes taken by one element.
    pub open spec fn width(self) -> nat {
        match self {
            ElementType::Uint8 | ElementType::Int8 => 1,
            ElementType::Uint16 | ElementType::Int16 => 2,
            ElementType::Uint32 | ElementType::Int32 | ElementType::Float32 => 4,
            ElementType::Uint64 | ElementType::Int64 | ElementType::Float64 => 8,
        }
    }

    /// Whether elements are read as signed integers.
    pub open spec fn is_signed(self) -> bool {
        match self {
            ElementType::Int8 | ElementType::Int16 | ElementType::Int32 | ElementType::Int64 => true,
            _ => false,
        }
    }

    /// Number of distinct bit patterns of one element: 256 to the power `width`.
    pub open spec fn modulus(self) -> int {
        match self {
            ElementType::Uint8 | ElementType::Int8 => 0x100,
            ElementType::Uint16 | ElementType::Int16 => 0x1_0000,
            ElementType::Uint32 | ElementType::Int32 | ElementType::Float32 => 0x1_0000_0000,
            ElementType::Uint64 | ElementType::Int64 | ElementType::Float64 => 0x1_0000_0000_0000_0000,
        }
    }

    /// Smallest value an element can hold.
    pub open spec fn min_value(self) -> int {
        if self.is_signed() {
            -(self.modulus() / 2)
        } else {
            0
        }
    }

    /// Largest value an element can hold.
    pub open spec fn max_value(self) -> int {
        if self.is_signed() {
            self.modulus() / 2 - 1
        } else {
            self.modulus() - 1
        }
    }

    /// Whether `value` can be stored in an element without loss.
    pub open spec fn admits(self, value: int) -> bool {
        self.min_value() <= value <= self.max_value()
    }

    /// Bytes taken by one element: 1, 2, 4 or 8.
    pub fn bytes_per_element(self) -> (n: u8)
        ensures
            n == self.width(),
            n == 1 || n == 2 || n == 4 || n == 8,
    {
        match self {
            ElementType::Uint8 | ElementType::Int8 => 1,
            ElementType::Uint16 | ElementType::Int16 => 2,
            ElementType::Uint32 | ElementType::Int32 | ElementType::Float32 => 4,
            ElementType::Uint64 | ElementType::Int64 | ElementType::Float64 => 8,
        }
    }

    /// Whether elements are read as signed integers.
    pub fn signed(self) -> (b: bool)
        ensures
            b == self.is_signed(),
    {
        match self {
            ElementType::Int8 | ElementType::Int16 | ElementType::Int32 | ElementType::Int64 => true,
            _ => false,
        }
    }

    /// Number of distinct bit patterns of one element.
    pub fn span(self) -> (m: i128)
        ensures
            m == self.modulus(),
    {
        match self {
            ElementType::Uint8 | ElementType::Int8 => 0x100,
            ElementType::Uint16 | ElementType::Int16 => 0x1_0000,
            ElementType::Uint32 | ElementType::Int32 | ElementType::Float32 => 0x1_0000_0000,
            ElementType::Uint64 | ElementType::Int64 | ElementType::Float64 => 0x1_0000_0000_0000_0000,
        }
    }

    /// Tests whether `value` fits an element of this type.
    pub fn accepts(self, value: i128) -> (b: bool)
        ensures
            b == self.admits(value as int),
    {
        match self {
            ElementType::Uint8 => 0 <= value && value <= 0xff,
            ElementType::Int8 => -0x80 <= value && value <= 0x7f,
            ElementType::Uint16 => 0 <= value && value <= 0xffff,
            ElementType::Int16 => -0x8000 <= value && value <= 0x7fff,
            ElementType::Uint32 | ElementType::Float32 => 0 <= value && value <= 0xffff_ffff,
            ElementType::Int32 => -0x8000_0000 <= value && value <= 0x7fff_ffff,
            ElementType::Uint64 | ElementType::Float64 => 0 <= value && value <= 0xffff_ffff_ffff_ffff,
            ElementType::Int64 => -0x8000_0000_0000_0000 <= value && value <= 0x7fff_ffff_ffff_ffff,
        }
    }
}

} // verus!
