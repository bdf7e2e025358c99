//! The C++ basic type that the debugger uses for each Rust primitive.
use vstd::prelude::*;
use crate::value_type::{ValueType, SType};

verus! {

/// The basic types of the debugger's type system.
#[derive(Debug, Copy, Clone, PartialEq, Eq, Structural)]
pub enum BasicType {
    Bool,
    Char,
    UnsignedChar,
    SignedChar,
    UnsignedShort,
    Short,
    UnsignedInt,
    Int,
    UnsignedLongLong,
    LongLong,
    UnsignedInt128,
    Int128,
    Float,
    Double,
}

/// The basic type of a primitive other than `()`; `None` for any other type.
pub open spec fn basic_type_of(t: SType) -> Option<BasicType> {
    match t {
        SType::bool => Some(BasicType::Bool),
        SType::char => Some(BasicType::Char),
        SType::u8 => Some(BasicType::UnsignedChar),
        SType::i8 => Some(BasicType::SignedChar),
        SType::u16 => Some(BasicType::UnsignedShort),
        SType::i16 => Some(BasicType::Short),
        SType::u32 => Some(BasicType::UnsignedInt),
        SType::i32 => Some(BasicType::Int),
        SType::u64 => Some(BasicType::UnsignedLongLong),
        SType::i64 => Some(BasicType::LongLong),
        SType::u128 => Some(BasicType::UnsignedInt128),
        SType::i128 => Some(BasicType::Int128),
        SType::usize => Some(BasicType::UnsignedLongLong),
        SType::isize => Some(BasicType::LongLong),
        SType::float32 => Some(BasicType::Float),
        SType::float64 => Some(BasicType::Double),
        _ => None,
    }
}

/// The basic type of a primitive (other than `()`).
pub fn basic_type(value_type: &ValueType) -> (r: BasicType)
    requires
        basic_type_of(value_type@) is Some,
    ensures
        basic_type_of(value_type@) == Some(r),
{
    match value_type {
        ValueType::bool => BasicType::Bool,
        ValueType::char => BasicType::Char,
        ValueType::u8 => BasicType::UnsignedChar,
        ValueType::i8 => BasicType::SignedChar,
        ValueType::u16 => BasicType::UnsignedShort,
        ValueType::i16 => BasicType::Short,
        ValueType::u32 => BasicType::UnsignedInt,
        ValueType::i32 => BasicType::Int,
        ValueType::u64 => BasicType::UnsignedLongLong,
        ValueType::i64 => BasicType::LongLong,
        ValueType::u128 => BasicType::UnsignedInt128,
        ValueType::i128 => BasicType::Int128,
        ValueType::usize => BasicType::UnsignedLongLong,
        ValueType::isize => BasicType::LongLong,
        ValueType::float32 => BasicType::Float,
        _ => BasicType::Double,
    }
}

} // verus!
