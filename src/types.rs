//! Source-level types and their machine representation.

use vstd::prelude::*;
use crate::instructions::IntSize;

verus! {

#[derive(PartialEq, Eq, Hash, Clone, Copy, Debug, Structural)]
pub enum Type {
    BuiltIn(BuiltIn),
    NotYetImplemented,
}

#[derive(PartialEq, Eq, Hash, Clone, Copy, Debug, Structural)]
pub enum BuiltIn {
    U8,
    U16,
    U32,
    U64,
    I8,
    I16,
    I32,
    I64,
    Unit,
}

pub open spec fn spec_is_signed(b: BuiltIn) -> bool {
    b == BuiltIn::I8 || b == BuiltIn::I16 || b == BuiltIn::I32 || b == BuiltIn::I64
}

pub open spec fn spec_is_unsigned(b: BuiltIn) -> bool {
    b == BuiltIn::U8 || b == BuiltIn::U16 || b == BuiltIn::U32 || b == BuiltIn::U64
}

/// The cell size of an integer type; `Unit` has none.
pub open spec fn spec_int_size(b: BuiltIn) -> Option<IntSize> {
    match b {
        BuiltIn::U8 | BuiltIn::I8 => Some(IntSize::OneByte),
        BuiltIn::U16 | BuiltIn::I16 => Some(IntSize::TwoByte),
        BuiltIn::U32 | BuiltIn::I32 => Some(IntSize::FourByte),
        BuiltIn::U64 | BuiltIn::I64 => Some(IntSize::EightByte),
        BuiltIn::Unit => None,
    }
}

impl BuiltIn {
    pub fn is_signed(&self) -> (r: bool)
        ensures
            r == spec_is_signed(*self),
    {
        match self {
            BuiltIn::I8 | BuiltIn::I16 | BuiltIn::I32 | BuiltIn::I64 => true,
            _ => false,
        }
    }

    pub fn is_unsigned(&self) -> (r: bool)
        ensures
            r == spec_is_unsigned(*self),
    {
        match self {
            BuiltIn::U8 | BuiltIn::U16 | BuiltIn::U32 | BuiltIn::U64 => true,
            _ => false,
        }
    }

    pub fn get_int_size(&self) -> (r: Option<IntSize>)
        ensures
            r == spec_int_size(*self),
    {
        match self {
            BuiltIn::U8 | BuiltIn::I8 => Some(IntSize::OneByte),
            BuiltIn::U16 | BuiltIn::I16 => Some(IntSize::TwoByte),
            BuiltIn::U32 | BuiltIn::I32 => Some(IntSize::FourByte),
            BuiltIn::U64 | BuiltIn::I64 => Some(IntSize::EightByte),
            BuiltIn::Unit => None,
        }
    }
}

/// The type a name denotes: one of the built-in names, or
/// `NotYetImplemented` for any other (user-defined) name.
pub open spec fn type_named(name: Seq<char>) -> Type {
    if name == "i8"@ {
        Type::BuiltIn(BuiltIn::I8)
    } else if name == "i16"@ {
        Type::BuiltIn(BuiltIn::I16)
    } else if name == "i32"@ {
        Type::BuiltIn(BuiltIn::I32)
    } else if name == "i64"@ {
        Type::BuiltIn(BuiltIn::I64)
    } else if name == "u8"@ {
        Type::BuiltIn(BuiltIn::U8)
    } else if name == "u16"@ {
        Type::BuiltIn(BuiltIn::U16)
    } else if name == "u32"@ {
        Type::BuiltIn(BuiltIn::U32)
    } else if name == "u64"@ {
        Type::BuiltIn(BuiltIn::U64)
    } else if name == "unit"@ {
        Type::BuiltIn(BuiltIn::Unit)
    } else {
        Type::NotYetImplemented
    }
}

impl From<String> for Type {
    fn from(value: String) -> (r: Type) {
        if value == "i8".to_owned() {
            Type::BuiltIn(BuiltIn::I8)
        } else if value == "i16".to_owned() {
            Type::BuiltIn(BuiltIn::I16)
        } else if value == "i32".to_owned() {
            Type::BuiltIn(BuiltIn::I32)
        } else if value == "i64".to_owned() {
            Type::BuiltIn(BuiltIn::I64)
        } else if value == "u8".to_owned() {
            Type::BuiltIn(BuiltIn::U8)
        } else if value == "u16".to_owned() {
            Type::BuiltIn(BuiltIn::U16)
        } else if value == "u32".to_owned() {
            Type::BuiltIn(BuiltIn::U32)
        } else if value == "u64".to_owned() {
            Type::BuiltIn(BuiltIn::U64)
        } else if value == "unit".to_owned() {
            Type::BuiltIn(BuiltIn::Unit)
        } else {
            Type::NotYetImplemented
        }
    }
}

impl vstd::std_specs::convert::FromSpecImpl<String> for Type {
    open spec fn obeys_from_spec() -> bool {
        true
    }

    open spec fn from_spec(v: String) -> Type {
        type_named(v@)
    }
}

/// How a type is laid out on the stack, in bytes.
#[derive(Debug, Clone, Copy)]
pub struct TypeInfo {
    pub size: usize,
    pub alignment: usize,
}

} // verus!
