use vstd::prelude::*;

use crate::text::str_equals;

verus! {

/// The built-in types of the language.
#[derive(Clone, Copy, Debug, PartialEq, Eq, Structural)]
pub enum SimpleType {
    Boolean,
    Int,
    Float,
    Char,
    Byte,
    String,
    Void,
    Unknown,
}

/// The type that a type name denotes, if it names one.
pub open spec fn spec_type_of_name(name: Seq<char>) -> Option<SimpleType> {
    if name == "Boolean"@ || name == "Bool"@ {
        Some(SimpleType::Boolean)
    } else if name == "Int"@ {
        Some(SimpleType::Int)
    } else if name == "Float"@ {
        Some(SimpleType::Float)
    } else if name == "Char"@ {
        Some(SimpleType::Char)
    } else if name == "Byte"@ {
        Some(SimpleType::Byte)
    } else if name == "String"@ {
        Some(SimpleType::String)
    } else if name == "Void"@ {
        Some(SimpleType::Void)
    } else if name == "Unknown"@ {
        Some(SimpleType::Unknown)
    } else {
        None
    }
}

impl SimpleType {
    /// Parses a type name such as `Int` or `Bool`.
    pub fn from_type_string(type_string: &str) -> (result: Option<SimpleType>)
        ensures
            result == spec_type_of_name(type_string@),
    {
        if str_equals(type_string, "Boolean") || str_equals(type_string, "Bool") {
            Some(SimpleType::Boolean)
        } else if str_equals(type_string, "Int") {
            Some(SimpleType::Int)
        } else if str_equals(type_string, "Float") {
            Some(SimpleType::Float)
        } else if str_equals(type_string, "Char") {
            Some(SimpleType::Char)
        } else if str_equals(type_string, "Byte") {
            Some(SimpleType::Byte)
        } else if str_equals(type_string, "String") {
            Some(SimpleType::String)
        } else if str_equals(type_string, "Void") {
            Some(SimpleType::Void)
        } else if str_equals(type_string, "Unknown") {
            Some(SimpleType::Unknown)
        } else {
            None
        }
    }
}

/// Type information gathered about an expression.
pub struct TypeInfo {
    pub actual_type: SimpleType,
    pub is_comptime: bool,
    pub inferred_type: SimpleType,
    pub declared_type: Option<SimpleType>,
}

} // verus!
