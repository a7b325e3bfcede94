//! The machine types that the language's types are generated as.
use vstd::prelude::*;

use crate::ast::Expression;
use crate::types::{spec_type_of_name, SimpleType};

verus! {

/// A machine type: a 1-bit boolean, a 32-bit integer, a 64-bit float, an 8-bit integer or a
/// pointer.
#[derive(Clone, Copy, Debug, PartialEq, Eq, Structural)]
pub enum IrType {
    Bool,
    I32,
    F64,
    I8,
    Ptr,
}

/// The machine type of `t`: none for `Void`, and an error for `Unknown`.
pub open spec fn spec_ir_type(t: SimpleType) -> Result<Option<IrType>, Seq<char>> {
    match t {
        SimpleType::Boolean => Ok(Some(IrType::Bool)),
        SimpleType::Int => Ok(Some(IrType::I32)),
        SimpleType::Float => Ok(Some(IrType::F64)),
        SimpleType::Char => Ok(Some(IrType::I8)),
        SimpleType::Byte => Ok(Some(IrType::I8)),
        SimpleType::String => Ok(Some(IrType::Ptr)),
        SimpleType::Void => Ok(None),
        SimpleType::Unknown => Err("Tried to convern Unknown into llvm type"@),
    }
}

/// The machine type of the type named `name`; an error if `name` names no type.
pub open spec fn spec_ir_type_of_name(name: Seq<char>) -> Result<Option<IrType>, Seq<char>> {
    match spec_type_of_name(name) {
        Some(t) => spec_ir_type(t),
        None => Err("invalid_type_string"@),
    }
}

/// `r` is the outcome `s`, with an error message as its text.
pub open spec fn type_result_is(r: Result<Option<IrType>, String>, s: Result<Option<IrType>, Seq<char>>) -> bool {
    match r {
        Ok(t) => s == Ok::<Option<IrType>, Seq<char>>(t),
        Err(message) => s == Err::<Option<IrType>, Seq<char>>(message@),
    }
}

/// The machine type of `type_`.
pub fn simple_type_to_ir_type(type_: SimpleType) -> (r: Result<Option<IrType>, String>)
    ensures
        type_result_is(r, spec_ir_type(type_)),
{
    match type_ {
        SimpleType::Boolean => Ok(Some(IrType::Bool)),
        SimpleType::Int => Ok(Some(IrType::I32)),
        SimpleType::Float => Ok(Some(IrType::F64)),
        SimpleType::Char => Ok(Some(IrType::I8)),
        SimpleType::Byte => Ok(Some(IrType::I8)),
        SimpleType::String => Ok(Some(IrType::Ptr)),
        SimpleType::Void => Ok(None),
        SimpleType::Unknown => Err("Tried to convern Unknown into llvm type".to_string()),
    }
}

/// The machine type of the type named `type_string`.
pub fn type_string_to_ir_type(type_string: &str) -> (r: Result<Option<IrType>, String>)
    ensures
        type_result_is(r, spec_ir_type_of_name(type_string@)),
{
    match SimpleType::from_type_string(type_string) {
        Some(t) => simple_type_to_ir_type(t),
        None => Err("invalid_type_string".to_string()),
    }
}


/// The type that the value of a `let` or an assignment declares: the named type of a typed
/// expression (none when the name is no type), `Int` for any other expression.
pub open spec fn spec_declared_type(value: Expression) -> Option<SimpleType> {
    match value {
        Expression::TypedExpression(type_identifier, _) => spec_type_of_name(type_identifier.inner@),
        _ => Some(SimpleType::Int),
    }
}

/// The type that the value `value` declares, as `spec_declared_type` says.
pub fn declared_type(value: &Expression) -> (t: Option<SimpleType>)
    ensures
        t == spec_declared_type(*value),
{
    match value {
        Expression::TypedExpression(type_identifier, _) => SimpleType::from_type_string(type_identifier.inner.as_str()),
        _ => Some(SimpleType::Int),
    }
}

} // verus!
