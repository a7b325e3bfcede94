//! What generating a function definition needs to know before it emits anything: whether it is
//! the entry point, what it returns, and the machine types of its parameters.
use vstd::prelude::*;

use crate::ast::{Function, Parameter};
use crate::codegen::types::{spec_ir_type, spec_ir_type_of_name, type_string_to_ir_type, IrType};
use crate::span::SourceIDSpanned;
use crate::text::str_equals;
use crate::types::{spec_type_of_name, SimpleType};

verus! {

/// How a function definition is generated.
pub enum FunctionPlan {
    /// `main`: a function without parameters that returns an `I32` exit code.
    Main,
    /// Any other function: its return type, the machine type it returns (none for `Void`) and
    /// the machine types of its parameters, in order.
    Regular { return_type: SimpleType, result: Option<IrType>, params: Vec<IrType> },
}

/// A plan as the contracts see it.
pub enum PlanView {
    Main,
    Regular(SimpleType, Option<IrType>, Seq<IrType>),
}

impl FunctionPlan {
    pub open spec fn view(&self) -> PlanView {
        match self {
            FunctionPlan::Main => PlanView::Main,
            FunctionPlan::Regular { return_type, result, params } => PlanView::Regular(*return_type, *result, params@),
        }
    }
}

/// The return type that a function declares, `Void` when it declares none.
pub open spec fn spec_return_type(f: Function) -> Result<SimpleType, Seq<char>> {
    match f.return_type_string {
        Some(s) => match spec_type_of_name(s.inner@) {
            Some(t) => Ok(t),
            None => Err("invalid return type "@ + s.inner@),
        },
        None => Ok(SimpleType::Void),
    }
}

/// The machine type of a parameter: `I32` when it has no type.
pub open spec fn spec_param_type(p: Parameter) -> Result<IrType, Seq<char>> {
    match p {
        Parameter::Untyped(_) => Ok(IrType::I32),
        Parameter::Typed(t, _) => match spec_ir_type_of_name(t.inner@) {
            Ok(Some(x)) => Ok(x),
            Ok(None) => Err("Void is not allowed as a parameter type"@),
            Err(e) => Err(e),
        },
    }
}

/// The machine types of the parameters, or the error of the first one that has none.
pub open spec fn spec_param_types(ps: Seq<SourceIDSpanned<Parameter>>) -> Result<Seq<IrType>, Seq<char>>
    decreases ps.len(),
{
    if ps.len() == 0 {
        Ok(seq![])
    } else {
        match spec_param_types(ps.drop_last()) {
            Err(e) => Err(e),
            Ok(ts) => match spec_param_type(ps.last().inner) {
                Ok(t) => Ok(ts.push(t)),
                Err(e) => Err(e),
            },
        }
    }
}

/// The plan of a function: an invalid return type name is refused first; `main` may declare no
/// return type but `Int`; then each parameter needs a machine type, and the return type must not
/// be `Unknown`.
pub open spec fn spec_plan(f: Function) -> Result<PlanView, Seq<char>> {
    match spec_return_type(f) {
        Err(e) => Err(e),
        Ok(return_type) => if f.name.inner@ == "main"@ {
            if f.return_type_string matches Some(s) && s.inner@ != "Int"@ {
                Err("main function is only allowed return type Int (if specified)"@)
            } else {
                Ok(PlanView::Main)
            }
        } else {
            match spec_param_types(f.params@) {
                Err(e) => Err(e),
                Ok(params) => match spec_ir_type(return_type) {
                    Ok(result) => Ok(PlanView::Regular(return_type, result, params)),
                    Err(_) => Err("Unknown type as return type"@),
                },
            }
        }
    }
}

fn return_type_of(function: &Function) -> (r: Result<SimpleType, String>)
    ensures
        match r {
            Ok(t) => spec_return_type(*function) == Ok::<SimpleType, Seq<char>>(t),
            Err(e) => spec_return_type(*function) == Err::<SimpleType, Seq<char>>(e@),
        },
{
    match &function.return_type_string {
        Some(string) => match SimpleType::from_type_string(string.inner.as_str()) {
            Some(t) => Ok(t),
            None => {
                let mut message = "invalid return type ".to_string();
                message.append(string.inner.as_str());
                Err(message)
            },
        },
        None => Ok(SimpleType::Void),
    }
}

fn param_type(param: &Parameter) -> (r: Result<IrType, String>)
    ensures
        match r {
            Ok(t) => spec_param_type(*param) == Ok::<IrType, Seq<char>>(t),
            Err(e) => spec_param_type(*param) == Err::<IrType, Seq<char>>(e@),
        },
{
    match param {
        Parameter::Untyped(_) => Ok(IrType::I32),
        Parameter::Typed(type_string, _) => match type_string_to_ir_type(type_string.inner.as_str()) {
            Ok(Some(t)) => Ok(t),
            Ok(None) => Err("Void is not allowed as a parameter type".to_string()),
            Err(e) => Err(e),
        },
    }
}

/// Decides how `function` is generated, or why it cannot be.
pub fn plan_function(function: &Function) -> (r: Result<FunctionPlan, String>)
    ensures
        match r {
            Ok(plan) => spec_plan(*function) == Ok::<PlanView, Seq<char>>(plan.view()),
            Err(e) => spec_plan(*function) == Err::<PlanView, Seq<char>>(e@),
        },
{
    let return_type = match return_type_of(function) {
        Ok(t) => t,
        Err(e) => return Err(e),
    };
    if str_equals(function.name.inner.as_str(), "main") {
        if let Some(string) = &function.return_type_string {
            if !str_equals(string.inner.as_str(), "Int") {
                return Err("main function is only allowed return type Int (if specified)".to_string());
            }
        }
        return Ok(FunctionPlan::Main);
    }
    let mut params: Vec<IrType> = Vec::new();
    let mut i: usize = 0;
    while i < function.params.len()
        invariant
            i <= function.params@.len(),
            spec_param_types(function.params@.take(i as int)) == Ok::<Seq<IrType>, Seq<char>>(params@),
            spec_return_type(*function) == Ok::<SimpleType, Seq<char>>(return_type),
            function.name.inner@ != "main"@,
        decreases function.params@.len() - i,
    {
        let t = param_type(&function.params[i].inner);
        proof {
            assert(function.params@.take(i as int + 1).drop_last() =~= function.params@.take(i as int));
            assert(function.params@.take(i as int + 1).last() == function.params@[i as int]);
        }
        match t {
            Ok(t) => params.push(t),
            Err(e) => {
                proof {
                    assert(spec_param_types(function.params@.take(i as int + 1)) == Err::<Seq<IrType>, Seq<char>>(e@));
                    lemma_first_error_stays(function.params@, i as int + 1);
                }
                return Err(e);
            },
        }
        i = i + 1;
    }
    proof {
        assert(function.params@.take(i as int) =~= function.params@);
    }
    match return_type {
        SimpleType::Unknown => Err("Unknown type as return type".to_string()),
        _ => {
            let result = match return_type {
                SimpleType::Boolean => Some(IrType::Bool),
                SimpleType::Int => Some(IrType::I32),
                SimpleType::Float => Some(IrType::F64),
                SimpleType::Char => Some(IrType::I8),
                SimpleType::Byte => Some(IrType::I8),
                SimpleType::String => Some(IrType::Ptr),
                _ => None,
            };
            Ok(FunctionPlan::Regular { return_type, result, params })
        },
    }
}

/// An error among the first `k` parameters is the error of all of them.
proof fn lemma_first_error_stays(ps: Seq<SourceIDSpanned<Parameter>>, k: int)
    requires
        0 <= k <= ps.len(),
        spec_param_types(ps.take(k)) is Err,
    ensures
        spec_param_types(ps) == spec_param_types(ps.take(k)),
    decreases ps.len() - k,
{
    if k < ps.len() {
        assert(ps.take(k + 1).drop_last() =~= ps.take(k));
        lemma_first_error_stays(ps, k + 1);
    } else {
        assert(ps.take(k) =~= ps);
    }
}

} // verus!
