use vstd::prelude::*;

use crate::ast::{Function, Parameter};
use crate::ast_store::{func_node, param_node, ASTStore, ParamNode};
use crate::parser::lexer::Token;
use crate::parser::expression::{matches_attempt, parsable, span_of, tok_at};
use crate::parser::grammar::{
    sp_formal, sp_function, sp_functions, sp_more_formals, sp_parameter_list,
    sp_return_type,
};
use crate::parser::statement::statements;
use crate::span::{SourceIDSpan, SourceIDSpanned};

verus! {

/// The parameters as the contracts see them.
pub open spec fn param_nodes(params: Seq<SourceIDSpanned<Parameter>>) -> Seq<(ParamNode, SourceIDSpan)> {
    params.map_values(|f: SourceIDSpanned<Parameter>| param_node(f))
}

/// Parses a formal parameter at `p`.
fn p_formal(toks: &Vec<(Token, SourceIDSpan)>, p: usize) -> (r: Option<(SourceIDSpanned<Parameter>, usize)>)
    requires
        parsable(toks@),
        p <= toks@.len(),
    ensures
        match r {
            Some((f, q)) => sp_formal(toks@, p as int) == Some((param_node(f), q as int)),
            None => sp_formal(toks@, p as int) is None,
        },
{
    if p + 1 < toks.len() {
        if let Token::TypeIdentifier(type_text) = &toks[p].0 {
            if let Token::Identifier(name) = &toks[p + 1].0 {
                let type_part = SourceIDSpanned { inner: type_text.clone(), span: span_of(toks, p, p + 1) };
                let name_part = SourceIDSpanned { inner: name.clone(), span: span_of(toks, p + 1, p + 2) };
                let formal = SourceIDSpanned { inner: Parameter::Typed(type_part, name_part), span: span_of(toks, p, p + 2) };
                return Some((formal, p + 2));
            }
        }
    }
    if p < toks.len() {
        if let Token::Identifier(name) = &toks[p].0 {
            let formal = SourceIDSpanned { inner: Parameter::Untyped(name.clone()), span: span_of(toks, p, p + 1) };
            return Some((formal, p + 1));
        }
    }
    None
}

/// Parses `, formal` repeatedly after the parameters `params` that end at `q`.
fn p_more_formals(
    toks: &Vec<(Token, SourceIDSpan)>,
    params: Vec<SourceIDSpanned<Parameter>>,
    q: usize,
) -> (r: (Vec<SourceIDSpanned<Parameter>>, usize))
    requires
        parsable(toks@),
        q <= toks@.len(),
    ensures
        (param_nodes(r.0@), r.1 as int) == sp_more_formals(toks@, param_nodes(params@), q as int),
        r.1 <= toks@.len(),
    decreases toks@.len() - q,
{
    if !tok_at(toks, q, Token::Comma) {
        return (params, q);
    }
    match p_formal(toks, q + 1) {
        Some((f, q1)) => {
            if q < q1 && q1 <= toks.len() {
                let mut params = params;
                let ghost before = params@;
                params.push(f);
                proof {
                    assert(param_nodes(params@) =~= param_nodes(before).push(param_node(f)));
                }
                p_more_formals(toks, params, q1)
            } else {
                (params, q)
            }
        },
        None => (params, q),
    }
}

/// Parses a parenthesized parameter list at `p`.
fn p_parameter_list(toks: &Vec<(Token, SourceIDSpan)>, p: usize) -> (r: Option<(Vec<SourceIDSpanned<Parameter>>, usize)>)
    requires
        parsable(toks@),
        p <= toks@.len(),
    ensures
        match r {
            Some((params, q)) => sp_parameter_list(toks@, p as int) == Some((param_nodes(params@), q as int)),
            None => sp_parameter_list(toks@, p as int) is None,
        },
{
    if !tok_at(toks, p, Token::LParenthesis) {
        return None;
    }
    let (params, q) = match p_formal(toks, p + 1) {
        Some((f, q1)) => {
            let mut first = Vec::new();
            first.push(f);
            proof {
                assert(param_nodes(first@) =~= seq![param_node(f)]);
            }
            p_more_formals(toks, first, q1)
        },
        None => {
            let none: Vec<SourceIDSpanned<Parameter>> = Vec::new();
            proof {
                assert(param_nodes(none@) =~= seq![]);
            }
            (none, p + 1)
        },
    };
    if tok_at(toks, q, Token::RParenthesis) {
        Some((params, q + 1))
    } else {
        None
    }
}

/// Parses an optional `-> TypeIdentifier` at `p`.
fn p_return_type(toks: &Vec<(Token, SourceIDSpan)>, p: usize) -> (r: (Option<SourceIDSpanned<String>>, usize))
    requires
        parsable(toks@),
        p <= toks@.len(),
    ensures
        sp_return_type(toks@, p as int) == (
            match r.0 {
                Some(t) => Some((t.inner@, t.span)),
                None => None,
            },
            r.1 as int,
        ),
{
    if tok_at(toks, p, Token::ArrowSingle) && p + 1 < toks.len() {
        if let Token::TypeIdentifier(name) = &toks[p + 1].0 {
            return (Some(SourceIDSpanned { inner: name.clone(), span: span_of(toks, p + 1, p + 2) }), p + 2);
        }
    }
    (None, p)
}

/// Parses a function definition at `p`, storing its statements and then the function.
pub fn function(toks: &Vec<(Token, SourceIDSpan)>, store: &mut ASTStore, p: usize) -> (r: Option<(usize, usize)>)
    requires
        toks@.len() < usize::MAX - 2,
        p <= toks@.len(),
    ensures
        toks@.len() == 0 ==> r is None && *final(store) == *old(store),
        toks@.len() > 0 ==> matches_attempt(final(store).arena(), r, sp_function(toks@, old(store).arena(), p as int)),
{
    if toks.len() == 0 {
        return None;
    }
    if p >= toks.len() {
        return None;
    }
    let name = match &toks[p].0 {
        Token::Identifier(name) => SourceIDSpanned { inner: name.clone(), span: span_of(toks, p, p + 1) },
        _ => return None,
    };
    let (params, q1) = match p_parameter_list(toks, p + 1) {
        Some(found) => found,
        None => return None,
    };
    let (return_type_string, q2) = p_return_type(toks, q1);
    if !(tok_at(toks, q2, Token::LCurlyBrace) && p <= q2 && q2 <= toks.len()) {
        return None;
    }
    let (body, q3) = statements(toks, store, Vec::new(), q2 + 1);
    if !tok_at(toks, q3, Token::RCurlyBrace) {
        return None;
    }
    let function = Function { name, return_type_string, params, body };
    let id = store.add_function(function, span_of(toks, p, q3 + 1));
    proof {
        assert(func_node(function).params == param_nodes(function.params@));
    }
    Some((id, q3 + 1))
}

/// Parses function definitions from `p` on for as long as one can be parsed, appending their ids
/// to `ids`.
pub(crate) fn functions(toks: &Vec<(Token, SourceIDSpan)>, store: &mut ASTStore, ids: Vec<usize>, p: usize) -> (r: (Vec<usize>, usize))
    requires
        parsable(toks@),
        p <= toks@.len(),
    ensures
        (final(store).arena(), r.0@, r.1 as int) == sp_functions(toks@, old(store).arena(), ids@, p as int),
        r.1 <= toks@.len(),
    decreases toks@.len() - p,
{
    match function(toks, store, p) {
        Some((id, q)) => {
            if p < q && q <= toks.len() {
                let mut ids = ids;
                ids.push(id);
                functions(toks, store, ids, q)
            } else {
                (ids, p)
            }
        },
        None => (ids, p),
    }
}

} // verus!
