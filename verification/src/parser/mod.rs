use vstd::prelude::*;

pub mod expression;
pub mod function;
pub mod grammar;
pub mod laws;
pub mod lexer;
pub mod statement;

use crate::ast::Program;
use crate::ast_store::{ASTStore, Arena};
use crate::parser::lexer::{lemma_lex_from_len, spec_lex, tokenize, tokens_denote, Token};
use crate::parser::expression::span_of;
use crate::parser::function::functions;
use crate::parser::grammar::{sp_program, Toks};
use crate::parser::laws::{closed, has_literals, ids_below, law_parsing_only_adds_nodes, lemma_closed_store_can_be_walked};
use crate::source::{bytes_of, BUILTINS_SOURCE_ID};
use crate::span::{SourceID, SourceIDSpan, SourceIDSpanned};

verus! {

/// `r` is the outcome `s` of parsing a program: on success the program's functions and span, and
/// the store after; on failure an error.
pub open spec fn parsed_as(
    r: Result<(SourceIDSpanned<Program>, ASTStore), String>,
    s: (Arena, Option<(Seq<usize>, SourceIDSpan)>),
) -> bool {
    match r {
        Ok((program, store)) => s == (store.arena(), Some((program.inner.functions@, program.span))),
        Err(_) => s.1 is None,
    }
}

/// Parses the tokens of the source `source_id` as a program, adding its nodes to `ast_store`.
pub fn parse_tokens(
    toks: &Vec<(Token, SourceIDSpan)>,
    source_id: SourceID,
    ast_store: ASTStore,
) -> (r: Result<(SourceIDSpanned<Program>, ASTStore), String>)
    requires
        toks@.len() < usize::MAX - 2,
    ensures
        parsed_as(r, sp_program(toks@, ast_store.arena(), source_id)),
        r matches Ok((program, store)) ==> (has_literals(ast_store.arena()) && closed(ast_store.arena()) ==> {
            &&& closed(store.arena())
            &&& store.well_formed_tree()
            &&& ids_below(program.inner.functions@, store.functions@.len() as int)
            &&& forall|k: int| 0 <= k < program.inner.functions@.len() ==>
                store.function_in_store(#[trigger] program.inner.functions@[k] as int)
        }),
{
    proof {
        if has_literals(ast_store.arena()) {
            law_parsing_only_adds_nodes(toks@, ast_store.arena(), source_id);
        }
    }
    if toks.len() == 0 {
        let span = SourceIDSpan { context: source_id, start: 0, end: 0 };
        proof {
            if has_literals(ast_store.arena()) && closed(ast_store.arena()) {
                lemma_closed_store_can_be_walked(ast_store);
            }
        }
        return Ok((SourceIDSpanned { inner: Program { functions: Vec::new() }, span }, ast_store));
    }
    let mut store = ast_store;
    let (functions, q) = functions(toks, &mut store, Vec::new(), 0);
    if q == toks.len() {
        let span = span_of(toks, 0, q);
        let sizes = (store.functions.len(), store.statements.len(), store.expressions.len());
        proof {
            assert(sizes.0 == store.functions@.len() && sizes.1 == store.statements@.len() && sizes.2 == store.expressions@.len());
            if has_literals(ast_store.arena()) && closed(ast_store.arena()) {
                lemma_closed_store_can_be_walked(store);
            }
        }
        Ok((SourceIDSpanned { inner: Program { functions }, span }, store))
    } else {
        Err("parse error".to_string())
    }
}

/// Lexes and parses the source `src`, which has the id `source_id`, adding the nodes of the
/// program to `ast_store`. The id of the builtins is refused.
pub fn run(src: &str, source_id: SourceID, ast_store: ASTStore) -> (r: Result<(SourceIDSpanned<Program>, ASTStore), String>)
    requires
        bytes_of(src@).len() < usize::MAX - 2,
        source_id != BUILTINS_SOURCE_ID ==> spec_lex(bytes_of(src@)) is Some,
    ensures
        source_id == BUILTINS_SOURCE_ID ==> (r matches Err(message) && message@ == "BUILTINS_SOURCE_ID is reserved for builtins"@),
        source_id != BUILTINS_SOURCE_ID ==> exists|toks: Toks|
            #[trigger] tokens_denote(toks, spec_lex(bytes_of(src@)).unwrap(), bytes_of(src@), source_id)
                && parsed_as(r, sp_program(toks, ast_store.arena(), source_id)),
        r matches Ok((program, store)) ==> (has_literals(ast_store.arena()) && closed(ast_store.arena()) ==> {
            &&& closed(store.arena())
            &&& store.well_formed_tree()
            &&& ids_below(program.inner.functions@, store.functions@.len() as int)
            &&& forall|k: int| 0 <= k < program.inner.functions@.len() ==>
                store.function_in_store(#[trigger] program.inner.functions@[k] as int)
        }),
{
    if source_id == BUILTINS_SOURCE_ID {
        let message = "BUILTINS_SOURCE_ID is reserved for builtins".to_string();
        return Err(message);
    }
    let toks = match tokenize(src, source_id) {
        Some(toks) => toks,
        None => {
            assert(false);
            return Err("lexer error".to_string());
        },
    };
    proof {
        lemma_lex_from_len(bytes_of(src@), 0);
    }
    let r = parse_tokens(&toks, source_id, ast_store);
    assert(tokens_denote(toks@, spec_lex(bytes_of(src@)).unwrap(), bytes_of(src@), source_id));
    r
}

} // verus!
