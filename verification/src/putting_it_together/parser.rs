//! The grammar of the expression language, over the tokens of `lexer`:
//!
//! ```text
//! program     := function*                                                  (all tokens)
//! function    := "function" IDENT "(" [formal ("," formal)*] ")" "{" statement* "}"
//! formal      := TYPE IDENT | IDENT
//! statement   := simple ";" | "{" statement* "}" | "while" "(" expression ")" statement
//! simple      := "let" IDENT "=" expression | "return" expression | expression | (nothing)
//! expression  := level3
//! level3      := level2 (("==" | ">" | "<" | ">=" | "<=" | "!=") level2)*
//! level2      := level1 (("+" | "-") level1)*
//! level1      := term (("*" | "/") term)*
//! term        := "-" expression | IDENT "(" [expression ("," expression)*] ")" | IDENT
//!              | STRING | NUMBER | "true" | "false" | TYPE expression | "(" expression ")"
//! ```
//!
//! Repetitions are greedy and stop at the first item that does not parse, binary operators
//! associate to the left, and alternatives are tried in order, the first that succeeds being taken.
use vstd::prelude::*;

use crate::putting_it_together::ast::{lemma_list_models, lemma_models_push, models, Node, NodeModel};
use crate::putting_it_together::lexer::Token;

verus! {

/// The text of the identifier, type identifier, number or string token `tok`.
pub open spec fn text_of(tok: Token) -> Seq<char> {
    match tok {
        Token::Identifier(d) => d.value@,
        Token::TypeIdentifier(d) => d.value@,
        Token::NumberLiteral(d) => d.value@,
        Token::StringLiteral(d) => d.value@,
        _ => seq![],
    }
}

/// `IDENT`, as an identifier.
pub open spec fn sp_identifier(t: Seq<Token>, p: int) -> Option<(NodeModel, int)> {
    if 0 <= p < t.len() && t[p] is Identifier {
        Some((NodeModel::Identifier(text_of(t[p])), p + 1))
    } else {
        None
    }
}

/// `STRING`
pub open spec fn sp_string(t: Seq<Token>, p: int) -> Option<(NodeModel, int)> {
    if 0 <= p < t.len() && t[p] is StringLiteral {
        Some((NodeModel::StringLiteral(text_of(t[p])), p + 1))
    } else {
        None
    }
}

/// `NUMBER`
pub open spec fn sp_number(t: Seq<Token>, p: int) -> Option<(NodeModel, int)> {
    if 0 <= p < t.len() && t[p] is NumberLiteral {
        Some((NodeModel::NumberLiteral(text_of(t[p])), p + 1))
    } else {
        None
    }
}

/// `STRING | NUMBER | "true" | "false"`
pub open spec fn sp_literal(t: Seq<Token>, p: int) -> Option<(NodeModel, int)> {
    if sp_string(t, p) is Some {
        sp_string(t, p)
    } else if sp_number(t, p) is Some {
        sp_number(t, p)
    } else if 0 <= p < t.len() && t[p] is True {
        Some((NodeModel::BooleanLiteral(true), p + 1))
    } else if 0 <= p < t.len() && t[p] is False {
        Some((NodeModel::BooleanLiteral(false), p + 1))
    } else {
        None
    }
}

/// Whether the token at `p` is an operator of binding level `level`: 1 is `* /`, 2 is `+ -`,
/// 3 is the comparisons.
pub open spec fn is_operator(t: Seq<Token>, p: int, level: int) -> bool {
    0 <= p < t.len() && match t[p] {
        Token::Times | Token::Divided => level == 1,
        Token::Plus | Token::Minus => level == 2,
        Token::Equals | Token::GreaterThan | Token::LessThan | Token::GreaterThanOrEquals
        | Token::LessThanOrEquals | Token::NotEquals => level == 3,
        _ => false,
    }
}

/// The node that the operator `op` makes of its operands.
pub open spec fn binary_node(op: Token, lhs: NodeModel, rhs: NodeModel) -> NodeModel {
    let (l, r) = (Box::new(lhs), Box::new(rhs));
    match op {
        Token::Times => NodeModel::Mul(l, r),
        Token::Divided => NodeModel::Div(l, r),
        Token::Plus => NodeModel::Add(l, r),
        Token::Minus => NodeModel::Sub(l, r),
        Token::Equals => NodeModel::Equals(l, r),
        Token::GreaterThan => NodeModel::GreaterThan(l, r),
        Token::LessThan => NodeModel::LessThan(l, r),
        Token::GreaterThanOrEquals => NodeModel::GreaterThanOrEquals(l, r),
        Token::LessThanOrEquals => NodeModel::LessThanOrEquals(l, r),
        _ => NodeModel::NotEquals(l, r),
    }
}

/// The operator token that a binary node stands for, with its two operands; none for any other
/// node.
pub open spec fn operator_of(n: NodeModel) -> Option<(Token, NodeModel, NodeModel)> {
    match n {
        NodeModel::Mul(l, r) => Some((Token::Times, *l, *r)),
        NodeModel::Div(l, r) => Some((Token::Divided, *l, *r)),
        NodeModel::Add(l, r) => Some((Token::Plus, *l, *r)),
        NodeModel::Sub(l, r) => Some((Token::Minus, *l, *r)),
        NodeModel::Equals(l, r) => Some((Token::Equals, *l, *r)),
        NodeModel::GreaterThan(l, r) => Some((Token::GreaterThan, *l, *r)),
        NodeModel::LessThan(l, r) => Some((Token::LessThan, *l, *r)),
        NodeModel::GreaterThanOrEquals(l, r) => Some((Token::GreaterThanOrEquals, *l, *r)),
        NodeModel::LessThanOrEquals(l, r) => Some((Token::LessThanOrEquals, *l, *r)),
        NodeModel::NotEquals(l, r) => Some((Token::NotEquals, *l, *r)),
        _ => None,
    }
}

/// The node built for `lhs op rhs` is the binary node of `op`, with `lhs` on the left and `rhs`
/// on the right: each operator token gives its own kind of node.
pub proof fn law_binary_node_is_the_operator_spelled(t: Seq<Token>, q: int, level: int, lhs: NodeModel, rhs: NodeModel)
    requires
        1 <= level <= 3,
        is_operator(t, q, level),
    ensures
        operator_of(binary_node(t[q], lhs, rhs)) == Some((t[q], lhs, rhs)),
{
}

/// How tightly a binary operator token binds: `* /` at level 1, `+ -` at level 2, the
/// comparisons at level 3; 0 for a token that is no binary operator.
pub open spec fn binding_level(t: Token) -> int {
    match t {
        Token::Times | Token::Divided => 1,
        Token::Plus | Token::Minus => 2,
        Token::Equals | Token::NotEquals | Token::LessThan | Token::GreaterThan | Token::LessThanOrEquals
        | Token::GreaterThanOrEquals => 3,
        _ => 0,
    }
}

/// A token is read as a binary operator at exactly the level at which it binds.
pub proof fn law_operator_levels(t: Seq<Token>, q: int, level: int)
    requires
        0 <= q < t.len(),
        1 <= level <= 3,
    ensures
        is_operator(t, q, level) <==> binding_level(t[q]) == level,
{
}

/// One step of a fold: an operator of the level followed by an operand makes the binary node of
/// that operator, with what came before on the left and the operand on the right.
pub proof fn law_fold_step(t: Seq<Token>, lhs: NodeModel, q: int, level: int)
    requires
        1 <= level <= 3,
        is_operator(t, q, level),
        sp_operand(t, q + 1, level) matches Some((rhs, r)) && q < r <= t.len(),
    ensures
        match sp_operand(t, q + 1, level) {
            Some((rhs, r)) => sp_fold(t, lhs, q, level) == sp_fold(t, binary_node(t[q], lhs, rhs), r, level)
                && operator_of(binary_node(t[q], lhs, rhs)) == Some((t[q], lhs, rhs)),
            None => true,
        },
{
}

/// An expression at `p`: the alternatives of `expression` in order.
pub open spec fn sp_expression(t: Seq<Token>, p: int) -> Option<(NodeModel, int)>
    decreases t.len() - p, 8int, 0int,
{
    if sp_binary(t, p, 3) is Some {
        sp_binary(t, p, 3)
    } else if sp_binary(t, p, 2) is Some {
        sp_binary(t, p, 2)
    } else if sp_binary(t, p, 1) is Some {
        sp_binary(t, p, 1)
    } else if sp_unary(t, p) is Some {
        sp_unary(t, p)
    } else if sp_call(t, p) is Some {
        sp_call(t, p)
    } else if sp_string(t, p) is Some {
        sp_string(t, p)
    } else if sp_number(t, p) is Some {
        sp_number(t, p)
    } else if sp_identifier(t, p) is Some {
        sp_identifier(t, p)
    } else {
        sp_parenthesized(t, p)
    }
}

/// The binary expression of level `level` (1 to 3) at `p`: an operand of the level below, then as
/// many operator-operand pairs of this level as parse, folded to the left.
pub open spec fn sp_binary(t: Seq<Token>, p: int, level: int) -> Option<(NodeModel, int)>
    decreases t.len() - p, 4 + level, 1int,
{
    if 1 <= level <= 3 {
        match sp_operand(t, p, level) {
            Some((lhs, q)) => if p < q <= t.len() {
                Some(sp_fold(t, lhs, q, level))
            } else {
                None
            },
            None => None,
        }
    } else {
        None
    }
}

/// An operand of level `level`: a term for level 1, else a binary expression of the level below.
pub open spec fn sp_operand(t: Seq<Token>, p: int, level: int) -> Option<(NodeModel, int)>
    decreases t.len() - p, 4 + level, 0int,
{
    if level == 1 {
        sp_term(t, p)
    } else if 2 <= level <= 3 {
        sp_binary(t, p, level - 1)
    } else {
        None
    }
}

/// Folds `lhs` with as many operator-operand pairs of level `level` as parse from `q`.
pub open spec fn sp_fold(t: Seq<Token>, lhs: NodeModel, q: int, level: int) -> (NodeModel, int)
    decreases t.len() - q, 4 + level, 2int,
{
    if 1 <= level <= 3 && is_operator(t, q, level) {
        match sp_operand(t, q + 1, level) {
            Some((rhs, r)) => if q < r <= t.len() {
                sp_fold(t, binary_node(t[q], lhs, rhs), r, level)
            } else {
                (lhs, q)
            },
            None => (lhs, q),
        }
    } else {
        (lhs, q)
    }
}

/// A term at `p`: the alternatives of `term` in order.
pub open spec fn sp_term(t: Seq<Token>, p: int) -> Option<(NodeModel, int)>
    decreases t.len() - p, 4int, 0int,
{
    if sp_unary(t, p) is Some {
        sp_unary(t, p)
    } else if sp_call(t, p) is Some {
        sp_call(t, p)
    } else if sp_identifier(t, p) is Some {
        sp_identifier(t, p)
    } else if sp_literal(t, p) is Some {
        sp_literal(t, p)
    } else if sp_typed(t, p) is Some {
        sp_typed(t, p)
    } else {
        sp_parenthesized(t, p)
    }
}

/// `"-" expression`
pub open spec fn sp_unary(t: Seq<Token>, p: int) -> Option<(NodeModel, int)>
    decreases t.len() - p, 3int, 0int,
{
    if 0 <= p < t.len() && t[p] is Minus {
        match sp_expression(t, p + 1) {
            Some((rhs, q)) => Some((
                NodeModel::UnaryOperator { op: Box::new(NodeModel::UnaryMinus), rhs: Box::new(rhs) },
                q,
            )),
            None => None,
        }
    } else {
        None
    }
}

/// `TYPE expression`
pub open spec fn sp_typed(t: Seq<Token>, p: int) -> Option<(NodeModel, int)>
    decreases t.len() - p, 3int, 0int,
{
    if 0 <= p < t.len() && t[p] is TypeIdentifier {
        match sp_expression(t, p + 1) {
            Some((e, q)) => Some((NodeModel::TypedExpression(text_of(t[p]), Box::new(e)), q)),
            None => None,
        }
    } else {
        None
    }
}

/// `"(" expression ")"`
pub open spec fn sp_parenthesized(t: Seq<Token>, p: int) -> Option<(NodeModel, int)>
    decreases t.len() - p, 3int, 0int,
{
    if 0 <= p < t.len() && t[p] is LParenthesis {
        match sp_expression(t, p + 1) {
            Some((e, q)) => if 0 <= q < t.len() && t[q] is RParenthesis {
                Some((e, q + 1))
            } else {
                None
            },
            None => None,
        }
    } else {
        None
    }
}

/// `IDENT "(" [expression ("," expression)*] ")"`
pub open spec fn sp_call(t: Seq<Token>, p: int) -> Option<(NodeModel, int)>
    decreases t.len() - p, 3int, 0int,
{
    if 0 <= p < t.len() && t[p] is Identifier {
        match sp_arguments(t, p + 1) {
            Some((args, q)) => Some((NodeModel::FunctionCall { callee: text_of(t[p]), argument_list: args }, q)),
            None => None,
        }
    } else {
        None
    }
}

/// `"(" [expression ("," expression)*] ")"`, as the list of the expressions.
pub open spec fn sp_arguments(t: Seq<Token>, p: int) -> Option<(Seq<NodeModel>, int)>
    decreases t.len() - p, 2int, 0int,
{
    if 0 <= p < t.len() && t[p] is LParenthesis {
        let (list, q) = match sp_expression(t, p + 1) {
            Some((first, r)) => if p < r <= t.len() {
                let (rest, s) = sp_more_arguments(t, r);
                (seq![first] + rest, s)
            } else {
                (seq![], p + 1)
            },
            None => (seq![], p + 1),
        };
        if 0 <= q < t.len() && t[q] is RParenthesis {
            Some((list, q + 1))
        } else {
            None
        }
    } else {
        None
    }
}

/// As many `"," expression` as parse from `q`.
pub open spec fn sp_more_arguments(t: Seq<Token>, q: int) -> (Seq<NodeModel>, int)
    decreases t.len() - q, 2int, 0int,
{
    if 0 <= q < t.len() && t[q] is Comma {
        match sp_expression(t, q + 1) {
            Some((e, r)) => if q < r <= t.len() {
                let (rest, s) = sp_more_arguments(t, r);
                (seq![e] + rest, s)
            } else {
                (seq![], q)
            },
            None => (seq![], q),
        }
    } else {
        (seq![], q)
    }
}


/// `"let" IDENT "=" expression | "return" expression | expression | (nothing)`: always succeeds,
/// with the empty statement when nothing else does.
pub open spec fn sp_simple(t: Seq<Token>, p: int) -> (NodeModel, int) {
    let let_value = if 0 <= p && p + 2 < t.len() && t[p] is Let && t[p + 1] is Identifier && t[p + 2] is Assign {
        sp_expression(t, p + 3)
    } else {
        None
    };
    let return_value = if 0 <= p < t.len() && t[p] is Return {
        sp_expression(t, p + 1)
    } else {
        None
    };
    if let_value is Some {
        (NodeModel::LetStatement(text_of(t[p + 1]), Box::new(let_value.unwrap().0)), let_value.unwrap().1)
    } else if return_value is Some {
        (NodeModel::ReturnStatement(Box::new(return_value.unwrap().0)), return_value.unwrap().1)
    } else if sp_expression(t, p) is Some {
        (NodeModel::ExpressionStatement(Box::new(sp_expression(t, p).unwrap().0)), sp_expression(t, p).unwrap().1)
    } else {
        (NodeModel::EmptyStatement, p)
    }
}

/// A statement at `p`: a simple statement ended by `;`, a block, or a loop.
pub open spec fn sp_statement(t: Seq<Token>, p: int) -> Option<(NodeModel, int)>
    decreases t.len() - p, 0int,
{
    let (simple, q) = sp_simple(t, p);
    if 0 <= q < t.len() && t[q] is Semicolon {
        Some((simple, q + 1))
    } else if 0 <= p < t.len() && t[p] is LCurlyBrace {
        let (body, r) = sp_statements(t, p + 1);
        if 0 <= r < t.len() && t[r] is RCurlyBrace {
            Some((NodeModel::Block(body), r + 1))
        } else {
            None
        }
    } else if 0 <= p && p + 1 < t.len() && t[p] is While && t[p + 1] is LParenthesis {
        match sp_expression(t, p + 2) {
            Some((condition, r)) => if p < r < t.len() && t[r] is RParenthesis {
                match sp_statement(t, r + 1) {
                    Some((body, s)) => Some((
                        NodeModel::While { condition: Box::new(condition), body: Box::new(body) },
                        s,
                    )),
                    None => None,
                }
            } else {
                None
            },
            None => None,
        }
    } else {
        None
    }
}

/// As many statements as parse one after the other from `p`, with the position after the last.
pub open spec fn sp_statements(t: Seq<Token>, p: int) -> (Seq<NodeModel>, int)
    decreases t.len() - p, 1int,
{
    if p < 0 || p > t.len() {
        (seq![], p)
    } else {
        match sp_statement(t, p) {
            Some((s, q)) => if p < q <= t.len() {
                let (rest, r) = sp_statements(t, q);
                (seq![s] + rest, r)
            } else {
                (seq![], p)
            },
            None => (seq![], p),
        }
    }
}

/// `TYPE IDENT | IDENT`
pub open spec fn sp_formal(t: Seq<Token>, p: int) -> Option<(NodeModel, int)> {
    if 0 <= p && p + 1 < t.len() && t[p] is TypeIdentifier && t[p + 1] is Identifier {
        Some((NodeModel::TypedFormal(text_of(t[p]), text_of(t[p + 1])), p + 2))
    } else if 0 <= p < t.len() && t[p] is Identifier {
        Some((NodeModel::UntypedFormal(text_of(t[p])), p + 1))
    } else {
        None
    }
}

/// As many `"," formal` as parse from `q`.
pub open spec fn sp_more_formals(t: Seq<Token>, q: int) -> (Seq<NodeModel>, int)
    decreases t.len() - q,
{
    if 0 <= q < t.len() && t[q] is Comma {
        match sp_formal(t, q + 1) {
            Some((f, r)) => if q < r <= t.len() {
                let (rest, s) = sp_more_formals(t, r);
                (seq![f] + rest, s)
            } else {
                (seq![], q)
            },
            None => (seq![], q),
        }
    } else {
        (seq![], q)
    }
}

/// `"(" [formal ("," formal)*] ")"`, as the list of the formals.
pub open spec fn sp_formals(t: Seq<Token>, p: int) -> Option<(Seq<NodeModel>, int)> {
    if 0 <= p < t.len() && t[p] is LParenthesis {
        let (list, q) = match sp_formal(t, p + 1) {
            Some((first, r)) => {
                let (rest, s) = sp_more_formals(t, r);
                (seq![first] + rest, s)
            },
            None => (seq![], p + 1),
        };
        if 0 <= q < t.len() && t[q] is RParenthesis {
            Some((list, q + 1))
        } else {
            None
        }
    } else {
        None
    }
}

/// A function definition at `p`.
pub open spec fn sp_function(t: Seq<Token>, p: int) -> Option<(NodeModel, int)> {
    if 0 <= p && p + 1 < t.len() && t[p] is Function && t[p + 1] is Identifier {
        match sp_formals(t, p + 2) {
            Some((formals, q)) => if 0 <= q < t.len() && t[q] is LCurlyBrace {
                let (body, r) = sp_statements(t, q + 1);
                if 0 <= r < t.len() && t[r] is RCurlyBrace {
                    Some((
                        NodeModel::Function {
                            name: text_of(t[p + 1]),
                            formals,
                            body: Box::new(NodeModel::FunctionBody(body)),
                        },
                        r + 1,
                    ))
                } else {
                    None
                }
            } else {
                None
            },
            None => None,
        }
    } else {
        None
    }
}

/// As many function definitions as parse one after the other from `p`, with the position after
/// the last.
pub open spec fn sp_functions(t: Seq<Token>, p: int) -> (Seq<NodeModel>, int)
    decreases t.len() - p,
{
    if p < 0 || p > t.len() {
        (seq![], p)
    } else {
        match sp_function(t, p) {
            Some((f, q)) => if p < q <= t.len() {
                let (rest, r) = sp_functions(t, q);
                (seq![f] + rest, r)
            } else {
                (seq![], p)
            },
            None => (seq![], p),
        }
    }
}

/// The program that the tokens `t` spell: the function definitions from the start, which must
/// take up every token.
pub open spec fn sp_program(t: Seq<Token>) -> Option<NodeModel> {
    let (functions, q) = sp_functions(t, 0);
    if q == t.len() {
        Some(NodeModel::Program(functions))
    } else {
        None
    }
}


// ******************************************* BOUNDS *******************************************

/// What a parse of a single item at `p` gives back lies after `p` and within the tokens.
pub open spec fn advances(r: Option<(NodeModel, int)>, t: Seq<Token>, p: int) -> bool {
    r matches Some((_, q)) ==> p < q <= t.len()
}

proof fn lemma_expression_bounds(t: Seq<Token>, p: int)
    ensures
        advances(sp_expression(t, p), t, p),
    decreases t.len() - p, 8int, 0int,
{
    lemma_binary_bounds(t, p, 3);
    lemma_binary_bounds(t, p, 2);
    lemma_binary_bounds(t, p, 1);
    lemma_unary_bounds(t, p);
    lemma_call_bounds(t, p);
    lemma_parenthesized_bounds(t, p);
}

proof fn lemma_binary_bounds(t: Seq<Token>, p: int, level: int)
    ensures
        advances(sp_binary(t, p, level), t, p),
    decreases t.len() - p, 4 + level, 1int,
{
    if 1 <= level <= 3 {
        lemma_operand_bounds(t, p, level);
        if let Some((lhs, q)) = sp_operand(t, p, level) {
            lemma_fold_bounds(t, lhs, q, level);
        }
    }
}

proof fn lemma_operand_bounds(t: Seq<Token>, p: int, level: int)
    ensures
        advances(sp_operand(t, p, level), t, p),
    decreases t.len() - p, 4 + level, 0int,
{
    if level == 1 {
        lemma_term_bounds(t, p);
    } else if 2 <= level <= 3 {
        lemma_binary_bounds(t, p, level - 1);
    }
}

proof fn lemma_fold_bounds(t: Seq<Token>, lhs: NodeModel, q: int, level: int)
    requires
        q <= t.len(),
    ensures
        q <= sp_fold(t, lhs, q, level).1 <= t.len(),
    decreases t.len() - q, 4 + level, 2int,
{
    if 1 <= level <= 3 && is_operator(t, q, level) {
        if let Some((rhs, r)) = sp_operand(t, q + 1, level) {
            if q < r <= t.len() {
                lemma_fold_bounds(t, binary_node(t[q], lhs, rhs), r, level);
            }
        }
    }
}

proof fn lemma_term_bounds(t: Seq<Token>, p: int)
    ensures
        advances(sp_term(t, p), t, p),
    decreases t.len() - p, 4int, 0int,
{
    lemma_unary_bounds(t, p);
    lemma_call_bounds(t, p);
    lemma_typed_bounds(t, p);
    lemma_parenthesized_bounds(t, p);
}

proof fn lemma_unary_bounds(t: Seq<Token>, p: int)
    ensures
        advances(sp_unary(t, p), t, p),
    decreases t.len() - p, 3int, 0int,
{
    if 0 <= p < t.len() && t[p] is Minus {
        lemma_expression_bounds(t, p + 1);
    }
}

proof fn lemma_typed_bounds(t: Seq<Token>, p: int)
    ensures
        advances(sp_typed(t, p), t, p),
    decreases t.len() - p, 3int, 0int,
{
    if 0 <= p < t.len() && t[p] is TypeIdentifier {
        lemma_expression_bounds(t, p + 1);
    }
}

proof fn lemma_parenthesized_bounds(t: Seq<Token>, p: int)
    ensures
        advances(sp_parenthesized(t, p), t, p),
    decreases t.len() - p, 3int, 0int,
{
    if 0 <= p < t.len() && t[p] is LParenthesis {
        lemma_expression_bounds(t, p + 1);
    }
}

proof fn lemma_call_bounds(t: Seq<Token>, p: int)
    ensures
        advances(sp_call(t, p), t, p),
    decreases t.len() - p, 3int, 0int,
{
    if 0 <= p < t.len() && t[p] is Identifier {
        lemma_arguments_bounds(t, p + 1);
    }
}

proof fn lemma_arguments_bounds(t: Seq<Token>, p: int)
    ensures
        sp_arguments(t, p) matches Some((_, q)) ==> p < q <= t.len(),
    decreases t.len() - p, 2int, 0int,
{
    if 0 <= p < t.len() && t[p] is LParenthesis {
        lemma_expression_bounds(t, p + 1);
        if let Some((_, r)) = sp_expression(t, p + 1) {
            lemma_more_arguments_bounds(t, r);
        }
    }
}

proof fn lemma_more_arguments_bounds(t: Seq<Token>, q: int)
    requires
        0 <= q <= t.len(),
    ensures
        q <= sp_more_arguments(t, q).1 <= t.len(),
    decreases t.len() - q, 2int, 0int,
{
    if q < t.len() && t[q] is Comma {
        lemma_expression_bounds(t, q + 1);
        if let Some((_, r)) = sp_expression(t, q + 1) {
            lemma_more_arguments_bounds(t, r);
        }
    }
}

/// An expression is a binary expression of the loosest level: the other alternatives of
/// `expression` start with a term, as that one does, and so succeed only where it does.
proof fn lemma_expression_is_level3(t: Seq<Token>, p: int)
    ensures
        sp_expression(t, p) == sp_binary(t, p, 3),
{
    lemma_binary_bounds(t, p, 2);
    lemma_binary_bounds(t, p, 1);
    lemma_term_bounds(t, p);
    if sp_binary(t, p, 3) is None {
        assert(sp_binary(t, p, 2) is None);
        assert(sp_binary(t, p, 1) is None);
        assert(sp_term(t, p) is None);
    }
}

proof fn lemma_simple_bounds(t: Seq<Token>, p: int)
    requires
        0 <= p <= t.len(),
    ensures
        p <= sp_simple(t, p).1 <= t.len(),
{
    lemma_expression_bounds(t, p);
    lemma_expression_bounds(t, p + 1);
    lemma_expression_bounds(t, p + 3);
}

proof fn lemma_statement_bounds(t: Seq<Token>, p: int)
    ensures
        advances(sp_statement(t, p), t, p),
    decreases t.len() - p, 0int,
{
    if 0 <= p <= t.len() {
        lemma_simple_bounds(t, p);
        if 0 <= p < t.len() && t[p] is LCurlyBrace {
            lemma_statements_bounds(t, p + 1);
        }
        if 0 <= p && p + 1 < t.len() && t[p] is While && t[p + 1] is LParenthesis {
            if let Some((_, r)) = sp_expression(t, p + 2) {
                if p < r < t.len() {
                    lemma_statement_bounds(t, r + 1);
                }
            }
        }
    }
}

proof fn lemma_statements_bounds(t: Seq<Token>, p: int)
    requires
        0 <= p <= t.len(),
    ensures
        p <= sp_statements(t, p).1 <= t.len(),
    decreases t.len() - p, 1int,
{
    lemma_statement_bounds(t, p);
    if let Some((_, q)) = sp_statement(t, p) {
        lemma_statements_bounds(t, q);
    }
}

proof fn lemma_more_formals_bounds(t: Seq<Token>, q: int)
    requires
        0 <= q <= t.len(),
    ensures
        q <= sp_more_formals(t, q).1 <= t.len(),
    decreases t.len() - q,
{
    if q < t.len() && t[q] is Comma {
        if let Some((_, r)) = sp_formal(t, q + 1) {
            lemma_more_formals_bounds(t, r);
        }
    }
}

proof fn lemma_function_bounds(t: Seq<Token>, p: int)
    ensures
        advances(sp_function(t, p), t, p),
{
    if 0 <= p && p + 1 < t.len() && t[p] is Function && t[p + 1] is Identifier {
        if let Some((_, r)) = sp_formal(t, p + 3) {
            lemma_more_formals_bounds(t, r);
        }
        if let Some((_, q)) = sp_formals(t, p + 2) {
            if 0 <= q < t.len() {
                lemma_statements_bounds(t, q + 1);
            }
        }
    }
}


// ***************************************** EXPRESSIONS ******************************************

/// What a parse of an item gives back, as the spec function's result `s` describes it.
pub open spec fn parsed_as(r: Option<(Node, usize)>, s: Option<(NodeModel, int)>) -> bool {
    match r {
        Some((e, q)) => s == Some((e.model(), q as int)),
        None => s is None,
    }
}

/// The text of the identifier, type identifier, number or string token at `p`.
fn text_at(tokens: &[Token], p: usize) -> (text: String)
    requires
        p < tokens@.len(),
    ensures
        text@ == text_of(tokens@[p as int]),
{
    match &tokens[p] {
        Token::Identifier(d) => d.value.clone(),
        Token::TypeIdentifier(d) => d.value.clone(),
        Token::NumberLiteral(d) => d.value.clone(),
        Token::StringLiteral(d) => d.value.clone(),
        _ => String::new(),
    }
}

/// Whether the token at `p` is an operator of level `level`, as `is_operator` describes it.
fn operator_at(tokens: &[Token], p: usize, level: u8) -> (r: bool)
    ensures
        r == is_operator(tokens@, p as int, level as int),
{
    if p >= tokens.len() {
        return false;
    }
    match &tokens[p] {
        Token::Times | Token::Divided => level == 1,
        Token::Plus | Token::Minus => level == 2,
        Token::Equals | Token::GreaterThan | Token::LessThan | Token::GreaterThanOrEquals
        | Token::LessThanOrEquals | Token::NotEquals => level == 3,
        _ => false,
    }
}

/// The node that the operator `op` makes of its operands, as `binary_node` describes it.
fn binary_node_exec(op: &Token, lhs: Node, rhs: Node) -> (n: Node)
    ensures
        n.model() == binary_node(*op, lhs.model(), rhs.model()),
{
    let (l, r) = (Box::new(lhs), Box::new(rhs));
    match op {
        Token::Times => Node::Mul(l, r),
        Token::Divided => Node::Div(l, r),
        Token::Plus => Node::Add(l, r),
        Token::Minus => Node::Sub(l, r),
        Token::Equals => Node::Equals(l, r),
        Token::GreaterThan => Node::GreaterThan(l, r),
        Token::LessThan => Node::LessThan(l, r),
        Token::GreaterThanOrEquals => Node::GreaterThanOrEquals(l, r),
        Token::LessThanOrEquals => Node::LessThanOrEquals(l, r),
        _ => Node::NotEquals(l, r),
    }
}

/// An expression at `p`, as `sp_expression` describes it.
fn expression(tokens: &[Token], p: usize) -> (r: Option<(Node, usize)>)
    ensures
        parsed_as(r, sp_expression(tokens@, p as int)),
    decreases tokens@.len() - p, 8int, 0int,
{
    proof {
        lemma_expression_is_level3(tokens@, p as int);
    }
    binary(tokens, p, 3)
}

/// The binary expression of level `level` at `p`, as `sp_binary` describes it.
fn binary(tokens: &[Token], p: usize, level: u8) -> (r: Option<(Node, usize)>)
    requires
        1 <= level <= 3,
    ensures
        parsed_as(r, sp_binary(tokens@, p as int, level as int)),
    decreases tokens@.len() - p, 4 + level, 1int,
{
    let ghost t = tokens@;
    proof {
        lemma_operand_bounds(t, p as int, level as int);
    }
    let (mut lhs, mut q) = match operand(tokens, p, level) {
        Some(found) => found,
        None => return None,
    };
    loop
        invariant
            t == tokens@,
            1 <= level <= 3,
            p < q <= tokens.len(),
            sp_binary(t, p as int, level as int) == Some(sp_fold(t, lhs.model(), q as int, level as int)),
        decreases t.len() - q,
    {
        if !operator_at(tokens, q, level) {
            return Some((lhs, q));
        }
        proof {
            lemma_operand_bounds(t, q + 1, level as int);
        }
        match operand(tokens, q + 1, level) {
            Some((rhs, r)) => {
                lhs = binary_node_exec(&tokens[q], lhs, rhs);
                q = r;
            },
            None => return Some((lhs, q)),
        }
    }
}

/// An operand of level `level` at `p`, as `sp_operand` describes it.
fn operand(tokens: &[Token], p: usize, level: u8) -> (r: Option<(Node, usize)>)
    requires
        1 <= level <= 3,
    ensures
        parsed_as(r, sp_operand(tokens@, p as int, level as int)),
    decreases tokens@.len() - p, 4 + level, 0int,
{
    if level == 1 {
        term(tokens, p)
    } else {
        binary(tokens, p, level - 1)
    }
}

/// A term at `p`, as `sp_term` describes it.
fn term(tokens: &[Token], p: usize) -> (r: Option<(Node, usize)>)
    ensures
        parsed_as(r, sp_term(tokens@, p as int)),
    decreases tokens@.len() - p, 4int, 0int,
{
    if p >= tokens.len() {
        return None;
    }
    match &tokens[p] {
        Token::Minus => match expression(tokens, p + 1) {
            Some((rhs, q)) => {
                let minus = Node::UnaryMinus;
                let n = Node::UnaryOperator { op: Box::new(minus), rhs: Box::new(rhs) };
                proof {
                    assert(minus.model() == NodeModel::UnaryMinus);
                }
                Some((n, q))
            },
            None => None,
        },
        Token::Identifier(d) => match arguments(tokens, p + 1) {
            Some((args, q)) => {
                let n = Node::FunctionCall { callee: d.value.clone(), argument_list: args };
                proof {
                    assert(n.model()->argument_list =~= models(args@));
                }
                Some((n, q))
            },
            None => Some((Node::Identifier(d.value.clone()), p + 1)),
        },
        Token::StringLiteral(d) => Some((Node::StringLiteral(d.value.clone()), p + 1)),
        Token::NumberLiteral(d) => Some((Node::NumberLiteral(d.value.clone()), p + 1)),
        Token::True => Some((Node::BooleanLiteral(true), p + 1)),
        Token::False => Some((Node::BooleanLiteral(false), p + 1)),
        Token::TypeIdentifier(d) => match expression(tokens, p + 1) {
            Some((e, q)) => Some((Node::TypedExpression(d.value.clone(), Box::new(e)), q)),
            None => None,
        },
        Token::LParenthesis => match expression(tokens, p + 1) {
            Some((e, q)) => if q < tokens.len() && matches!(tokens[q], Token::RParenthesis) {
                Some((e, q + 1))
            } else {
                None
            },
            None => None,
        },
        _ => None,
    }
}

/// `"(" [expression ("," expression)*] ")"` at `p`, as `sp_arguments` describes it.
fn arguments(tokens: &[Token], p: usize) -> (r: Option<(Vec<Node>, usize)>)
    ensures
        match r {
            Some((args, q)) => sp_arguments(tokens@, p as int) == Some((models(args@), q as int)),
            None => sp_arguments(tokens@, p as int) is None,
        },
    decreases tokens@.len() - p, 2int, 0int,
{
    let ghost t = tokens@;
    if !(p < tokens.len() && matches!(tokens[p], Token::LParenthesis)) {
        return None;
    }
    let mut list: Vec<Node> = Vec::new();
    let mut q = p + 1;
    proof {
        assert(models(list@) =~= seq![]);
        lemma_expression_bounds(t, p + 1);
    }
    match expression(tokens, p + 1) {
        Some((first, r)) => {
            proof {
                lemma_models_push(list@, first);
                lemma_more_arguments_bounds(t, r as int);
                assert(seq![first.model()] + sp_more_arguments(t, r as int).0
                    == models(list@.push(first)) + sp_more_arguments(t, r as int).0);
            }
            list.push(first);
            q = r;
            loop
                invariant
                    t == tokens@,
                    p < q <= t.len(),
                    sp_arguments(t, p as int) == (
                        if 0 <= sp_more_arguments(t, q as int).1 < t.len() && t[sp_more_arguments(t, q as int).1] is RParenthesis {
                            Some((models(list@) + sp_more_arguments(t, q as int).0, sp_more_arguments(t, q as int).1 + 1))
                        } else {
                            None
                        }
                    ),
                ensures
                    p < q <= t.len(),
                    sp_more_arguments(t, q as int) == (Seq::<NodeModel>::empty(), q as int),
                    sp_arguments(t, p as int) == (
                        if q < t.len() && t[q as int] is RParenthesis {
                            Some((models(list@), q + 1))
                        } else {
                            None
                        }
                    ),
                decreases t.len() - q,
            {
                if !(q < tokens.len() && matches!(tokens[q], Token::Comma)) {
                    break;
                }
                proof {
                    lemma_expression_bounds(t, q + 1);
                }
                match expression(tokens, q + 1) {
                    Some((e, r)) => {
                        proof {
                            lemma_models_push(list@, e);
                            assert(models(list@) + sp_more_arguments(t, q as int).0
                                =~= models(list@.push(e)) + sp_more_arguments(t, r as int).0);
                        }
                        list.push(e);
                        q = r;
                    },
                    None => break,
                }
            }
            proof {
                assert(models(list@) + sp_more_arguments(t, q as int).0 =~= models(list@));
            }
        },
        None => {},
    }
    if q < tokens.len() && matches!(tokens[q], Token::RParenthesis) {
        Some((list, q + 1))
    } else {
        None
    }
}


// ****************************************** STATEMENTS ******************************************

/// A simple statement at `p`, as `sp_simple` describes it.
fn simple(tokens: &[Token], p: usize) -> (r: (Node, usize))
    ensures
        sp_simple(tokens@, p as int) == (r.0.model(), r.1 as int),
{
    if p < tokens.len() && tokens.len() - p > 2 && matches!(tokens[p], Token::Let)
        && matches!(tokens[p + 1], Token::Identifier(_)) && matches!(tokens[p + 2], Token::Assign) {
        if let Some((value, q)) = expression(tokens, p + 3) {
            return (Node::LetStatement(text_at(tokens, p + 1), Box::new(value)), q);
        }
    }
    if p < tokens.len() && matches!(tokens[p], Token::Return) {
        if let Some((value, q)) = expression(tokens, p + 1) {
            return (Node::ReturnStatement(Box::new(value)), q);
        }
    }
    match expression(tokens, p) {
        Some((e, q)) => (Node::ExpressionStatement(Box::new(e)), q),
        None => (Node::EmptyStatement, p),
    }
}

/// A statement at `p`, as `sp_statement` describes it.
fn statement(tokens: &[Token], p: usize) -> (r: Option<(Node, usize)>)
    ensures
        parsed_as(r, sp_statement(tokens@, p as int)),
    decreases tokens@.len() - p, 0int,
{
    let ghost t = tokens@;
    let (s, q) = simple(tokens, p);
    if q < tokens.len() && matches!(tokens[q], Token::Semicolon) {
        return Some((s, q + 1));
    }
    if p >= tokens.len() {
        return None;
    }
    match &tokens[p] {
        Token::LCurlyBrace => {
            let (body, r) = statements(tokens, p + 1);
            if r < tokens.len() && matches!(tokens[r], Token::RCurlyBrace) {
                proof { lemma_list_models(body); }
                Some((Node::Block(body), r + 1))
            } else {
                None
            }
        },
        Token::While => {
            if !(p + 1 < tokens.len() && matches!(tokens[p + 1], Token::LParenthesis)) {
                return None;
            }
            proof {
                lemma_expression_bounds(t, p + 2);
            }
            let (condition, r) = match expression(tokens, p + 2) {
                Some(found) => found,
                None => return None,
            };
            if !(r < tokens.len() && matches!(tokens[r], Token::RParenthesis)) {
                return None;
            }
            match statement(tokens, r + 1) {
                Some((body, end)) => Some((Node::While { condition: Box::new(condition), body: Box::new(body) }, end)),
                None => None,
            }
        },
        _ => None,
    }
}

/// As many statements as parse one after the other from `p`, as `sp_statements` describes them.
fn statements(tokens: &[Token], p: usize) -> (r: (Vec<Node>, usize))
    requires
        p <= tokens@.len(),
    ensures
        models(r.0@) == sp_statements(tokens@, p as int).0,
        r.1 == sp_statements(tokens@, p as int).1,
    decreases tokens@.len() - p, 1int,
{
    let ghost t = tokens@;
    let mut list: Vec<Node> = Vec::new();
    let mut q = p;
    proof {
        assert(models(list@) + sp_statements(t, p as int).0 =~= sp_statements(t, p as int).0);
    }
    loop
        invariant
            t == tokens@,
            p <= q <= t.len(),
            sp_statements(t, p as int) == (models(list@) + sp_statements(t, q as int).0, sp_statements(t, q as int).1),
        decreases t.len() - q,
    {
        proof {
            lemma_statement_bounds(t, q as int);
        }
        match statement(tokens, q) {
            Some((s, r)) => {
                proof {
                    lemma_models_push(list@, s);
                    assert(models(list@) + sp_statements(t, q as int).0 =~= models(list@.push(s)) + sp_statements(t, r as int).0);
                }
                list.push(s);
                q = r;
            },
            None => {
                proof {
                    assert(models(list@) + sp_statements(t, q as int).0 =~= models(list@));
                }
                return (list, q);
            },
        }
    }
}

// ****************************************** FUNCTIONS *******************************************

/// A formal at `p`, as `sp_formal` describes it.
fn formal(tokens: &[Token], p: usize) -> (r: Option<(Node, usize)>)
    ensures
        parsed_as(r, sp_formal(tokens@, p as int)),
{
    if p >= tokens.len() {
        return None;
    }
    match &tokens[p] {
        Token::TypeIdentifier(d) => {
            if p + 1 < tokens.len() && matches!(tokens[p + 1], Token::Identifier(_)) {
                Some((Node::TypedFormal(d.value.clone(), text_at(tokens, p + 1)), p + 2))
            } else {
                None
            }
        },
        Token::Identifier(d) => Some((Node::UntypedFormal(d.value.clone()), p + 1)),
        _ => None,
    }
}

/// `"(" [formal ("," formal)*] ")"` at `p`, as `sp_formals` describes it.
fn formals(tokens: &[Token], p: usize) -> (r: Option<(Vec<Node>, usize)>)
    ensures
        match r {
            Some((list, q)) => sp_formals(tokens@, p as int) == Some((models(list@), q as int)),
            None => sp_formals(tokens@, p as int) is None,
        },
{
    let ghost t = tokens@;
    if !(p < tokens.len() && matches!(tokens[p], Token::LParenthesis)) {
        return None;
    }
    let mut list: Vec<Node> = Vec::new();
    let mut q = p + 1;
    proof {
        assert(models(list@) =~= seq![]);
    }
    match formal(tokens, p + 1) {
        Some((first, r)) => {
            proof {
                lemma_models_push(list@, first);
                lemma_more_formals_bounds(t, r as int);
                assert(seq![first.model()] + sp_more_formals(t, r as int).0
                    == models(list@.push(first)) + sp_more_formals(t, r as int).0);
            }
            list.push(first);
            q = r;
            loop
                invariant
                    t == tokens@,
                    p < q <= t.len(),
                    sp_formals(t, p as int) == (
                        if 0 <= sp_more_formals(t, q as int).1 < t.len() && t[sp_more_formals(t, q as int).1] is RParenthesis {
                            Some((models(list@) + sp_more_formals(t, q as int).0, sp_more_formals(t, q as int).1 + 1))
                        } else {
                            None
                        }
                    ),
                ensures
                    p < q <= t.len(),
                    sp_more_formals(t, q as int) == (Seq::<NodeModel>::empty(), q as int),
                    sp_formals(t, p as int) == (
                        if q < t.len() && t[q as int] is RParenthesis {
                            Some((models(list@), q + 1))
                        } else {
                            None
                        }
                    ),
                decreases t.len() - q,
            {
                if !(q < tokens.len() && matches!(tokens[q], Token::Comma)) {
                    break;
                }
                match formal(tokens, q + 1) {
                    Some((f, r)) => {
                        proof {
                            lemma_models_push(list@, f);
                            assert(models(list@) + sp_more_formals(t, q as int).0
                                =~= models(list@.push(f)) + sp_more_formals(t, r as int).0);
                        }
                        list.push(f);
                        q = r;
                    },
                    None => break,
                }
            }
            proof {
                assert(models(list@) + sp_more_formals(t, q as int).0 =~= models(list@));
            }
        },
        None => {},
    }
    if q < tokens.len() && matches!(tokens[q], Token::RParenthesis) {
        Some((list, q + 1))
    } else {
        None
    }
}

/// A function definition at `p`, as `sp_function` describes it.
fn function(tokens: &[Token], p: usize) -> (r: Option<(Node, usize)>)
    ensures
        parsed_as(r, sp_function(tokens@, p as int)),
{
    if !(p < tokens.len() && matches!(tokens[p], Token::Function)) || p + 1 >= tokens.len() {
        return None;
    }
    if !matches!(tokens[p + 1], Token::Identifier(_)) {
        return None;
    }
    let name = text_at(tokens, p + 1);
    let (formals, q) = match formals(tokens, p + 2) {
        Some(found) => found,
        None => return None,
    };
    if !(q < tokens.len() && matches!(tokens[q], Token::LCurlyBrace)) {
        return None;
    }
    let (body, r) = statements(tokens, q + 1);
    if !(r < tokens.len() && matches!(tokens[r], Token::RCurlyBrace)) {
        return None;
    }
    let fbody = Node::FunctionBody(body);
    proof {
        lemma_list_models(body);
    }
    let n = Node::Function { name, formals, body: Box::new(fbody) };
    proof {
        assert(n.model()->formals =~= models(formals@));
    }
    Some((n, r + 1))
}

/// Parses `tokens` as a program: as many function definitions as parse one after the other from
/// the start, which must take up every token.
pub fn parser(tokens: &[Token]) -> (r: Option<Node>)
    ensures
        match r {
            Some(e) => sp_program(tokens@) == Some(e.model()),
            None => sp_program(tokens@) is None,
        },
{
    let ghost t = tokens@;
    let mut list: Vec<Node> = Vec::new();
    let mut q: usize = 0;
    proof {
        assert(models(list@) + sp_functions(t, 0).0 =~= sp_functions(t, 0).0);
    }
    loop
        invariant
            t == tokens@,
            q <= t.len(),
            sp_functions(t, 0) == (models(list@) + sp_functions(t, q as int).0, sp_functions(t, q as int).1),
        decreases t.len() - q,
    {
        proof {
            lemma_function_bounds(t, q as int);
        }
        match function(tokens, q) {
            Some((f, r)) => {
                proof {
                    lemma_models_push(list@, f);
                    assert(models(list@) + sp_functions(t, q as int).0 =~= models(list@.push(f)) + sp_functions(t, r as int).0);
                }
                list.push(f);
                q = r;
            },
            None => {
                proof {
                    assert(models(list@) + sp_functions(t, q as int).0 =~= models(list@));
                }
                if q == tokens.len() {
                    proof { lemma_list_models(list); }
                    return Some(Node::Program(list));
                } else {
                    return None;
                }
            },
        }
    }
}

} // verus!
