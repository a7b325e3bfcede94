//! The grammar of the small function language, over the tokens of `lexer`:
//!
//! ```text
//! program    := function*                                  (all tokens)
//! function   := "function" IDENT "(" [IDENT ("," IDENT)*] ")" "{" statement* "}"
//! statement  := IDENT ";" | ";" | "{" statement* "}" | "while" "(" IDENT ")" statement
//! ```
//!
//! Repetitions are greedy and stop at the first item that does not parse; alternatives are tried
//! in order and the first that succeeds is taken.
use vstd::prelude::*;

use crate::parser2::lexer::Token;

verus! {

/// The syntax tree.
#[derive(Debug)]
pub enum Expr {
    Program(Vec<Expr>),
    Function((Box<Expr>, Box<Expr>, Box<Expr>)),
    Block(Vec<Expr>),
    Expression(Vec<Expr>),
    Identifier(String),
    Formals(Vec<Expr>),
    Formal(String),
    FunctionBody(Vec<Expr>),
    While { condition: Box<Expr>, body: Box<Expr> },
    EmptyStatement,
}

/// The syntax tree as a mathematical value.
pub enum ExprModel {
    Program(Seq<ExprModel>),
    Function(Box<ExprModel>, Box<ExprModel>, Box<ExprModel>),
    Block(Seq<ExprModel>),
    Expression(Seq<ExprModel>),
    Identifier(Seq<char>),
    Formals(Seq<ExprModel>),
    Formal(Seq<char>),
    FunctionBody(Seq<ExprModel>),
    While { condition: Box<ExprModel>, body: Box<ExprModel> },
    EmptyStatement,
}

impl Expr {
    /// The tree as a mathematical value.
    pub open spec fn model(&self) -> ExprModel
        decreases self,
    {
        match self {
            Expr::Program(v) => ExprModel::Program(Seq::new(v.len() as nat, |i: int| if 0 <= i < v.len() { v[i].model() } else { ExprModel::EmptyStatement })),
            Expr::Function((n, f, b)) => ExprModel::Function(Box::new(n.model()), Box::new(f.model()), Box::new(b.model())),
            Expr::Block(v) => ExprModel::Block(Seq::new(v.len() as nat, |i: int| if 0 <= i < v.len() { v[i].model() } else { ExprModel::EmptyStatement })),
            Expr::Expression(v) => ExprModel::Expression(Seq::new(v.len() as nat, |i: int| if 0 <= i < v.len() { v[i].model() } else { ExprModel::EmptyStatement })),
            Expr::Identifier(s) => ExprModel::Identifier(s@),
            Expr::Formals(v) => ExprModel::Formals(Seq::new(v.len() as nat, |i: int| if 0 <= i < v.len() { v[i].model() } else { ExprModel::EmptyStatement })),
            Expr::Formal(s) => ExprModel::Formal(s@),
            Expr::FunctionBody(v) => ExprModel::FunctionBody(Seq::new(v.len() as nat, |i: int| if 0 <= i < v.len() { v[i].model() } else { ExprModel::EmptyStatement })),
            Expr::While { condition, body } => ExprModel::While { condition: Box::new(condition.model()), body: Box::new(body.model()) },
            Expr::EmptyStatement => ExprModel::EmptyStatement,
        }
    }
}


/// `IDENT`, as an identifier.
pub open spec fn sp_identifier(t: Seq<Token>, p: int) -> Option<(ExprModel, int)> {
    if 0 <= p < t.len() && t[p] is Identifier {
        Some((ExprModel::Identifier(t[p]->Identifier_0.value@), p + 1))
    } else {
        None
    }
}

/// Whether the token at `p` is `;`.
pub open spec fn at_semicolon(t: Seq<Token>, p: int) -> bool {
    0 <= p < t.len() && t[p] is Semicolon
}

/// A statement at `p`, with the position after it.
pub open spec fn sp_statement(t: Seq<Token>, p: int) -> Option<(ExprModel, int)>
    decreases t.len() - p, 0int,
{
    if p < 0 || p >= t.len() {
        None
    } else if t[p] is Identifier {
        if at_semicolon(t, p + 1) {
            Some((ExprModel::Identifier(t[p]->Identifier_0.value@), p + 2))
        } else {
            None
        }
    } else if t[p] is Semicolon {
        Some((ExprModel::EmptyStatement, p + 1))
    } else if t[p] is LCurlyBrace {
        let (body, q) = sp_statements(t, p + 1);
        if 0 <= q < t.len() && t[q] is RCurlyBrace {
            Some((ExprModel::Block(body), q + 1))
        } else {
            None
        }
    } else if t[p] is While && p + 3 < t.len() && t[p + 1] is LParenthesis && t[p + 2] is Identifier
        && t[p + 3] is RParenthesis {
        match sp_statement(t, p + 4) {
            Some((body, q)) => Some((
                ExprModel::While {
                    condition: Box::new(ExprModel::Identifier(t[p + 2]->Identifier_0.value@)),
                    body: Box::new(body),
                },
                q,
            )),
            None => None,
        }
    } else {
        None
    }
}

/// As many statements as parse one after the other from `p`, with the position after the last.
pub open spec fn sp_statements(t: Seq<Token>, p: int) -> (Seq<ExprModel>, int)
    decreases t.len() - p, 1int,
{
    if p < 0 || p > t.len() {
        (seq![], p)
    } else {
        match sp_statement(t, p) {
            Some((s, q)) => if p < q <= t.len() {
                let (rest, r) = sp_statements(t, q);
                (seq![s] + rest, r)
            } else {
                (seq![], p)
            },
            None => (seq![], p),
        }
    }
}

/// The identifiers `("," IDENT)*` from `p`, as formals, with the position after the last.
pub open spec fn sp_more_formals(t: Seq<Token>, p: int) -> (Seq<ExprModel>, int)
    decreases t.len() - p,
{
    if 0 <= p && p + 1 < t.len() && t[p] is Comma && t[p + 1] is Identifier {
        let (rest, r) = sp_more_formals(t, p + 2);
        (seq![ExprModel::Formal(t[p + 1]->Identifier_0.value@)] + rest, r)
    } else {
        (seq![], p)
    }
}

/// `"(" [IDENT ("," IDENT)*] ")"` at `p`.
pub open spec fn sp_formals(t: Seq<Token>, p: int) -> Option<(ExprModel, int)> {
    if 0 <= p < t.len() && t[p] is LParenthesis {
        let (list, q) = if p + 1 < t.len() && t[p + 1] is Identifier {
            let (rest, r) = sp_more_formals(t, p + 2);
            (seq![ExprModel::Formal(t[p + 1]->Identifier_0.value@)] + rest, r)
        } else {
            (seq![], p + 1)
        };
        if 0 <= q < t.len() && t[q] is RParenthesis {
            Some((ExprModel::Formals(list), q + 1))
        } else {
            None
        }
    } else {
        None
    }
}

/// A function definition at `p`.
pub open spec fn sp_function(t: Seq<Token>, p: int) -> Option<(ExprModel, int)> {
    if 0 <= p && p + 1 < t.len() && t[p] is Function && t[p + 1] is Identifier {
        match sp_formals(t, p + 2) {
            Some((formals, q)) => if 0 <= q < t.len() && t[q] is LCurlyBrace {
                let (body, r) = sp_statements(t, q + 1);
                if 0 <= r < t.len() && t[r] is RCurlyBrace {
                    Some((
                        ExprModel::Function(
                            Box::new(ExprModel::Identifier(t[p + 1]->Identifier_0.value@)),
                            Box::new(formals),
                            Box::new(ExprModel::FunctionBody(body)),
                        ),
                        r + 1,
                    ))
                } else {
                    None
                }
            } else {
                None
            },
            None => None,
        }
    } else {
        None
    }
}

/// As many function definitions as parse one after the other from `p`, with the position after
/// the last.
pub open spec fn sp_functions(t: Seq<Token>, p: int) -> (Seq<ExprModel>, int)
    decreases t.len() - p,
{
    if p < 0 || p > t.len() {
        (seq![], p)
    } else {
        match sp_function(t, p) {
            Some((f, q)) => if p < q <= t.len() {
                let (rest, r) = sp_functions(t, q);
                (seq![f] + rest, r)
            } else {
                (seq![], p)
            },
            None => (seq![], p),
        }
    }
}

/// The program that the tokens `t` spell: the function definitions from the start, which must
/// take up every token.
pub open spec fn sp_program(t: Seq<Token>) -> Option<ExprModel> {
    let (functions, q) = sp_functions(t, 0);
    if q == t.len() {
        Some(ExprModel::Program(functions))
    } else {
        None
    }
}


/// The models of the trees `v`, one for one.
pub open spec fn models(v: Seq<Expr>) -> Seq<ExprModel> {
    Seq::new(v.len(), |i: int| v[i].model())
}

proof fn lemma_list_models(v: Vec<Expr>)
    ensures
        Expr::Program(v).model() == ExprModel::Program(models(v@)),
        Expr::Block(v).model() == ExprModel::Block(models(v@)),
        Expr::Formals(v).model() == ExprModel::Formals(models(v@)),
        Expr::FunctionBody(v).model() == ExprModel::FunctionBody(models(v@)),
{
    assert(Expr::Program(v).model()->Program_0 =~= models(v@));
    assert(Expr::Block(v).model()->Block_0 =~= models(v@));
    assert(Expr::Formals(v).model()->Formals_0 =~= models(v@));
    assert(Expr::FunctionBody(v).model()->FunctionBody_0 =~= models(v@));
}

proof fn lemma_models_push(v: Seq<Expr>, e: Expr)
    ensures
        models(v.push(e)) == models(v).push(e.model()),
{
    assert(models(v.push(e)) =~= models(v).push(e.model()));
}

proof fn lemma_statement_bounds(t: Seq<Token>, p: int)
    ensures
        sp_statement(t, p) matches Some((_, q)) ==> p < q <= t.len(),
    decreases t.len() - p, 0int,
{
    if 0 <= p < t.len() {
        if t[p] is LCurlyBrace {
            lemma_statements_bounds(t, p + 1);
        } else if t[p] is While && p + 3 < t.len() {
            lemma_statement_bounds(t, p + 4);
        }
    }
}

proof fn lemma_statements_bounds(t: Seq<Token>, p: int)
    requires
        0 <= p <= t.len(),
    ensures
        p <= sp_statements(t, p).1 <= t.len(),
    decreases t.len() - p, 1int,
{
    lemma_statement_bounds(t, p);
    if let Some((_, q)) = sp_statement(t, p) {
        lemma_statements_bounds(t, q);
    }
}

proof fn lemma_more_formals_bounds(t: Seq<Token>, p: int)
    requires
        0 <= p <= t.len(),
    ensures
        p <= sp_more_formals(t, p).1 <= t.len(),
    decreases t.len() - p,
{
    if p + 1 < t.len() && t[p] is Comma && t[p + 1] is Identifier {
        lemma_more_formals_bounds(t, p + 2);
    }
}

proof fn lemma_function_bounds(t: Seq<Token>, p: int)
    ensures
        sp_function(t, p) matches Some((_, q)) ==> p < q <= t.len(),
{
    if 0 <= p && p + 1 < t.len() && t[p] is Function && t[p + 1] is Identifier {
        if p + 3 < t.len() && t[p + 3] is Identifier {
            lemma_more_formals_bounds(t, p + 4);
        }
        if let Some((_, q)) = sp_formals(t, p + 2) {
            if 0 <= q < t.len() {
                lemma_statements_bounds(t, q + 1);
            }
        }
    }
}

/// Whether the token at `p` is `;`.
fn semicolon_at(tokens: &[Token], p: usize) -> (r: bool)
    ensures
        r == at_semicolon(tokens@, p as int),
{
    p < tokens.len() && matches!(tokens[p], Token::Semicolon)
}

/// A statement at `p`, as `sp_statement` describes it.
fn statement(tokens: &[Token], p: usize) -> (r: Option<(Expr, usize)>)
    ensures
        match r {
            Some((e, q)) => sp_statement(tokens@, p as int) == Some((e.model(), q as int)),
            None => sp_statement(tokens@, p as int) is None,
        },
    decreases tokens@.len() - p, 0int,
{
    if p >= tokens.len() {
        return None;
    }
    match &tokens[p] {
        Token::Identifier(d) => {
            if semicolon_at(tokens, p + 1) {
                Some((Expr::Identifier(d.value.clone()), p + 2))
            } else {
                None
            }
        },
        Token::Semicolon => Some((Expr::EmptyStatement, p + 1)),
        Token::LCurlyBrace => {
            let (body, q) = statements(tokens, p + 1);
            if q < tokens.len() && matches!(tokens[q], Token::RCurlyBrace) {
                proof { lemma_list_models(body); }
                Some((Expr::Block(body), q + 1))
            } else {
                None
            }
        },
        Token::While => {
            if tokens.len() - p > 3 && matches!(tokens[p + 1], Token::LParenthesis)
                && matches!(tokens[p + 3], Token::RParenthesis) {
                match &tokens[p + 2] {
                    Token::Identifier(d) => match statement(tokens, p + 4) {
                        Some((body, q)) => {
                            let condition = Expr::Identifier(d.value.clone());
                            let e = Expr::While { condition: Box::new(condition), body: Box::new(body) };
                            proof {
                                assert(condition.model() == ExprModel::Identifier(tokens@[p + 2]->Identifier_0.value@));
                                assert(e.model() == ExprModel::While {
                                    condition: Box::new(condition.model()),
                                    body: Box::new(body.model()),
                                });
                            }
                            Some((e, q))
                        },
                        None => None,
                    },
                    _ => None,
                }
            } else {
                None
            }
        },
        _ => None,
    }
}

/// As many statements as parse one after the other from `p`, as `sp_statements` describes them.
fn statements(tokens: &[Token], p: usize) -> (r: (Vec<Expr>, usize))
    requires
        p <= tokens@.len(),
    ensures
        models(r.0@) == sp_statements(tokens@, p as int).0,
        r.1 == sp_statements(tokens@, p as int).1,
    decreases tokens@.len() - p, 1int,
{
    let ghost t = tokens@;
    let mut list: Vec<Expr> = Vec::new();
    let mut q = p;
    proof {
        assert(models(list@) + sp_statements(t, p as int).0 =~= sp_statements(t, p as int).0);
    }
    loop
        invariant
            t == tokens@,
            p <= q <= t.len(),
            sp_statements(t, p as int) == (models(list@) + sp_statements(t, q as int).0, sp_statements(t, q as int).1),
        decreases t.len() - q,
    {
        proof {
            lemma_statement_bounds(t, q as int);
        }
        match statement(tokens, q) {
            Some((s, r)) => {
                proof {
                    lemma_models_push(list@, s);
                    assert(models(list@) + sp_statements(t, q as int).0 =~= models(list@.push(s)) + sp_statements(t, r as int).0);
                }
                list.push(s);
                q = r;
            },
            None => {
                proof {
                    assert(models(list@) + sp_statements(t, q as int).0 =~= models(list@));
                }
                return (list, q);
            },
        }
    }
}

/// `"(" [IDENT ("," IDENT)*] ")"` at `p`, as `sp_formals` describes it.
fn formals(tokens: &[Token], p: usize) -> (r: Option<(Expr, usize)>)
    ensures
        match r {
            Some((e, q)) => sp_formals(tokens@, p as int) == Some((e.model(), q as int)),
            None => sp_formals(tokens@, p as int) is None,
        },
{
    let ghost t = tokens@;
    if !(p < tokens.len() && matches!(tokens[p], Token::LParenthesis)) {
        return None;
    }
    let mut list: Vec<Expr> = Vec::new();
    let mut q = p + 1;
    proof {
        assert(models(list@) =~= seq![]);
    }
    if q < tokens.len() {
        if let Token::Identifier(d) = &tokens[q] {
            list.push(Expr::Formal(d.value.clone()));
            q = q + 1;
            proof {
                lemma_more_formals_bounds(t, q as int);
                assert(models(list@) =~= seq![ExprModel::Formal(t[p + 1]->Identifier_0.value@)]);
            }
            while tokens.len() - q > 1 && matches!(tokens[q], Token::Comma)
                && matches!(tokens[q + 1], Token::Identifier(_))
                invariant
                    t == tokens@,
                    p + 2 <= q <= t.len(),
                    seq![ExprModel::Formal(t[p + 1]->Identifier_0.value@)] + sp_more_formals(t, p + 2).0
                        == models(list@) + sp_more_formals(t, q as int).0,
                    sp_more_formals(t, p + 2).1 == sp_more_formals(t, q as int).1,
                decreases t.len() - q,
            {
                let f = match &tokens[q + 1] {
                    Token::Identifier(d) => Expr::Formal(d.value.clone()),
                    _ => Expr::EmptyStatement,
                };
                proof {
                    lemma_models_push(list@, f);
                    assert(models(list@) + sp_more_formals(t, q as int).0 =~= models(list@.push(f)) + sp_more_formals(t, q + 2).0);
                }
                list.push(f);
                q = q + 2;
            }
            proof {
                assert(models(list@) + sp_more_formals(t, q as int).0 =~= models(list@));
            }
        }
    }
    if q < tokens.len() && matches!(tokens[q], Token::RParenthesis) {
        proof { lemma_list_models(list); }
        Some((Expr::Formals(list), q + 1))
    } else {
        None
    }
}

/// A function definition at `p`, as `sp_function` describes it.
fn function(tokens: &[Token], p: usize) -> (r: Option<(Expr, usize)>)
    ensures
        match r {
            Some((e, q)) => sp_function(tokens@, p as int) == Some((e.model(), q as int)),
            None => sp_function(tokens@, p as int) is None,
        },
{
    if !(p < tokens.len() && matches!(tokens[p], Token::Function)) || p + 1 >= tokens.len() {
        return None;
    }
    let name = match &tokens[p + 1] {
        Token::Identifier(d) => Expr::Identifier(d.value.clone()),
        _ => return None,
    };
    let (formals, q) = match formals(tokens, p + 2) {
        Some(found) => found,
        None => return None,
    };
    if !(q < tokens.len() && matches!(tokens[q], Token::LCurlyBrace)) {
        return None;
    }
    let (body, r) = statements(tokens, q + 1);
    if !(r < tokens.len() && matches!(tokens[r], Token::RCurlyBrace)) {
        return None;
    }
    let fbody = Expr::FunctionBody(body);
    proof {
        lemma_list_models(body);
        assert(name.model() == ExprModel::Identifier(tokens@[p + 1]->Identifier_0.value@));
    }
    let e = Expr::Function((Box::new(name), Box::new(formals), Box::new(fbody)));
    proof {
        assert(e.model() == ExprModel::Function(Box::new(name.model()), Box::new(formals.model()), Box::new(fbody.model())));
    }
    Some((e, r + 1))
}

/// Parses `tokens` as a program: as many function definitions as parse one after the other from
/// the start, which must take up every token.
pub fn parser(tokens: &[Token]) -> (r: Option<Expr>)
    ensures
        match r {
            Some(e) => sp_program(tokens@) == Some(e.model()),
            None => sp_program(tokens@) is None,
        },
{
    let ghost t = tokens@;
    let mut list: Vec<Expr> = Vec::new();
    let mut q: usize = 0;
    proof {
        assert(models(list@) + sp_functions(t, 0).0 =~= sp_functions(t, 0).0);
    }
    loop
        invariant
            t == tokens@,
            q <= t.len(),
            sp_functions(t, 0) == (models(list@) + sp_functions(t, q as int).0, sp_functions(t, q as int).1),
        decreases t.len() - q,
    {
        proof {
            lemma_function_bounds(t, q as int);
        }
        match function(tokens, q) {
            Some((f, r)) => {
                proof {
                    lemma_models_push(list@, f);
                    assert(models(list@) + sp_functions(t, q as int).0 =~= models(list@.push(f)) + sp_functions(t, r as int).0);
                }
                list.push(f);
                q = r;
            },
            None => {
                proof {
                    assert(models(list@) + sp_functions(t, q as int).0 =~= models(list@));
                }
                if q == tokens.len() {
                    proof { lemma_list_models(list); }
                    return Some(Expr::Program(list));
                } else {
                    return None;
                }
            },
        }
    }
}


/// A copy of each of the trees `v`.
fn clone_list(v: &Vec<Expr>) -> (r: Vec<Expr>)
    ensures
        models(r@) == models(v@),
    decreases v,
{
    let mut r: Vec<Expr> = Vec::new();
    let mut i: usize = 0;
    while i < v.len()
        invariant
            i <= v@.len(),
            models(r@) == models(v@.subrange(0, i as int)),
        decreases v@.len() - i,
    {
        proof {
            vstd::std_specs::vec::axiom_vec_index_decreases(*v, i as int);
        }
        let e = v[i].clone();
        proof {
            lemma_models_push(r@, e);
            assert(models(v@.subrange(0, i + 1)) =~= models(v@.subrange(0, i as int)).push(v@[i as int].model()));
        }
        r.push(e);
        i = i + 1;
    }
    proof {
        assert(v@.subrange(0, v@.len() as int) =~= v@);
    }
    r
}

impl Clone for Expr {
    /// A copy of the tree.
    fn clone(&self) -> (r: Self)
        ensures
            r.model() == self.model(),
        decreases self,
    {
        match self {
            Expr::Program(v) => {
                let c = clone_list(v);
                proof { lemma_list_models(*v); lemma_list_models(c); }
                Expr::Program(c)
            },
            Expr::Block(v) => {
                let c = clone_list(v);
                proof { lemma_list_models(*v); lemma_list_models(c); }
                Expr::Block(c)
            },
            Expr::Expression(v) => {
                let c = clone_list(v);
                proof {
                    assert(Expr::Expression(*v).model()->Expression_0 =~= models(v@));
                    assert(Expr::Expression(c).model()->Expression_0 =~= models(c@));
                }
                Expr::Expression(c)
            },
            Expr::Formals(v) => {
                let c = clone_list(v);
                proof { lemma_list_models(*v); lemma_list_models(c); }
                Expr::Formals(c)
            },
            Expr::FunctionBody(v) => {
                let c = clone_list(v);
                proof { lemma_list_models(*v); lemma_list_models(c); }
                Expr::FunctionBody(c)
            },
            Expr::Function((a, b, c)) => {
                Expr::Function((Box::new((**a).clone()), Box::new((**b).clone()), Box::new((**c).clone())))
            },
            Expr::Identifier(s) => Expr::Identifier(s.clone()),
            Expr::Formal(s) => Expr::Formal(s.clone()),
            Expr::While { condition, body } => Expr::While {
                condition: Box::new((**condition).clone()),
                body: Box::new((**body).clone()),
            },
            Expr::EmptyStatement => Expr::EmptyStatement,
        }
    }
}

} // verus!
