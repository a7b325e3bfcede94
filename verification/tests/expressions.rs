use testl::putting_it_together::ast::Node;
use testl::putting_it_together::lexer::{Token, TokenData};
use testl::putting_it_together::parser::parser;

// None of these cases is from the original test suite.

fn id(s: &str) -> Token {
    Token::Identifier(TokenData { value: s.to_string() })
}

fn num(s: &str) -> Token {
    Token::NumberLiteral(TokenData { value: s.to_string() })
}

fn ty(s: &str) -> Token {
    Token::TypeIdentifier(TokenData { value: s.to_string() })
}

fn string(s: &str) -> Token {
    Token::StringLiteral(TokenData { value: s.to_string() })
}

/// `function main() { <body> }`
fn in_main(body: Vec<Token>) -> Vec<Token> {
    let mut tokens = vec![Token::Function, id("main"), Token::LParenthesis, Token::RParenthesis, Token::LCurlyBrace];
    tokens.extend(body);
    tokens.push(Token::RCurlyBrace);
    tokens
}

/// The statements of the single function of a parsed program.
fn body_of(program: Node) -> Vec<Node> {
    match program {
        Node::Program(mut functions) => {
            assert_eq!(functions.len(), 1);
            match functions.remove(0) {
                Node::Function { body, .. } => match *body {
                    Node::FunctionBody(statements) => statements,
                    other => panic!("not a body: {:?}", other),
                },
                other => panic!("not a function: {:?}", other),
            }
        }
        other => panic!("not a program: {:?}", other),
    }
}

/// A compact rendering of an expression, with every binary node in parentheses.
fn show(e: &Node) -> String {
    match e {
        Node::Identifier(s) | Node::NumberLiteral(s) => s.clone(),
        Node::StringLiteral(s) => format!("{:?}", s),
        Node::BooleanLiteral(b) => b.to_string(),
        Node::Mul(l, r) => format!("({} * {})", show(l), show(r)),
        Node::Div(l, r) => format!("({} / {})", show(l), show(r)),
        Node::Add(l, r) => format!("({} + {})", show(l), show(r)),
        Node::Sub(l, r) => format!("({} - {})", show(l), show(r)),
        Node::Equals(l, r) => format!("({} == {})", show(l), show(r)),
        Node::LessThan(l, r) => format!("({} < {})", show(l), show(r)),
        Node::NotEquals(l, r) => format!("({} != {})", show(l), show(r)),
        Node::UnaryOperator { op, rhs } => {
            assert!(matches!(**op, Node::UnaryMinus));
            format!("-{}", show(rhs))
        }
        Node::FunctionCall { callee, argument_list } => {
            format!("{}({})", callee, argument_list.iter().map(show).collect::<Vec<_>>().join(", "))
        }
        Node::TypedExpression(t, e) => format!("{} {}", t, show(e)),
        other => panic!("not an expression: {:?}", other),
    }
}

fn expression_of(tokens: Vec<Token>) -> String {
    let mut body = vec![];
    body.extend(tokens);
    body.push(Token::Semicolon);
    let statements = body_of(parser(&in_main(body)).expect("should parse"));
    assert_eq!(statements.len(), 1);
    match &statements[0] {
        Node::ExpressionStatement(e) => show(e),
        other => panic!("not an expression statement: {:?}", other),
    }
}

#[test]
fn binary_operators_bind_by_level_and_associate_to_the_left() {
    assert_eq!(
        expression_of(vec![id("a"), Token::Plus, id("b"), Token::Times, id("c"), Token::Minus, id("d")]),
        "((a + (b * c)) - d)"
    );
    assert_eq!(
        expression_of(vec![num("1"), Token::Divided, num("2"), Token::Times, num("3")]),
        "((1 / 2) * 3)"
    );
    assert_eq!(
        expression_of(vec![id("a"), Token::LessThan, id("b"), Token::Plus, num("1"), Token::Equals, id("c")]),
        "((a < (b + 1)) == c)"
    );
}

#[test]
fn unary_minus_takes_the_whole_expression_after_it() {
    assert_eq!(expression_of(vec![Token::Minus, id("a"), Token::Plus, id("b")]), "-(a + b)");
    assert_eq!(expression_of(vec![id("x"), Token::Times, Token::Minus, id("y")]), "(x * -y)");
}

#[test]
fn parentheses_calls_literals_and_typed_expressions() {
    assert_eq!(
        expression_of(vec![
            Token::LParenthesis, id("a"), Token::Plus, id("b"), Token::RParenthesis, Token::Times, id("c")
        ]),
        "((a + b) * c)"
    );
    assert_eq!(
        expression_of(vec![
            id("f"), Token::LParenthesis, id("x"), Token::Comma, num("2"), Token::Plus, num("3"), Token::Comma,
            id("g"), Token::LParenthesis, Token::RParenthesis, Token::RParenthesis,
        ]),
        "f(x, (2 + 3), g())"
    );
    assert_eq!(expression_of(vec![string("hi"), Token::NotEquals, Token::True]), "(\"hi\" != true)");
    assert_eq!(expression_of(vec![ty("Int"), Token::False]), "Int false");
}

#[test]
fn statements_of_every_kind() {
    let tokens = in_main(vec![
        Token::Let, id("x"), Token::Assign, num("1"), Token::Semicolon,
        Token::Return, id("x"), Token::Semicolon,
        Token::Semicolon,
        Token::LCurlyBrace, id("y"), Token::Semicolon, Token::RCurlyBrace,
        Token::While, Token::LParenthesis, id("x"), Token::LessThan, num("3"), Token::RParenthesis, id("z"), Token::Semicolon,
    ]);
    let statements = body_of(parser(&tokens).expect("should parse"));
    assert_eq!(statements.len(), 5);
    assert!(matches!(&statements[0], Node::LetStatement(name, value) if name == "x" && show(value) == "1"));
    assert!(matches!(&statements[1], Node::ReturnStatement(value) if show(value) == "x"));
    assert!(matches!(&statements[2], Node::EmptyStatement));
    assert!(matches!(&statements[3], Node::Block(inner) if inner.len() == 1));
    match &statements[4] {
        Node::While { condition, body } => {
            assert_eq!(show(condition), "(x < 3)");
            assert!(matches!(&**body, Node::ExpressionStatement(e) if show(e) == "z"));
        }
        other => panic!("not a loop: {:?}", other),
    }
}

#[test]
fn formals_may_carry_a_type() {
    let tokens = vec![
        Token::Function, id("f"), Token::LParenthesis, ty("Int"), id("a"), Token::Comma, id("b"), Token::RParenthesis,
        Token::LCurlyBrace, Token::RCurlyBrace,
    ];
    match parser(&tokens).expect("should parse") {
        Node::Program(functions) => match &functions[0] {
            Node::Function { name, formals, .. } => {
                assert_eq!(name, "f");
                assert_eq!(formals.len(), 2);
                assert!(matches!(&formals[0], Node::TypedFormal(t, n) if t == "Int" && n == "a"));
                assert!(matches!(&formals[1], Node::UntypedFormal(n) if n == "b"));
            }
            other => panic!("not a function: {:?}", other),
        },
        other => panic!("not a program: {:?}", other),
    }
}

#[test]
fn malformed_programs_are_refused() {
    assert!(parser(&[]).is_some());
    // a statement without its semicolon
    assert!(parser(&in_main(vec![id("x")])).is_none());
    // an operator without its right operand leaves the operator unparsed
    assert!(parser(&in_main(vec![id("x"), Token::Plus, Token::Semicolon])).is_none());
    // a trailing comma in a call
    assert!(parser(&in_main(vec![id("f"), Token::LParenthesis, id("x"), Token::Comma, Token::RParenthesis, Token::Semicolon]))
        .is_none());
    // a let without a value
    assert!(parser(&in_main(vec![Token::Let, id("x"), Token::Assign, Token::Semicolon])).is_none());
    // a token after the last function
    let mut tokens = in_main(vec![]);
    tokens.push(Token::Semicolon);
    assert!(parser(&tokens).is_none());
}

#[test]
fn a_cloned_expression_tree_prints_like_the_original() {
    let tokens = in_main(vec![
        Token::Let, id("x"), Token::Assign, id("f"), Token::LParenthesis, num("1"), Token::Comma, Token::Minus, id("y"),
        Token::RParenthesis, Token::Times, num("2"), Token::Semicolon,
    ]);
    let program = parser(&tokens).unwrap();
    assert_eq!(format!("{:?}", program.clone()), format!("{:?}", program));
}
