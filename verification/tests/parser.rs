use rune::io::ast::{Expr, Parameter, Property, Symbol};
use rune::io::lexer::{tokenize, Token, TokenKind};
use rune::io::parser::{parse, ParseError, ParseResult};

fn tree(source: &str) -> String {
    match parse(tokenize(source)) {
        Ok(program) => format!("{:?}", program),
        Err(error) => panic!("no tree: {}", error.message),
    }
}

fn failure(source: &str) -> String {
    match parse(tokenize(source)) {
        Ok(program) => panic!("a tree: {:?}", program),
        Err(error) => error.message,
    }
}

fn shown(expr: Expr) -> String {
    format!("{:?}", expr)
}

fn number(text: &str) -> Expr {
    Expr::Number(text.to_string())
}

fn name(text: &str) -> Expr {
    Expr::Identifier(Symbol { name: text.to_string() })
}

fn binary(left: Expr, op: &str, right: Expr) -> Expr {
    Expr::BinaryExpr { left: Box::new(left), right: Box::new(right), op: op.to_string() }
}

fn program(body: Vec<Expr>) -> String {
    shown(Expr::Program(body))
}

#[test]
fn empty_program() {
    assert_eq!(tree(""), program(vec![]));
    assert_eq!(tree(";;;"), program(vec![]));
}

#[test]
fn multiplication_binds_tighter_than_addition() {
    let expected = binary(number("1"), "+", binary(number("2"), "*", number("3")));
    assert_eq!(tree("1 + 2 * 3"), program(vec![expected]));
    let wrong = binary(binary(number("1"), "+", number("2")), "*", number("3"));
    assert_ne!(tree("1 + 2 * 3"), program(vec![wrong]));
}

#[test]
fn parentheses_override_precedence() {
    let expected = binary(binary(number("1"), "+", number("2")), "*", number("3"));
    assert_eq!(tree("(1 + 2) * 3"), program(vec![expected]));
}

#[test]
fn operators_of_one_tier_group_from_the_left() {
    let expected = binary(binary(number("1"), "-", number("2")), "-", number("3"));
    assert_eq!(tree("1 - 2 - 3"), program(vec![expected]));
    let expected = binary(binary(number("8"), "/", number("4")), "%", number("3"));
    assert_eq!(tree("8 / 4 % 3"), program(vec![expected]));
}

#[test]
fn comparison_is_looser_than_arithmetic() {
    let expected = Expr::Eq {
        left: Box::new(binary(name("a"), "+", number("1"))),
        right: Box::new(binary(name("b"), "*", number("2"))),
    };
    assert_eq!(tree("a + 1 == b * 2"), program(vec![expected]));
    let expected = Expr::NotEq { left: Box::new(name("a")), right: Box::new(name("b")) };
    assert_eq!(tree("a != b"), program(vec![expected]));
}

#[test]
fn assignment_groups_from_the_right() {
    let expected = Expr::AssignExpr {
        target: Box::new(name("a")),
        value: Box::new(Expr::AssignExpr {
            target: Box::new(name("b")),
            value: Box::new(number("1")),
        }),
    };
    assert_eq!(tree("a = b = 1"), program(vec![expected]));
}

#[test]
fn assignment_target_is_not_checked() {
    let expected = Expr::AssignExpr {
        target: Box::new(binary(number("1"), "+", number("2"))),
        value: Box::new(number("3")),
    };
    assert_eq!(tree("1 + 2 = 3"), program(vec![expected]));
}

#[test]
fn variable_declarations() {
    let expected = Expr::VarDecl {
        constant: false,
        identifier: Symbol { name: "x".to_string() },
        value: Box::new(number("1")),
    };
    assert_eq!(tree("let x = 1;"), program(vec![expected]));
    let expected = Expr::VarDecl {
        constant: true,
        identifier: Symbol { name: "y".to_string() },
        value: Box::new(binary(name("x"), "+", number("2.5"))),
    };
    assert_eq!(tree("const y = x + 2.5;"), program(vec![expected]));
}

#[test]
fn variable_declaration_failures() {
    assert_eq!(failure("let 1 = 2;"), "expected Identifier, found Number");
    assert_eq!(failure("let x 2;"), "expected Equals, found Number");
    assert_eq!(failure("let x = 2"), "expected Semicolon, found EOF");
    assert_eq!(failure("let"), "expected Identifier, found EOF");
}

#[test]
fn function_declaration() {
    let expected = Expr::FnDecl {
        identifier: Symbol { name: "add".to_string() },
        params: vec![Parameter { name: "a".to_string() }, Parameter { name: "b".to_string() }],
        body: Box::new(Expr::Body {
            body: vec![Expr::Return { expr: Box::new(binary(name("a"), "+", name("b"))) }],
        }),
    };
    assert_eq!(tree("fn add(a, b) { return a + b; }"), program(vec![expected]));
}

#[test]
fn function_without_parameters() {
    let expected = Expr::FnDecl {
        identifier: Symbol { name: "f".to_string() },
        params: vec![],
        body: Box::new(Expr::Body { body: vec![] }),
    };
    assert_eq!(tree("fn f() {}"), program(vec![expected]));
}

#[test]
fn function_parameters_must_be_names() {
    assert_eq!(failure("fn f(1) {}"), "Only [Identifier]s expected");
    assert_eq!(failure("fn f(a, b + 1) {}"), "Only [Identifier]s expected");
    assert_eq!(failure("fn (a) {}"), "expected Identifier, found OpenParenthesis");
    assert_eq!(failure("fn f a {}"), "expected OpenParenthesis, found Identifier");
    assert_eq!(failure("fn f(a)"), "expected OpenBrace, found EOF");
}

#[test]
fn if_without_else() {
    let expected = Expr::IfExpr {
        when: Box::new(Expr::Eq { left: Box::new(name("n")), right: Box::new(number("0")) }),
        then_branch: Box::new(Expr::Body {
            body: vec![Expr::Return { expr: Box::new(number("1")) }],
        }),
        other: None,
    };
    assert_eq!(tree("if n == 0 { return 1; }"), program(vec![expected]));
}

#[test]
fn if_with_else_forms() {
    let block = |text: &str| Expr::Body { body: vec![number(text)] };
    let chained = Expr::IfExpr {
        when: Box::new(name("a")),
        then_branch: Box::new(block("1")),
        other: Some(Box::new(Expr::IfExpr {
            when: Box::new(name("b")),
            then_branch: Box::new(block("2")),
            other: Some(Box::new(block("3"))),
        })),
    };
    assert_eq!(tree("if a { 1 } else if b { 2 } else { 3 }"), program(vec![chained]));
    let single = Expr::IfExpr {
        when: Box::new(name("a")),
        then_branch: Box::new(block("1")),
        other: Some(Box::new(Expr::Break)),
    };
    assert_eq!(tree("if a { 1 } else break"), program(vec![single]));
}

#[test]
fn loop_break_and_return() {
    let expected = Expr::Loop { body: vec![Expr::Break] };
    assert_eq!(tree("loop { break; }"), program(vec![expected]));
    let expected = Expr::Return { expr: Box::new(number("1")) };
    assert_eq!(tree("return 1"), program(vec![expected]));
    assert_eq!(failure("loop break"), "expected OpenBrace, found Break");
}

#[test]
fn bare_block() {
    let expected = Expr::Body { body: vec![number("1"), number("2")] };
    assert_eq!(tree("{ 1; 2 }"), program(vec![expected]));
    assert_eq!(failure("{ 1; 2"), "expected CloseBrace, found EOF");
}

#[test]
fn object_literal() {
    let expected = Expr::VarDecl {
        constant: false,
        identifier: Symbol { name: "o".to_string() },
        value: Box::new(Expr::Object {
            props: vec![
                Property { identifier: Symbol { name: "a".to_string() }, value: None },
                Property {
                    identifier: Symbol { name: "b".to_string() },
                    value: Some(binary(number("1"), "+", number("2"))),
                },
                Property { identifier: Symbol { name: "c".to_string() }, value: None },
            ],
        }),
    };
    assert_eq!(tree("let o = { a, b: 1 + 2, c };"), program(vec![expected]));
}

#[test]
fn object_literal_failures() {
    assert_eq!(failure("x = { 1 }"), "expected Identifier, found Number");
    assert_eq!(failure("x = { a b }"), "expected Colon, found Identifier");
    assert_eq!(failure("x = { a: }"), "unknown Token { kind: CloseBrace, value: \"}\" }");
    assert_eq!(failure("x = { a"), "expected Colon, found EOF");
}

#[test]
fn calls_chain() {
    let first = Expr::CallExpr { caller: Box::new(name("f")), args: vec![] };
    let second = Expr::CallExpr {
        caller: Box::new(first),
        args: vec![number("1"), binary(name("a"), "+", number("2"))],
    };
    assert_eq!(tree("f()(1, a + 2)"), program(vec![second]));
}

#[test]
fn call_failures() {
    assert_eq!(failure("f(1"), "expected CloseParenthesis, found EOF");
    assert_eq!(failure("f(1,)"), "unknown Token { kind: CloseParenthesis, value: \")\" }");
}

#[test]
fn member_access() {
    let dotted = Expr::MemberExpr {
        object: Box::new(Expr::MemberExpr {
            object: Box::new(name("a")),
            property: Box::new(name("b")),
            computed: false,
        }),
        property: Box::new(binary(name("i"), "+", number("1"))),
        computed: true,
    };
    assert_eq!(tree("a.b[i + 1]"), program(vec![dotted]));
    let called = Expr::CallExpr {
        caller: Box::new(Expr::MemberExpr {
            object: Box::new(name("a")),
            property: Box::new(name("b")),
            computed: false,
        }),
        args: vec![],
    };
    assert_eq!(tree("a.b()"), program(vec![called]));
    assert_eq!(failure("a[1"), "expected CloseBracket, found EOF");
}

#[test]
fn unknown_token_messages() {
    assert_eq!(failure(")"), "unknown Token { kind: CloseParenthesis, value: \")\" }");
    assert_eq!(failure("1 +"), "unknown Token { kind: EOF, value: \"EOF\" }");
    assert_eq!(failure("( )"), "unknown Token { kind: CloseParenthesis, value: \")\" }");
    assert_eq!(failure("(1 2"), "expected CloseParenthesis, found Number");
    assert_eq!(failure("else"), "unknown Token { kind: Else, value: \"else\" }");
}

#[test]
fn first_failure_wins() {
    assert_eq!(failure("let = ; let 1"), "expected Identifier, found Equals");
}

#[test]
fn statements_in_sequence() {
    let expected = vec![
        Expr::VarDecl {
            constant: false,
            identifier: Symbol { name: "x".to_string() },
            value: Box::new(number("1")),
        },
        name("x"),
        Expr::CallExpr { caller: Box::new(name("f")), args: vec![name("x")] },
    ];
    assert_eq!(tree("let x = 1;; x; f(x);"), program(expected));
}

#[test]
fn string_tokens_become_string_literals() {
    let tokens = vec![
        Token { kind: TokenKind::String, value: "hello".to_string() },
        Token { kind: TokenKind::EOF, value: "EOF".to_string() },
    ];
    let parsed = parse(tokens).ok().unwrap();
    assert_eq!(shown(parsed), program(vec![Expr::String("hello".to_string())]));
}

#[test]
fn tokens_without_end_marker() {
    let tokens = vec![
        Token { kind: TokenKind::Number, value: "1".to_string() },
        Token { kind: TokenKind::BinaryOperator, value: "+".to_string() },
        Token { kind: TokenKind::Number, value: "2".to_string() },
    ];
    let parsed = parse(tokens).ok().unwrap();
    assert_eq!(shown(parsed), program(vec![binary(number("1"), "+", number("2"))]));
    let parsed = parse(vec![]).ok().unwrap();
    assert_eq!(shown(parsed), program(vec![]));
}

#[test]
fn parsing_stops_at_the_first_end_marker() {
    let tokens = vec![
        Token { kind: TokenKind::Number, value: "1".to_string() },
        Token { kind: TokenKind::EOF, value: "EOF".to_string() },
        Token { kind: TokenKind::Number, value: "2".to_string() },
    ];
    let parsed = parse(tokens).ok().unwrap();
    assert_eq!(shown(parsed), program(vec![number("1")]));
}

#[test]
fn operators_are_told_by_their_text() {
    let tokens = vec![
        Token { kind: TokenKind::Number, value: "1".to_string() },
        Token { kind: TokenKind::Identifier, value: "*".to_string() },
        Token { kind: TokenKind::Number, value: "2".to_string() },
        Token { kind: TokenKind::EOF, value: "EOF".to_string() },
    ];
    let parsed = parse(tokens).ok().unwrap();
    assert_eq!(shown(parsed), program(vec![binary(number("1"), "*", number("2"))]));
}

#[test]
fn recursive_function_source() {
    let source = "fn fact(n){ if n == 0 { return 1; }; return n * fact(n - 1); }; fact(5)";
    let condition = Expr::IfExpr {
        when: Box::new(Expr::Eq { left: Box::new(name("n")), right: Box::new(number("0")) }),
        then_branch: Box::new(Expr::Body {
            body: vec![Expr::Return { expr: Box::new(number("1")) }],
        }),
        other: None,
    };
    let recursion = Expr::Return {
        expr: Box::new(binary(
            name("n"),
            "*",
            Expr::CallExpr {
                caller: Box::new(name("fact")),
                args: vec![binary(name("n"), "-", number("1"))],
            },
        )),
    };
    let declaration = Expr::FnDecl {
        identifier: Symbol { name: "fact".to_string() },
        params: vec![Parameter { name: "n".to_string() }],
        body: Box::new(Expr::Body { body: vec![condition, recursion] }),
    };
    let call = Expr::CallExpr { caller: Box::new(name("fact")), args: vec![number("5")] };
    assert_eq!(tree(source), program(vec![declaration, call]));
}

#[test]
fn results_from_trees_and_errors() {
    let good: ParseResult = Expr::Break.into();
    assert!(matches!(good, Ok(Expr::Break)));
    let bad: ParseResult = ParseError { message: "no".to_string() }.into();
    assert!(matches!(bad, Err(error) if error.message == "no"));
    let good = ParseResult::from(number("1"));
    assert_eq!(shown(good.ok().unwrap()), shown(number("1")));
}

#[test]
fn comparisons_group_from_the_left() {
    let first = Expr::Eq { left: Box::new(number("1")), right: Box::new(number("2")) };
    let expected = Expr::Eq { left: Box::new(first), right: Box::new(number("3")) };
    assert_eq!(tree("1 == 2 == 3"), program(vec![expected]));
    let first = Expr::NotEq { left: Box::new(name("a")), right: Box::new(name("b")) };
    let second = Expr::Eq {
        left: Box::new(first),
        right: Box::new(binary(name("c"), "+", number("1"))),
    };
    let expected = Expr::NotEq { left: Box::new(second), right: Box::new(name("d")) };
    assert_eq!(tree("a != b == c + 1 != d"), program(vec![expected]));
    assert_eq!(failure("1 == 2 =="), "unknown Token { kind: EOF, value: \"EOF\" }");
}

#[test]
fn words_outside_the_keyword_set_are_names() {
    let expected = Expr::VarDecl {
        constant: false,
        identifier: Symbol { name: "type".to_string() },
        value: Box::new(number("1")),
    };
    assert_eq!(tree("let type = 1;"), program(vec![expected]));
    let expected = binary(name("match"), "+", name("pub"));
    assert_eq!(tree("match + pub"), program(vec![expected]));
}

#[test]
fn a_second_decimal_point_is_a_member_access() {
    let expected = Expr::MemberExpr {
        object: Box::new(number("1.2")),
        property: Box::new(number("3")),
        computed: false,
    };
    assert_eq!(tree("1.2.3"), program(vec![expected]));
}
