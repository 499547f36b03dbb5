use rune::io::lexer::{keyword, tokenize, Token, TokenKind};

fn kinds(tokens: &[Token]) -> Vec<TokenKind> {
    tokens.iter().map(|t| t.kind).collect()
}

fn values(tokens: &[Token]) -> Vec<String> {
    tokens.iter().map(|t| t.value.clone()).collect()
}

#[test]
fn keyword_table() {
    assert_eq!(keyword("let"), Some(TokenKind::Let));
    assert_eq!(keyword("const"), Some(TokenKind::Const));
    assert_eq!(keyword("fn"), Some(TokenKind::Fn));
    assert_eq!(keyword("if"), Some(TokenKind::If));
    assert_eq!(keyword("else"), Some(TokenKind::Else));
    assert_eq!(keyword("loop"), Some(TokenKind::Loop));
    assert_eq!(keyword("break"), Some(TokenKind::Break));
    assert_eq!(keyword("return"), Some(TokenKind::Return));
}

#[test]
fn the_keyword_set_is_closed() {
    for word in ["type", "enum", "union", "struct", "pub", "match", "while", "for"] {
        assert_eq!(keyword(word), None, "{}", word);
    }
    let tokens = tokenize("type enum union struct pub match");
    assert_eq!(
        kinds(&tokens),
        vec![
            TokenKind::Identifier,
            TokenKind::Identifier,
            TokenKind::Identifier,
            TokenKind::Identifier,
            TokenKind::Identifier,
            TokenKind::Identifier,
            TokenKind::EOF
        ]
    );
}

#[test]
fn keyword_rejects_other_words() {
    assert_eq!(keyword("lets"), None);
    assert_eq!(keyword("le"), None);
    assert_eq!(keyword("Let"), None);
    assert_eq!(keyword(""), None);
    assert_eq!(keyword("x"), None);
}

#[test]
fn tokenize_empty_source() {
    let tokens = tokenize("");
    assert_eq!(kinds(&tokens), vec![TokenKind::EOF]);
    assert_eq!(values(&tokens), vec!["EOF"]);
}

#[test]
fn tokenize_declaration() {
    let tokens = tokenize("let x = 10.5;");
    assert_eq!(
        kinds(&tokens),
        vec![
            TokenKind::Let,
            TokenKind::Identifier,
            TokenKind::Equals,
            TokenKind::Number,
            TokenKind::Semicolon,
            TokenKind::EOF
        ]
    );
    assert_eq!(values(&tokens), vec!["let", "x", "=", "10.5", ";", "EOF"]);
}

#[test]
fn tokenize_punctuation() {
    let tokens = tokenize("(){}[]:;,.");
    assert_eq!(
        kinds(&tokens),
        vec![
            TokenKind::OpenParenthesis,
            TokenKind::CloseParenthesis,
            TokenKind::OpenBrace,
            TokenKind::CloseBrace,
            TokenKind::OpenBracket,
            TokenKind::CloseBracket,
            TokenKind::Colon,
            TokenKind::Semicolon,
            TokenKind::Comma,
            TokenKind::Dot,
            TokenKind::EOF
        ]
    );
    assert_eq!(values(&tokens), vec!["(", ")", "{", "}", "[", "]", ":", ";", ",", ".", "EOF"]);
}

#[test]
fn tokenize_operators() {
    let tokens = tokenize("+-*/%");
    assert_eq!(
        kinds(&tokens),
        vec![
            TokenKind::BinaryOperator,
            TokenKind::BinaryOperator,
            TokenKind::BinaryOperator,
            TokenKind::BinaryOperator,
            TokenKind::BinaryOperator,
            TokenKind::EOF
        ]
    );
    assert_eq!(values(&tokens), vec!["+", "-", "*", "/", "%", "EOF"]);
}

#[test]
fn tokenize_two_character_lookahead() {
    let tokens = tokenize("a == b != c = !d");
    assert_eq!(
        kinds(&tokens),
        vec![
            TokenKind::Identifier,
            TokenKind::Eq,
            TokenKind::Identifier,
            TokenKind::NotEq,
            TokenKind::Identifier,
            TokenKind::Equals,
            TokenKind::Not,
            TokenKind::Identifier,
            TokenKind::EOF
        ]
    );
    assert_eq!(values(&tokens), vec!["a", "==", "b", "!=", "c", "=", "!", "d", "EOF"]);
}

#[test]
fn tokenize_lookahead_at_end_of_text() {
    let tokens = tokenize("x =");
    assert_eq!(kinds(&tokens), vec![TokenKind::Identifier, TokenKind::Equals, TokenKind::EOF]);
    let tokens = tokenize("!");
    assert_eq!(kinds(&tokens), vec![TokenKind::Not, TokenKind::EOF]);
    let tokens = tokenize("===");
    assert_eq!(kinds(&tokens), vec![TokenKind::Eq, TokenKind::Equals, TokenKind::EOF]);
}

#[test]
fn tokenize_numbers_are_greedy() {
    let tokens = tokenize("12 3.25 7. 0.5");
    assert_eq!(
        kinds(&tokens),
        vec![
            TokenKind::Number,
            TokenKind::Number,
            TokenKind::Number,
            TokenKind::Number,
            TokenKind::EOF
        ]
    );
    assert_eq!(values(&tokens), vec!["12", "3.25", "7.", "0.5", "EOF"]);
}

#[test]
fn a_number_holds_one_decimal_point() {
    let tokens = tokenize("1.2.3");
    assert_eq!(
        kinds(&tokens),
        vec![TokenKind::Number, TokenKind::Dot, TokenKind::Number, TokenKind::EOF]
    );
    assert_eq!(values(&tokens), vec!["1.2", ".", "3", "EOF"]);
    let tokens = tokenize("1..2");
    assert_eq!(
        kinds(&tokens),
        vec![TokenKind::Number, TokenKind::Dot, TokenKind::Number, TokenKind::EOF]
    );
    assert_eq!(values(&tokens), vec!["1.", ".", "2", "EOF"]);
    let tokens = tokenize("1.2.3.4");
    assert_eq!(values(&tokens), vec!["1.2", ".", "3.4", "EOF"]);
    for token in tokenize("9.9.9 10.0.1. 5").iter() {
        if token.kind == TokenKind::Number {
            assert!(token.value.starts_with(|c: char| c.is_ascii_digit()));
            assert!(token.value.chars().all(|c| c.is_ascii_digit() || c == '.'));
            assert!(token.value.chars().filter(|c| *c == '.').count() <= 1);
        }
    }
}

#[test]
fn tokenize_number_ends_at_letter() {
    let tokens = tokenize("12ab");
    assert_eq!(kinds(&tokens), vec![TokenKind::Number, TokenKind::Identifier, TokenKind::EOF]);
    assert_eq!(values(&tokens), vec!["12", "ab", "EOF"]);
}

#[test]
fn tokenize_leading_point_is_a_dot() {
    let tokens = tokenize(".5");
    assert_eq!(kinds(&tokens), vec![TokenKind::Dot, TokenKind::Number, TokenKind::EOF]);
}

#[test]
fn tokenize_words() {
    let tokens = tokenize("foo_bar loop looping x1");
    assert_eq!(
        kinds(&tokens),
        vec![
            TokenKind::Identifier,
            TokenKind::Loop,
            TokenKind::Identifier,
            TokenKind::Identifier,
            TokenKind::Number,
            TokenKind::EOF
        ]
    );
    assert_eq!(values(&tokens), vec!["foo_bar", "loop", "looping", "x", "1", "EOF"]);
}

#[test]
fn tokenize_every_keyword() {
    let tokens = tokenize("let const fn if else loop break return");
    assert_eq!(
        kinds(&tokens),
        vec![
            TokenKind::Let,
            TokenKind::Const,
            TokenKind::Fn,
            TokenKind::If,
            TokenKind::Else,
            TokenKind::Loop,
            TokenKind::Break,
            TokenKind::Return,
            TokenKind::EOF
        ]
    );
}

#[test]
fn tokenize_skips_whitespace() {
    let tokens = tokenize(" \t\r\n a \n\n b\t");
    assert_eq!(kinds(&tokens), vec![TokenKind::Identifier, TokenKind::Identifier, TokenKind::EOF]);
    assert_eq!(values(&tokens), vec!["a", "b", "EOF"]);
}

#[test]
fn tokenize_stops_at_unknown_character() {
    let tokens = tokenize("a # b");
    assert_eq!(kinds(&tokens), vec![TokenKind::Identifier, TokenKind::EOF]);
    let tokens = tokenize("_a");
    assert_eq!(kinds(&tokens), vec![TokenKind::EOF]);
    let tokens = tokenize("\"text\"");
    assert_eq!(kinds(&tokens), vec![TokenKind::EOF]);
}

#[test]
fn tokenize_stops_at_character_outside_ascii() {
    let tokens = tokenize("x = \u{e9}t\u{e9}; y");
    assert_eq!(kinds(&tokens), vec![TokenKind::Identifier, TokenKind::Equals, TokenKind::EOF]);
}

#[test]
fn tokenize_always_ends_with_end_of_input() {
    for source in ["", "a", "1 +", "@", "fn f() { return 1; }"] {
        let tokens = tokenize(source);
        let last = tokens.last().unwrap();
        assert_eq!(last.kind, TokenKind::EOF);
        assert_eq!(last.value, "EOF");
    }
}

#[test]
fn tokenize_function_source() {
    let tokens = tokenize("fn add(a, b) { return a + b; }");
    assert_eq!(
        values(&tokens),
        vec!["fn", "add", "(", "a", ",", "b", ")", "{", "return", "a", "+", "b", ";", "}", "EOF"]
    );
    assert_eq!(tokens[0].kind, TokenKind::Fn);
    assert_eq!(tokens[8].kind, TokenKind::Return);
    assert_eq!(tokens[10].kind, TokenKind::BinaryOperator);
}
