//! The tokenizer: one forward pass over the characters of the source.

use vstd::prelude::*;
use crate::io::text::{characters, single, text_eq};

verus! {

#[derive(Debug, PartialEq, Eq, Clone, Copy, Structural)]
pub enum TokenKind {
    Let,
    Const,
    Number,
    Identifier,
    String,
    BinaryOperator,
    Equals,
    Eq,
    NotEq,
    Not,
    Semicolon,
    Colon,
    Comma,
    Dot,
    OpenParenthesis,
    CloseParenthesis,
    OpenBrace,
    CloseBrace,
    OpenBracket,
    CloseBracket,
    Type,
    Struct,
    Fn,
    Union,
    Enum,
    If,
    Else,
    Pub,
    Match,
    Loop,
    Break,
    Return,
    EOF,
}

#[derive(Debug)]
pub struct Token {
    pub kind: TokenKind,
    pub value: String,
}

/// What a token is: its kind and the characters it was read from.
pub ghost struct TokenView {
    pub kind: TokenKind,
    pub value: Seq<char>,
}

impl View for Token {
    type V = TokenView;

    open spec fn view(&self) -> TokenView {
        TokenView { kind: self.kind, value: self.value@ }
    }
}

impl Clone for Token {
    fn clone(&self) -> (out: Self)
        ensures
            out@ == self@,
    {
        Token { kind: self.kind, value: self.value.clone() }
    }
}

/// The views of a sequence of tokens.
pub open spec fn token_views(tokens: Seq<Token>) -> Seq<TokenView> {
    tokens.map_values(|t: Token| t@)
}

/// The keyword table: the eight words of the language. Any other word is an
/// identifier.
pub open spec fn keyword_of(word: Seq<char>) -> Option<TokenKind> {
    if word == "let"@ {
        Some(TokenKind::Let)
    } else if word == "const"@ {
        Some(TokenKind::Const)
    } else if word == "fn"@ {
        Some(TokenKind::Fn)
    } else if word == "if"@ {
        Some(TokenKind::If)
    } else if word == "else"@ {
        Some(TokenKind::Else)
    } else if word == "loop"@ {
        Some(TokenKind::Loop)
    } else if word == "break"@ {
        Some(TokenKind::Break)
    } else if word == "return"@ {
        Some(TokenKind::Return)
    } else {
        None
    }
}

/// The kind of a keyword; `None` for any other text.
pub fn keyword(value: &str) -> (kind: Option<TokenKind>)
    ensures
        kind == keyword_of(value@),
{
    if text_eq(value, "let") {
        Some(TokenKind::Let)
    } else if text_eq(value, "const") {
        Some(TokenKind::Const)
    } else if text_eq(value, "fn") {
        Some(TokenKind::Fn)
    } else if text_eq(value, "if") {
        Some(TokenKind::If)
    } else if text_eq(value, "else") {
        Some(TokenKind::Else)
    } else if text_eq(value, "loop") {
        Some(TokenKind::Loop)
    } else if text_eq(value, "break") {
        Some(TokenKind::Break)
    } else if text_eq(value, "return") {
        Some(TokenKind::Return)
    } else {
        None
    }
}

/// The kind of a token that is one character long whatever follows it.
pub open spec fn punctuation(c: char) -> Option<TokenKind> {
    if c == '(' {
        Some(TokenKind::OpenParenthesis)
    } else if c == ')' {
        Some(TokenKind::CloseParenthesis)
    } else if c == '{' {
        Some(TokenKind::OpenBrace)
    } else if c == '}' {
        Some(TokenKind::CloseBrace)
    } else if c == '[' {
        Some(TokenKind::OpenBracket)
    } else if c == ']' {
        Some(TokenKind::CloseBracket)
    } else if c == ':' {
        Some(TokenKind::Colon)
    } else if c == ';' {
        Some(TokenKind::Semicolon)
    } else if c == ',' {
        Some(TokenKind::Comma)
    } else if c == '.' {
        Some(TokenKind::Dot)
    } else if c == '-' || c == '+' || c == '*' || c == '/' || c == '%' {
        Some(TokenKind::BinaryOperator)
    } else {
        None
    }
}

pub open spec fn is_digit(c: char) -> bool {
    '0' <= c <= '9'
}

pub open spec fn is_letter(c: char) -> bool {
    ('a' <= c <= 'z') || ('A' <= c <= 'Z')
}

/// A character that continues a word once a letter has started it.
pub open spec fn is_identifier_char(c: char) -> bool {
    is_letter(c) || c == '_'
}

pub open spec fn is_skippable(c: char) -> bool {
    c == ' ' || c == '\n' || c == '\t' || c == '\r'
}

/// Where the number that is being read at `pos` ends: it goes on over digits
/// and over one decimal point. `pointed` says whether the number has its
/// decimal point already; a second point ends it.
pub open spec fn number_end(src: Seq<char>, pos: int, pointed: bool) -> int
    decreases src.len() - pos,
{
    if 0 <= pos < src.len() && is_digit(src[pos]) {
        number_end(src, pos + 1, pointed)
    } else if 0 <= pos < src.len() && src[pos] == '.' && !pointed {
        number_end(src, pos + 1, true)
    } else {
        pos
    }
}

/// Where the longest run of identifier characters that starts at `pos` ends.
pub open spec fn identifier_end(src: Seq<char>, pos: int) -> int
    decreases src.len() - pos,
{
    if 0 <= pos < src.len() && is_identifier_char(src[pos]) {
        identifier_end(src, pos + 1)
    } else {
        pos
    }
}

/// A number ends at or after the place it is read at, and inside the text.
pub proof fn lemma_number_end(src: Seq<char>, pos: int, pointed: bool)
    requires
        0 <= pos <= src.len(),
    ensures
        pos <= number_end(src, pos, pointed) <= src.len(),
    decreases src.len() - pos,
{
    if pos < src.len() && is_digit(src[pos]) {
        lemma_number_end(src, pos + 1, pointed);
    } else if pos < src.len() && src[pos] == '.' && !pointed {
        lemma_number_end(src, pos + 1, true);
    }
}

/// A run ends at or after the place it starts, and inside the text.
pub proof fn lemma_identifier_end(src: Seq<char>, pos: int)
    requires
        0 <= pos <= src.len(),
    ensures
        pos <= identifier_end(src, pos) <= src.len(),
        forall|i: int|
            pos <= i < identifier_end(src, pos) ==> is_identifier_char(#[trigger] src[i]),
        identifier_end(src, pos) < src.len() ==> !is_identifier_char(
            src[identifier_end(src, pos)],
        ),
    decreases src.len() - pos,
{
    if pos < src.len() && is_identifier_char(src[pos]) {
        lemma_identifier_end(src, pos + 1);
    }
}

/// The token that closes every token sequence.
pub open spec fn end_of_input() -> TokenView {
    TokenView { kind: TokenKind::EOF, value: "EOF"@ }
}

/// The token a word stands for: its keyword, or an identifier.
pub open spec fn word_token(word: Seq<char>) -> TokenView {
    match keyword_of(word) {
        Some(kind) => TokenView { kind, value: word },
        None => TokenView { kind: TokenKind::Identifier, value: word },
    }
}

/// The tokens of `src` from position `pos` on. Scanning stops at the end of the
/// text or at the first character that starts no token; either way the
/// sequence is closed by the end-of-input token.
pub open spec fn lex_from(src: Seq<char>, pos: int) -> Seq<TokenView>
    decreases src.len() - pos,
{
    if !(0 <= pos < src.len()) {
        seq![end_of_input()]
    } else {
        let c = src[pos];
        let followed_by_equals = pos + 1 < src.len() && src[pos + 1] == '=';
        if punctuation(c) is Some {
            seq![TokenView { kind: punctuation(c)->0, value: seq![c] }] + lex_from(src, pos + 1)
        } else if c == '!' {
            if followed_by_equals {
                seq![TokenView { kind: TokenKind::NotEq, value: "!="@ }] + lex_from(src, pos + 2)
            } else {
                seq![TokenView { kind: TokenKind::Not, value: "!"@ }] + lex_from(src, pos + 1)
            }
        } else if c == '=' {
            if followed_by_equals {
                seq![TokenView { kind: TokenKind::Eq, value: "=="@ }] + lex_from(src, pos + 2)
            } else {
                seq![TokenView { kind: TokenKind::Equals, value: "="@ }] + lex_from(src, pos + 1)
            }
        } else if is_digit(c) {
            let end = number_end(src, pos + 1, false);
            proof {
                lemma_number_end(src, pos + 1, false);
            }
            seq![TokenView { kind: TokenKind::Number, value: src.subrange(pos, end) }] + lex_from(
                src,
                end,
            )
        } else if is_letter(c) {
            let end = identifier_end(src, pos + 1);
            proof {
                lemma_identifier_end(src, pos + 1);
            }
            seq![word_token(src.subrange(pos, end))] + lex_from(src, end)
        } else if is_skippable(c) {
            lex_from(src, pos + 1)
        } else {
            seq![end_of_input()]
        }
    }
}

/// The tokens of a source text.
pub open spec fn lex(src: Seq<char>) -> Seq<TokenView> {
    lex_from(src, 0)
}

/// Appending a token appends its view.
pub proof fn lemma_token_views_push(tokens: Seq<Token>, token: Token)
    ensures
        token_views(tokens.push(token)) == token_views(tokens).push(token@),
{
    assert(token_views(tokens.push(token)) =~= token_views(tokens).push(token@));
}

fn classify(c: char) -> (kind: Option<TokenKind>)
    ensures
        kind == punctuation(c),
{
    if c == '(' {
        Some(TokenKind::OpenParenthesis)
    } else if c == ')' {
        Some(TokenKind::CloseParenthesis)
    } else if c == '{' {
        Some(TokenKind::OpenBrace)
    } else if c == '}' {
        Some(TokenKind::CloseBrace)
    } else if c == '[' {
        Some(TokenKind::OpenBracket)
    } else if c == ']' {
        Some(TokenKind::CloseBracket)
    } else if c == ':' {
        Some(TokenKind::Colon)
    } else if c == ';' {
        Some(TokenKind::Semicolon)
    } else if c == ',' {
        Some(TokenKind::Comma)
    } else if c == '.' {
        Some(TokenKind::Dot)
    } else if c == '-' || c == '+' || c == '*' || c == '/' || c == '%' {
        Some(TokenKind::BinaryOperator)
    } else {
        None
    }
}

fn digit(c: char) -> (r: bool)
    ensures
        r == is_digit(c),
{
    '0' <= c && c <= '9'
}

fn letter(c: char) -> (r: bool)
    ensures
        r == is_letter(c),
{
    ('a' <= c && c <= 'z') || ('A' <= c && c <= 'Z')
}

fn skippable(c: char) -> (r: bool)
    ensures
        r == is_skippable(c),
{
    c == ' ' || c == '\n' || c == '\t' || c == '\r'
}

/// Reads the number that starts at `start`; returns its text and where it ends.
fn scan_number(chars: &Vec<char>, start: usize) -> (out: (String, usize))
    requires
        start < chars.len(),
        is_digit(chars[start as int]),
    ensures
        out.1 == number_end(chars@, start + 1, false),
        start < out.1 <= chars.len(),
        out.0@ == chars@.subrange(start as int, out.1 as int),
{
    let mut value = String::new();
    let mut i: usize = start;
    let mut pointed = false;
    proof {
        lemma_number_end(chars@, start + 1, false);
    }
    while i < chars.len() && (digit(chars[i]) || (chars[i] == '.' && !pointed))
        invariant
            start <= i <= chars.len(),
            value@ == chars@.subrange(start as int, i as int),
            number_end(chars@, i as int, pointed) == number_end(chars@, start + 1, false),
        decreases chars.len() - i,
    {
        if chars[i] == '.' {
            pointed = true;
        }
        value.push(chars[i]);
        assert(chars@.subrange(start as int, i + 1) =~= chars@.subrange(
            start as int,
            i as int,
        ).push(chars[i as int]));
        i += 1;
    }
    (value, i)
}

/// Reads the word that starts at `start`; returns its text and where it ends.
fn scan_word(chars: &Vec<char>, start: usize) -> (out: (String, usize))
    requires
        start < chars.len(),
        is_letter(chars[start as int]),
    ensures
        out.1 == identifier_end(chars@, start + 1),
        start < out.1 <= chars.len(),
        out.0@ == chars@.subrange(start as int, out.1 as int),
{
    let mut value = String::new();
    let mut i: usize = start;
    proof {
        lemma_identifier_end(chars@, start + 1);
    }
    while i < chars.len() && (letter(chars[i]) || chars[i] == '_')
        invariant
            start <= i <= chars.len(),
            value@ == chars@.subrange(start as int, i as int),
            identifier_end(chars@, i as int) == identifier_end(chars@, start + 1),
        decreases chars.len() - i,
    {
        value.push(chars[i]);
        assert(chars@.subrange(start as int, i + 1) =~= chars@.subrange(
            start as int,
            i as int,
        ).push(chars[i as int]));
        i += 1;
    }
    (value, i)
}

/// Splits a source text into its tokens. The last token is always the
/// end-of-input token.
pub fn tokenize(source: &str) -> (tokens: Vec<Token>)
    ensures
        token_views(tokens@) == lex(source@),
        tokens.len() > 0,
        tokens[tokens.len() - 1]@ == end_of_input(),
{
    let chars = characters(source);
    let mut tokens: Vec<Token> = Vec::new();
    let mut i: usize = 0;
    assert(token_views(tokens@) + lex_from(chars@, 0) =~= lex(chars@));
    while i < chars.len()
        invariant_except_break
            token_views(tokens@) + lex_from(chars@, i as int) == lex(chars@),
        invariant
            i <= chars.len(),
        ensures
            token_views(tokens@) + seq![end_of_input()] == lex(chars@),
        decreases chars.len() - i,
    {
        let c = chars[i];
        let ghost before = tokens@;
        let ghost rest = lex_from(chars@, i as int);
        let followed_by_equals = i + 1 < chars.len() && chars[i + 1] == '=';
        let token: Token;
        let next: usize;
        match classify(c) {
            Some(kind) => {
                token = Token { kind, value: single(c) };
                next = i + 1;
            },
            None => {
                if c == '!' {
                    if followed_by_equals {
                        token = Token { kind: TokenKind::NotEq, value: String::from_str("!=") };
                        next = i + 2;
                    } else {
                        token = Token { kind: TokenKind::Not, value: String::from_str("!") };
                        next = i + 1;
                    }
                } else if c == '=' {
                    if followed_by_equals {
                        token = Token { kind: TokenKind::Eq, value: String::from_str("==") };
                        next = i + 2;
                    } else {
                        token = Token { kind: TokenKind::Equals, value: String::from_str("=") };
                        next = i + 1;
                    }
                } else if digit(c) {
                    let (value, end) = scan_number(&chars, i);
                    token = Token { kind: TokenKind::Number, value };
                    next = end;
                } else if letter(c) {
                    let (value, end) = scan_word(&chars, i);
                    token = match keyword(value.as_str()) {
                        Some(kind) => Token { kind, value },
                        None => Token { kind: TokenKind::Identifier, value },
                    };
                    next = end;
                } else if skippable(c) {
                    i += 1;
                    continue ;
                } else {
                    break ;
                }
            },
        }
        proof {
            assert(rest == seq![token@] + lex_from(chars@, next as int));
            lemma_token_views_push(before, token);
            assert(token_views(before.push(token)) + lex_from(chars@, next as int) =~= token_views(
                before,
            ) + rest);
        }
        tokens.push(token);
        i = next;
    }
    let ghost before = tokens@;
    let last = Token { kind: TokenKind::EOF, value: String::from_str("EOF") };
    proof {
        lemma_token_views_push(before, last);
    }
    tokens.push(last);
    tokens
}

} // verus!
