//! The parser: recursive descent over the tokens, one function for each tier
//! of the grammar.

use vstd::prelude::*;
use crate::io::ast::{
    expr_views, parameter_views, property_views, Expr, ExprView, Parameter, Property,
    PropertyView, Symbol,
};
use crate::io::grammar::{
    additive, additive_from, alternative, argument_list, argument_list_from, arguments,
    assignment, body_from, call, call_member, checked, compared, comparison, comparison_from,
    expect_at, expected_message,
    expr, fn_declaration, if_statement, is_additive, is_multiplicative, kind_at, kind_name,
    member, member_from, multiplicative, multiplicative_from, object, parameter_names, primary,
    program, program_from, properties_from, statement, statement_body, token_at,
    unknown_message, var_declaration, Parsed,
};
use crate::io::lexer::{token_views, Token, TokenKind, TokenView};
use crate::io::text::{debug_text, text_eq};

verus! {

#[derive(Debug)]
pub struct ParseError {
    pub message: String,
}

pub type ParseResult = Result<Expr, ParseError>;

/// A tree as the result of a parse that went well.
impl From<Expr> for ParseResult {
    fn from(value: Expr) -> (out: Self) {
        Ok(value)
    }
}

impl vstd::std_specs::convert::FromSpecImpl<Expr> for ParseResult {
    open spec fn obeys_from_spec() -> bool {
        true
    }

    open spec fn from_spec(value: Expr) -> Self {
        Ok(value)
    }
}

/// An error as the result of a parse that failed.
impl From<ParseError> for ParseResult {
    fn from(value: ParseError) -> (out: Self) {
        Err(value)
    }
}

impl vstd::std_specs::convert::FromSpecImpl<ParseError> for ParseResult {
    open spec fn obeys_from_spec() -> bool {
        true
    }

    open spec fn from_spec(value: ParseError) -> Self {
        Err(value)
    }
}

/// The tokens and the position of the next one to read.
struct ProgramParser {
    tokens: Vec<Token>,
    index: usize,
}

/// Whether a result of the parser is what the grammar gives, for a reading
/// that started at `start` and left the parser at `end`.
pub open spec fn delivers(
    out: Result<Expr, ParseError>,
    expected: Parsed<ExprView>,
    start: int,
    end: int,
    len: int,
) -> bool {
    match expected {
        Ok((tree, next)) => out is Ok && out->Ok_0@ == tree && end == next && start < next <= len,
        Err(message) => out is Err && out->Err_0.message@ == message,
    }
}

/// The same for a reading that gives a list of trees.
pub open spec fn delivers_list(
    out: Result<Vec<Expr>, ParseError>,
    expected: Parsed<Seq<ExprView>>,
    start: int,
    end: int,
    len: int,
) -> bool {
    match expected {
        Ok((trees, next)) => out is Ok && expr_views(out->Ok_0@) == trees && end == next && start
            < next <= len,
        Err(message) => out is Err && out->Err_0.message@ == message,
    }
}

/// The name of a token kind.
fn name_of(kind: TokenKind) -> (out: String)
    ensures
        out@ == kind_name(kind),
{
    match kind {
        TokenKind::Let => String::from_str("Let"),
        TokenKind::Const => String::from_str("Const"),
        TokenKind::Number => String::from_str("Number"),
        TokenKind::Identifier => String::from_str("Identifier"),
        TokenKind::String => String::from_str("String"),
        TokenKind::BinaryOperator => String::from_str("BinaryOperator"),
        TokenKind::Equals => String::from_str("Equals"),
        TokenKind::Eq => String::from_str("Eq"),
        TokenKind::NotEq => String::from_str("NotEq"),
        TokenKind::Not => String::from_str("Not"),
        TokenKind::Semicolon => String::from_str("Semicolon"),
        TokenKind::Colon => String::from_str("Colon"),
        TokenKind::Comma => String::from_str("Comma"),
        TokenKind::Dot => String::from_str("Dot"),
        TokenKind::OpenParenthesis => String::from_str("OpenParenthesis"),
        TokenKind::CloseParenthesis => String::from_str("CloseParenthesis"),
        TokenKind::OpenBrace => String::from_str("OpenBrace"),
        TokenKind::CloseBrace => String::from_str("CloseBrace"),
        TokenKind::OpenBracket => String::from_str("OpenBracket"),
        TokenKind::CloseBracket => String::from_str("CloseBracket"),
        TokenKind::Type => String::from_str("Type"),
        TokenKind::Struct => String::from_str("Struct"),
        TokenKind::Fn => String::from_str("Fn"),
        TokenKind::Union => String::from_str("Union"),
        TokenKind::Enum => String::from_str("Enum"),
        TokenKind::If => String::from_str("If"),
        TokenKind::Else => String::from_str("Else"),
        TokenKind::Pub => String::from_str("Pub"),
        TokenKind::Match => String::from_str("Match"),
        TokenKind::Loop => String::from_str("Loop"),
        TokenKind::Break => String::from_str("Break"),
        TokenKind::Return => String::from_str("Return"),
        TokenKind::EOF => String::from_str("EOF"),
    }
}

fn additive_symbol(symbol: &str) -> (out: bool)
    ensures
        out == is_additive(symbol@),
{
    text_eq(symbol, "+") || text_eq(symbol, "-")
}

fn multiplicative_symbol(symbol: &str) -> (out: bool)
    ensures
        out == is_multiplicative(symbol@),
{
    text_eq(symbol, "*") || text_eq(symbol, "/") || text_eq(symbol, "%")
}

/// The error of a token of one kind where another was expected.
fn expected_error(kind: TokenKind, found: TokenKind) -> (out: ParseError)
    ensures
        out.message@ == expected_message(kind, found),
{
    let mut message = String::from_str("expected ");
    message.append(name_of(kind).as_str());
    message.append(", found ");
    message.append(name_of(found).as_str());
    ParseError { message }
}

/// The error of a token that starts no expression.
fn unknown_error(token: &Token) -> (out: ParseError)
    ensures
        out.message@ == unknown_message(token@),
{
    let mut message = String::from_str("unknown Token { kind: ");
    message.append(name_of(token.kind).as_str());
    message.append(", value: ");
    message.append(debug_text(token.value.as_str()).as_str());
    message.append(" }");
    ParseError { message }
}

/// Appending a tree appends its view.
pub proof fn lemma_expr_views_push(trees: Seq<Expr>, tree: Expr)
    ensures
        expr_views(trees.push(tree)) == expr_views(trees).push(tree@),
{
    assert(expr_views(trees.push(tree)) =~= expr_views(trees).push(tree@));
}

/// Appending a property appends its view.
pub proof fn lemma_property_views_push(props: Seq<Property>, property: Property)
    ensures
        property_views(props.push(property)) == property_views(props).push(property@),
{
    assert(property_views(props.push(property)) =~= property_views(props).push(property@));
}

/// The parameters that a list of argument expressions stands for, where each
/// of them is a bare name.
fn parameters_of(args: &Vec<Expr>) -> (out: Option<Vec<Parameter>>)
    ensures
        match parameter_names(expr_views(args@)) {
            Some(names) => out is Some && parameter_views(out->0@) == names,
            None => out is None,
        },
{
    let ghost views = expr_views(args@);
    let mut params: Vec<Parameter> = Vec::new();
    let mut i: usize = 0;
    assert(views.take(0) =~= Seq::<ExprView>::empty());
    assert(parameter_views(params@) =~= Seq::<Seq<char>>::empty());
    while i < args.len()
        invariant
            i <= args.len(),
            views == expr_views(args@),
            parameter_names(views.take(i as int)) == Some(parameter_views(params@)),
        decreases args.len() - i,
    {
        proof {
            assert(views.take(i + 1).drop_last() =~= views.take(i as int));
            assert(views.take(i + 1).last() == args[i as int]@);
            lemma_names_prefix(views, i + 1);
        }
        match &args[i] {
            Expr::Identifier(symbol) => {
                let ghost before = params@;
                let parameter = Parameter { name: symbol.name.clone() };
                assert(parameter_views(before.push(parameter)) =~= parameter_views(before).push(
                    parameter@,
                ));
                params.push(parameter);
            },
            _ => {
                return None;
            },
        }
        i += 1;
    }
    assert(views.take(args.len() as int) =~= views);
    Some(params)
}

/// Parses a token sequence into a program, or fails with the message of the
/// first token that does not fit the grammar.
pub fn parse(tokens: Vec<Token>) -> (out: ParseResult)
    ensures
        match program(token_views(tokens@)) {
            Ok(tree) => out is Ok && out->Ok_0@ == tree,
            Err(message) => out is Err && out->Err_0.message@ == message,
        },
{
    let mut parser = ProgramParser { tokens, index: 0 };
    parser.parse()
}

impl ProgramParser {
    /// The tokens as the grammar sees them.
    spec fn views(&self) -> Seq<TokenView> {
        token_views(self.tokens@)
    }

    /// The position is inside the tokens or right after them.
    spec fn wf(&self) -> bool {
        self.index <= self.tokens.len()
    }

    /// The whole program.
    fn parse(&mut self) -> (out: ParseResult)
        requires
            old(self).wf(),
            old(self).index == 0,
        ensures
            match program(old(self).views()) {
                Ok(tree) => out is Ok && out->Ok_0@ == tree,
                Err(message) => out is Err && out->Err_0.message@ == message,
            },
    {
        let mut body: Vec<Expr> = Vec::new();
        assert(expr_views(body@) =~= Seq::<ExprView>::empty());
        while self.more()
            invariant
                self.wf(),
                self.tokens == old(self).tokens,
                program(old(self).views()) == program_from(
                    self.views(),
                    self.index as int,
                    expr_views(body@),
                ),
            decreases self.tokens.len() - self.index,
        {
            if self.kind() == TokenKind::Semicolon {
                self.eat();
                continue ;
            }
            let ghost before = body@;
            let line = match self.parse_statement() {
                Ok(line) => line,
                Err(error) => {
                    return Err(error);
                },
            };
            proof {
                lemma_expr_views_push(before, line);
            }
            body.push(line);
        }
        Ok(Expr::Program(body))
    }

    /// The kind of the token at the position; past the end, end of input.
    fn kind(&self) -> (out: TokenKind)
        ensures
            out == kind_at(self.views(), self.index as int),
    {
        if self.index < self.tokens.len() {
            self.tokens[self.index].kind
        } else {
            TokenKind::EOF
        }
    }

    /// The token at the position; past the end, the end-of-input token.
    fn at(&self) -> (out: Token)
        ensures
            out@ == token_at(self.views(), self.index as int),
    {
        if self.index < self.tokens.len() {
            self.tokens[self.index].clone()
        } else {
            Token { kind: TokenKind::EOF, value: String::from_str("EOF") }
        }
    }

    /// Takes the token at the position.
    fn eat(&mut self) -> (out: Token)
        requires
            old(self).index < old(self).tokens.len(),
        ensures
            out@ == token_at(old(self).views(), old(self).index as int),
            final(self).tokens == old(self).tokens,
            final(self).index == old(self).index + 1,
    {
        let token = self.at();
        self.index += 1;
        token
    }

    /// Takes the token at the position, which has to be of the given kind.
    fn expect(&mut self, kind: TokenKind) -> (out: Result<Token, ParseError>)
        requires
            old(self).wf(),
            kind != TokenKind::EOF,
        ensures
            final(self).wf(),
            final(self).tokens == old(self).tokens,
            match expect_at(old(self).views(), old(self).index as int, kind) {
                Ok(next) => out is Ok && out->Ok_0@ == token_at(
                    old(self).views(),
                    old(self).index as int,
                ) && final(self).index == next && old(self).index < old(self).tokens.len(),
                Err(message) => out is Err && out->Err_0.message@ == message,
            },
    {
        let found = self.kind();
        if found != kind {
            return Err(expected_error(kind, found));
        }
        Ok(self.eat())
    }

    /// Whether a token other than end of input is at the position.
    fn more(&self) -> (out: bool)
        ensures
            out == (kind_at(self.views(), self.index as int) != TokenKind::EOF),
    {
        self.kind() != TokenKind::EOF
    }

    /// `let` or `const`, a name, `=`, an expression, `;`.
    fn parse_var_declaration(&mut self) -> (out: ParseResult)
        requires
            old(self).wf(),
            old(self).index < old(self).tokens.len(),
        ensures
            final(self).wf(),
            final(self).tokens == old(self).tokens,
            delivers(
                out,
                var_declaration(old(self).views(), old(self).index as int),
                old(self).index as int,
                final(self).index as int,
                old(self).tokens.len() as int,
            ),
        decreases old(self).tokens.len() - old(self).index, 24int,
    {
        let constant = self.eat().kind == TokenKind::Const;
        let identifier = match self.expect(TokenKind::Identifier) {
            Ok(token) => token.value,
            Err(error) => {
                return Err(error);
            },
        };
        match self.expect(TokenKind::Equals) {
            Ok(_) => {},
            Err(error) => {
                return Err(error);
            },
        }
        let value = match self.parse_expr() {
            Ok(value) => value,
            Err(error) => {
                return Err(error);
            },
        };
        match self.expect(TokenKind::Semicolon) {
            Ok(_) => {},
            Err(error) => {
                return Err(error);
            },
        }
        Ok(Expr::VarDecl { constant, identifier: Symbol { name: identifier }, value: Box::new(value) })
    }

    /// `loop` and a block.
    fn parse_loop(&mut self) -> (out: ParseResult)
        requires
            old(self).wf(),
            old(self).index < old(self).tokens.len(),
        ensures
            final(self).wf(),
            final(self).tokens == old(self).tokens,
            delivers(
                out,
                match statement_body(old(self).views(), old(self).index + 1) {
                    Ok((body, next)) => Ok((ExprView::Loop { body }, next)),
                    Err(message) => Err(message),
                },
                old(self).index as int,
                final(self).index as int,
                old(self).tokens.len() as int,
            ),
        decreases old(self).tokens.len() - old(self).index, 24int,
    {
        self.eat();
        match self.parse_statement_body() {
            Ok(body) => Ok(Expr::Loop { body }),
            Err(error) => Err(error),
        }
    }

    /// `{`, statements, `}`.
    fn parse_statement_body(&mut self) -> (out: Result<Vec<Expr>, ParseError>)
        requires
            old(self).wf(),
        ensures
            final(self).wf(),
            final(self).tokens == old(self).tokens,
            delivers_list(
                out,
                statement_body(old(self).views(), old(self).index as int),
                old(self).index as int,
                final(self).index as int,
                old(self).tokens.len() as int,
            ),
        decreases old(self).tokens.len() - old(self).index, 23int,
    {
        let ghost start = self.index as int;
        match self.expect(TokenKind::OpenBrace) {
            Ok(_) => {},
            Err(error) => {
                return Err(error);
            },
        }
        let mut body: Vec<Expr> = Vec::new();
        assert(expr_views(body@) =~= Seq::<ExprView>::empty());
        while self.kind() != TokenKind::EOF && self.kind() != TokenKind::CloseBrace
            invariant
                self.wf(),
                self.tokens == old(self).tokens,
                start == old(self).index,
                start < self.index,
                statement_body(old(self).views(), start) == body_from(
                    self.views(),
                    self.index as int,
                    expr_views(body@),
                ),
            decreases self.tokens.len() - self.index,
        {
            let ghost before = body@;
            let line = match self.parse_statement() {
                Ok(line) => line,
                Err(error) => {
                    return Err(error);
                },
            };
            proof {
                lemma_expr_views_push(before, line);
            }
            body.push(line);
            if self.kind() == TokenKind::Semicolon {
                self.eat();
            }
        }
        match self.expect(TokenKind::CloseBrace) {
            Ok(_) => {},
            Err(error) => {
                return Err(error);
            },
        }
        Ok(body)
    }

    /// `if`, a condition, a block, and what follows `else`.
    fn parse_if_statement(&mut self) -> (out: ParseResult)
        requires
            old(self).wf(),
            old(self).index < old(self).tokens.len(),
        ensures
            final(self).wf(),
            final(self).tokens == old(self).tokens,
            delivers(
                out,
                if_statement(old(self).views(), old(self).index as int),
                old(self).index as int,
                final(self).index as int,
                old(self).tokens.len() as int,
            ),
        decreases old(self).tokens.len() - old(self).index, 24int,
    {
        let ghost views = self.views();
        let ghost start = self.index as int;
        self.eat();
        let condition = match self.parse_expr() {
            Ok(condition) => condition,
            Err(error) => {
                return Err(error);
            },
        };
        let ghost opened = self.index as int;
        assert(checked(views, start, expr(views, start + 1)) == Ok::<(ExprView, int), Seq<char>>(
            (condition@, opened),
        ));
        let body = match self.parse_statement_body() {
            Ok(body) => body,
            Err(error) => {
                return Err(error);
            },
        };
        let ghost next = self.index as int;
        assert(checked(views, start, statement_body(views, opened)) == Ok::<
            (Seq<ExprView>, int),
            Seq<char>,
        >((expr_views(body@), next)));
        let then_branch = Expr::Body { body };
        assert(then_branch@ == ExprView::Body { body: expr_views(body@) });
        if self.kind() != TokenKind::Else {
            let out = Expr::IfExpr {
                when: Box::new(condition),
                then_branch: Box::new(then_branch),
                other: None,
            };
            assert(out@ == ExprView::IfExpr {
                when: Box::new(condition@),
                then_branch: Box::new(then_branch@),
                other: None,
            });
            return Ok(out);
        }
        self.eat();
        let alternative = match self.parse_alternative() {
            Ok(alternative) => alternative,
            Err(error) => {
                return Err(error);
            },
        };
        let out = Expr::IfExpr {
            when: Box::new(condition),
            then_branch: Box::new(then_branch),
            other: Some(Box::new(alternative)),
        };
        assert(out@ == ExprView::IfExpr {
            when: Box::new(condition@),
            then_branch: Box::new(then_branch@),
            other: Some(Box::new(alternative@)),
        });
        Ok(out)
    }

    /// What follows `else`: another `if`, a block, or a single statement.
    fn parse_alternative(&mut self) -> (out: ParseResult)
        requires
            old(self).wf(),
        ensures
            final(self).wf(),
            final(self).tokens == old(self).tokens,
            delivers(
                out,
                alternative(old(self).views(), old(self).index as int),
                old(self).index as int,
                final(self).index as int,
                old(self).tokens.len() as int,
            ),
        decreases old(self).tokens.len() - old(self).index, 26int,
    {
        match self.kind() {
            TokenKind::If => self.parse_if_statement(),
            TokenKind::OpenBrace => match self.parse_statement_body() {
                Ok(body) => Ok(Expr::Body { body }),
                Err(error) => Err(error),
            },
            _ => self.parse_statement(),
        }
    }

    /// `fn`, a name, a parenthesized list of names, a block.
    fn parse_fn_declaration(&mut self) -> (out: ParseResult)
        requires
            old(self).wf(),
            old(self).index < old(self).tokens.len(),
        ensures
            final(self).wf(),
            final(self).tokens == old(self).tokens,
            delivers(
                out,
                fn_declaration(old(self).views(), old(self).index as int),
                old(self).index as int,
                final(self).index as int,
                old(self).tokens.len() as int,
            ),
        decreases old(self).tokens.len() - old(self).index, 24int,
    {
        self.eat();
        let identifier = match self.expect(TokenKind::Identifier) {
            Ok(token) => Symbol { name: token.value },
            Err(error) => {
                return Err(error);
            },
        };
        let args = match self.parse_args() {
            Ok(args) => args,
            Err(error) => {
                return Err(error);
            },
        };
        let params = match parameters_of(&args) {
            Some(params) => params,
            None => {
                return Err(
                    ParseError { message: String::from_str("Only [Identifier]s expected") },
                );
            },
        };
        let body = match self.parse_statement_body() {
            Ok(body) => body,
            Err(error) => {
                return Err(error);
            },
        };
        let block = Expr::Body { body };
        assert(block@ == ExprView::Body { body: expr_views(body@) });
        Ok(Expr::FnDecl { identifier, params, body: Box::new(block) })
    }

    /// An expression.
    fn parse_expr(&mut self) -> (out: ParseResult)
        requires
            old(self).wf(),
        ensures
            final(self).wf(),
            final(self).tokens == old(self).tokens,
            delivers(
                out,
                expr(old(self).views(), old(self).index as int),
                old(self).index as int,
                final(self).index as int,
                old(self).tokens.len() as int,
            ),
        decreases old(self).tokens.len() - old(self).index, 15int,
    {
        self.parse_assign_expr()
    }

    /// Additive expressions joined by `==` and `!=`.
    fn parse_conditional_expr(&mut self) -> (out: ParseResult)
        requires
            old(self).wf(),
        ensures
            final(self).wf(),
            final(self).tokens == old(self).tokens,
            delivers(
                out,
                comparison(old(self).views(), old(self).index as int),
                old(self).index as int,
                final(self).index as int,
                old(self).tokens.len() as int,
            ),
        decreases old(self).tokens.len() - old(self).index, 12int,
    {
        let ghost start = self.index as int;
        let mut left = match self.parse_add_expr() {
            Ok(left) => left,
            Err(error) => {
                return Err(error);
            },
        };
        while self.kind() == TokenKind::Eq || self.kind() == TokenKind::NotEq
            invariant
                self.wf(),
                self.tokens == old(self).tokens,
                start == old(self).index,
                start < self.index,
                comparison(old(self).views(), start) == comparison_from(
                    self.views(),
                    self.index as int,
                    left@,
                ),
            decreases self.tokens.len() - self.index,
        {
            let ghost before = left@;
            let operator = self.eat().kind;
            let right = match self.parse_add_expr() {
                Ok(right) => right,
                Err(error) => {
                    return Err(error);
                },
            };
            left = if operator == TokenKind::Eq {
                Expr::Eq { left: Box::new(left), right: Box::new(right) }
            } else {
                Expr::NotEq { left: Box::new(left), right: Box::new(right) }
            };
            assert(left@ == compared(operator, before, right@));
        }
        Ok(left)
    }

    /// An object-tier expression and, after `=`, the assigned expression.
    fn parse_assign_expr(&mut self) -> (out: ParseResult)
        requires
            old(self).wf(),
        ensures
            final(self).wf(),
            final(self).tokens == old(self).tokens,
            delivers(
                out,
                assignment(old(self).views(), old(self).index as int),
                old(self).index as int,
                final(self).index as int,
                old(self).tokens.len() as int,
            ),
        decreases old(self).tokens.len() - old(self).index, 14int,
    {
        let target = match self.parse_object_expr() {
            Ok(target) => target,
            Err(error) => {
                return Err(error);
            },
        };
        if self.kind() == TokenKind::Equals {
            self.eat();
            match self.parse_assign_expr() {
                Ok(value) => Ok(
                    Expr::AssignExpr { target: Box::new(target), value: Box::new(value) },
                ),
                Err(error) => Err(error),
            }
        } else {
            Ok(target)
        }
    }

    /// An object literal where a brace opens, else a comparison.
    fn parse_object_expr(&mut self) -> (out: ParseResult)
        requires
            old(self).wf(),
        ensures
            final(self).wf(),
            final(self).tokens == old(self).tokens,
            delivers(
                out,
                object(old(self).views(), old(self).index as int),
                old(self).index as int,
                final(self).index as int,
                old(self).tokens.len() as int,
            ),
        decreases old(self).tokens.len() - old(self).index, 13int,
    {
        if self.kind() != TokenKind::OpenBrace {
            return self.parse_conditional_expr();
        }
        let ghost start = self.index as int;
        self.eat();
        let mut props: Vec<Property> = Vec::new();
        assert(property_views(props@) =~= Seq::<PropertyView>::empty());
        while self.kind() != TokenKind::CloseBrace
            invariant
                self.wf(),
                self.tokens == old(self).tokens,
                start == old(self).index,
                start < self.index,
                kind_at(old(self).views(), start) == TokenKind::OpenBrace,
                properties_from(old(self).views(), start + 1, Seq::empty()) == properties_from(
                    self.views(),
                    self.index as int,
                    property_views(props@),
                ),
            decreases self.tokens.len() - self.index,
        {
            let ghost before = props@;
            let identifier = match self.expect(TokenKind::Identifier) {
                Ok(token) => Symbol { name: token.value },
                Err(error) => {
                    return Err(error);
                },
            };
            if self.kind() == TokenKind::Comma {
                self.eat();
                let property = Property { identifier, value: None };
                proof {
                    lemma_property_views_push(before, property);
                }
                props.push(property);
                continue ;
            } else if self.kind() == TokenKind::CloseBrace {
                let property = Property { identifier, value: None };
                proof {
                    lemma_property_views_push(before, property);
                }
                props.push(property);
                continue ;
            }
            match self.expect(TokenKind::Colon) {
                Ok(_) => {},
                Err(error) => {
                    return Err(error);
                },
            }
            let value = match self.parse_expr() {
                Ok(value) => value,
                Err(error) => {
                    return Err(error);
                },
            };
            let property = Property { identifier, value: Some(value) };
            proof {
                lemma_property_views_push(before, property);
            }
            props.push(property);
            if self.kind() == TokenKind::Comma {
                self.eat();
            }
        }
        self.eat();
        Ok(Expr::Object { props })
    }

    /// One statement, told by its first token.
    fn parse_statement(&mut self) -> (out: ParseResult)
        requires
            old(self).wf(),
        ensures
            final(self).wf(),
            final(self).tokens == old(self).tokens,
            delivers(
                out,
                statement(old(self).views(), old(self).index as int),
                old(self).index as int,
                final(self).index as int,
                old(self).tokens.len() as int,
            ),
        decreases old(self).tokens.len() - old(self).index, 25int,
    {
        match self.kind() {
            TokenKind::Let => self.parse_var_declaration(),
            TokenKind::Const => self.parse_var_declaration(),
            TokenKind::Fn => self.parse_fn_declaration(),
            TokenKind::If => self.parse_if_statement(),
            TokenKind::Loop => self.parse_loop(),
            TokenKind::OpenBrace => match self.parse_statement_body() {
                Ok(body) => Ok(Expr::Body { body }),
                Err(error) => Err(error),
            },
            TokenKind::Break => {
                self.eat();
                Ok(Expr::Break)
            },
            TokenKind::Return => {
                self.eat();
                match self.parse_expr() {
                    Ok(value) => Ok(Expr::Return { expr: Box::new(value) }),
                    Err(error) => Err(error),
                }
            },
            _ => self.parse_expr(),
        }
    }

    /// A number, a string, a name, or an expression in parentheses.
    fn parse_primary_expr(&mut self) -> (out: ParseResult)
        requires
            old(self).wf(),
        ensures
            final(self).wf(),
            final(self).tokens == old(self).tokens,
            delivers(
                out,
                primary(old(self).views(), old(self).index as int),
                old(self).index as int,
                final(self).index as int,
                old(self).tokens.len() as int,
            ),
        decreases old(self).tokens.len() - old(self).index, 7int,
    {
        let current = self.at();
        match current.kind {
            TokenKind::Number => Ok(Expr::Number(self.eat().value)),
            TokenKind::String => Ok(Expr::String(self.eat().value)),
            TokenKind::Identifier => Ok(Expr::Identifier(Symbol { name: self.eat().value })),
            TokenKind::OpenParenthesis => {
                self.eat();
                let inner = match self.parse_expr() {
                    Ok(inner) => inner,
                    Err(error) => {
                        return Err(error);
                    },
                };
                match self.expect(TokenKind::CloseParenthesis) {
                    Ok(_) => Ok(inner),
                    Err(error) => Err(error),
                }
            },
            _ => Err(unknown_error(&current)),
        }
    }

    /// Call-tier expressions joined by `*`, `/` and `%`.
    fn parse_mul_expr(&mut self) -> (out: ParseResult)
        requires
            old(self).wf(),
        ensures
            final(self).wf(),
            final(self).tokens == old(self).tokens,
            delivers(
                out,
                multiplicative(old(self).views(), old(self).index as int),
                old(self).index as int,
                final(self).index as int,
                old(self).tokens.len() as int,
            ),
        decreases old(self).tokens.len() - old(self).index, 10int,
    {
        let ghost start = self.index as int;
        let mut left = match self.parse_call_member_expr() {
            Ok(left) => left,
            Err(error) => {
                return Err(error);
            },
        };
        while self.index < self.tokens.len() && multiplicative_symbol(
            self.tokens[self.index].value.as_str(),
        )
            invariant
                self.wf(),
                self.tokens == old(self).tokens,
                start == old(self).index,
                start < self.index,
                multiplicative(old(self).views(), start) == multiplicative_from(
                    self.views(),
                    self.index as int,
                    left@,
                ),
            decreases self.tokens.len() - self.index,
        {
            let op = self.eat().value;
            let right = match self.parse_call_member_expr() {
                Ok(right) => right,
                Err(error) => {
                    return Err(error);
                },
            };
            left = Expr::BinaryExpr { left: Box::new(left), right: Box::new(right), op };
        }
        Ok(left)
    }

    /// A member expression and, where a parenthesis follows, its calls.
    fn parse_call_member_expr(&mut self) -> (out: ParseResult)
        requires
            old(self).wf(),
        ensures
            final(self).wf(),
            final(self).tokens == old(self).tokens,
            delivers(
                out,
                call_member(old(self).views(), old(self).index as int),
                old(self).index as int,
                final(self).index as int,
                old(self).tokens.len() as int,
            ),
        decreases old(self).tokens.len() - old(self).index, 9int,
    {
        let callee = match self.parse_member_expr() {
            Ok(callee) => callee,
            Err(error) => {
                return Err(error);
            },
        };
        if self.kind() == TokenKind::OpenParenthesis {
            self.parse_call_expr(callee)
        } else {
            Ok(callee)
        }
    }

    /// One argument list applied to `caller`, and every one that follows.
    fn parse_call_expr(&mut self, caller: Expr) -> (out: ParseResult)
        requires
            old(self).wf(),
            old(self).index < old(self).tokens.len(),
        ensures
            final(self).wf(),
            final(self).tokens == old(self).tokens,
            delivers(
                out,
                call(old(self).views(), old(self).index as int, caller@),
                old(self).index as int,
                final(self).index as int,
                old(self).tokens.len() as int,
            ),
        decreases old(self).tokens.len() - old(self).index, 8int,
    {
        let args = match self.parse_args() {
            Ok(args) => args,
            Err(error) => {
                return Err(error);
            },
        };
        let applied = Expr::CallExpr { caller: Box::new(caller), args };
        if self.kind() == TokenKind::OpenParenthesis {
            self.parse_call_expr(applied)
        } else {
            Ok(applied)
        }
    }

    /// A primary expression and its member accesses.
    fn parse_member_expr(&mut self) -> (out: ParseResult)
        requires
            old(self).wf(),
        ensures
            final(self).wf(),
            final(self).tokens == old(self).tokens,
            delivers(
                out,
                member(old(self).views(), old(self).index as int),
                old(self).index as int,
                final(self).index as int,
                old(self).tokens.len() as int,
            ),
        decreases old(self).tokens.len() - old(self).index, 8int,
    {
        let ghost start = self.index as int;
        let mut object = match self.parse_primary_expr() {
            Ok(object) => object,
            Err(error) => {
                return Err(error);
            },
        };
        while self.kind() == TokenKind::Dot || self.kind() == TokenKind::OpenBracket
            invariant
                self.wf(),
                self.tokens == old(self).tokens,
                start == old(self).index,
                start < self.index,
                member(old(self).views(), start) == member_from(
                    self.views(),
                    self.index as int,
                    object@,
                ),
            decreases self.tokens.len() - self.index,
        {
            let operator = self.eat();
            let property: Expr;
            let computed: bool;
            if operator.kind == TokenKind::Dot {
                computed = false;
                property = match self.parse_primary_expr() {
                    Ok(property) => property,
                    Err(error) => {
                        return Err(error);
                    },
                };
            } else {
                computed = true;
                property = match self.parse_expr() {
                    Ok(property) => property,
                    Err(error) => {
                        return Err(error);
                    },
                };
                match self.expect(TokenKind::CloseBracket) {
                    Ok(_) => {},
                    Err(error) => {
                        return Err(error);
                    },
                }
            }
            object = Expr::MemberExpr {
                object: Box::new(object),
                property: Box::new(property),
                computed,
            };
        }
        Ok(object)
    }

    /// `(`, expressions with commas between them, `)`.
    fn parse_args(&mut self) -> (out: Result<Vec<Expr>, ParseError>)
        requires
            old(self).wf(),
        ensures
            final(self).wf(),
            final(self).tokens == old(self).tokens,
            delivers_list(
                out,
                arguments(old(self).views(), old(self).index as int),
                old(self).index as int,
                final(self).index as int,
                old(self).tokens.len() as int,
            ),
        decreases old(self).tokens.len() - old(self).index, 7int,
    {
        match self.expect(TokenKind::OpenParenthesis) {
            Ok(_) => {},
            Err(error) => {
                return Err(error);
            },
        }
        let args = if self.kind() == TokenKind::CloseParenthesis {
            let empty: Vec<Expr> = Vec::new();
            assert(expr_views(empty@) =~= Seq::<ExprView>::empty());
            empty
        } else {
            match self.parse_args_list() {
                Ok(args) => args,
                Err(error) => {
                    return Err(error);
                },
            }
        };
        match self.expect(TokenKind::CloseParenthesis) {
            Ok(_) => {},
            Err(error) => {
                return Err(error);
            },
        }
        Ok(args)
    }

    /// One expression or more, with commas between them.
    fn parse_args_list(&mut self) -> (out: Result<Vec<Expr>, ParseError>)
        requires
            old(self).wf(),
        ensures
            final(self).wf(),
            final(self).tokens == old(self).tokens,
            delivers_list(
                out,
                argument_list(old(self).views(), old(self).index as int),
                old(self).index as int,
                final(self).index as int,
                old(self).tokens.len() as int,
            ),
        decreases old(self).tokens.len() - old(self).index, 16int,
    {
        let ghost start = self.index as int;
        let first = match self.parse_expr() {
            Ok(first) => first,
            Err(error) => {
                return Err(error);
            },
        };
        let mut args: Vec<Expr> = Vec::new();
        args.push(first);
        assert(expr_views(args@) =~= seq![first@]);
        while self.kind() == TokenKind::Comma
            invariant
                self.wf(),
                self.tokens == old(self).tokens,
                start == old(self).index,
                start < self.index,
                argument_list(old(self).views(), start) == argument_list_from(
                    self.views(),
                    self.index as int,
                    expr_views(args@),
                ),
            decreases self.tokens.len() - self.index,
        {
            self.eat();
            let ghost before = args@;
            let arg = match self.parse_expr() {
                Ok(arg) => arg,
                Err(error) => {
                    return Err(error);
                },
            };
            proof {
                lemma_expr_views_push(before, arg);
            }
            args.push(arg);
        }
        Ok(args)
    }

    /// Multiplicative expressions joined by `+` and `-`.
    fn parse_add_expr(&mut self) -> (out: ParseResult)
        requires
            old(self).wf(),
        ensures
            final(self).wf(),
            final(self).tokens == old(self).tokens,
            delivers(
                out,
                additive(old(self).views(), old(self).index as int),
                old(self).index as int,
                final(self).index as int,
                old(self).tokens.len() as int,
            ),
        decreases old(self).tokens.len() - old(self).index, 11int,
    {
        let ghost start = self.index as int;
        let mut left = match self.parse_mul_expr() {
            Ok(left) => left,
            Err(error) => {
                return Err(error);
            },
        };
        while self.index < self.tokens.len() && additive_symbol(
            self.tokens[self.index].value.as_str(),
        )
            invariant
                self.wf(),
                self.tokens == old(self).tokens,
                start == old(self).index,
                start < self.index,
                additive(old(self).views(), start) == additive_from(
                    self.views(),
                    self.index as int,
                    left@,
                ),
            decreases self.tokens.len() - self.index,
        {
            let op = self.eat().value;
            let right = match self.parse_mul_expr() {
                Ok(right) => right,
                Err(error) => {
                    return Err(error);
                },
            };
            left = Expr::BinaryExpr { left: Box::new(left), right: Box::new(right), op };
        }
        Ok(left)
    }
}

/// The names of the first `count` parameters are a prefix of the names of
/// all, where all are names.
pub proof fn lemma_names_prefix(args: Seq<ExprView>, count: int)
    requires
        0 <= count <= args.len(),
    ensures
        parameter_names(args) is Some ==> parameter_names(args.take(count)) is Some,
    decreases args.len(),
{
    if count < args.len() {
        assert(args.drop_last().take(count) =~= args.take(count));
        lemma_names_prefix(args.drop_last(), count);
    } else {
        assert(args.take(count) =~= args);
    }
}

} // verus!
