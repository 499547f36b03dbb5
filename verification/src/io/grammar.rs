//! The grammar of the language, as functions from a token sequence and a
//! position to the tree that is read there and the position after it.
//!
//! Tiers, from loosest to tightest binding: assignment, object literal,
//! equality, additive, multiplicative, call, member access, primary.

use vstd::prelude::*;
use crate::io::ast::{ExprView, PropertyView};
use crate::io::lexer::{end_of_input, TokenKind, TokenView};
use crate::io::text::str_debug;

verus! {

/// What reading at a position gives: the thing read and the position after
/// it, or the message of the first failure.
pub type Parsed<T> = Result<(T, int), Seq<char>>;

/// The token at a position; past the end, the end-of-input token.
pub open spec fn token_at(tokens: Seq<TokenView>, pos: int) -> TokenView {
    if 0 <= pos < tokens.len() {
        tokens[pos]
    } else {
        end_of_input()
    }
}

pub open spec fn kind_at(tokens: Seq<TokenView>, pos: int) -> TokenKind {
    token_at(tokens, pos).kind
}

/// Whether reading from `pos` to `next` moved forward and stayed inside the
/// sequence.
pub open spec fn reaches(tokens: Seq<TokenView>, pos: int, next: int) -> bool {
    pos < next <= tokens.len()
}

/// The message of a reading that did not move forward. No reading gives it:
/// every successful one consumes a token.
pub open spec fn stuck() -> Seq<char> {
    "no progress"@
}

/// A result that is let through only where it moved forward from `pos`.
pub open spec fn checked<T>(tokens: Seq<TokenView>, pos: int, result: Parsed<T>) -> Parsed<T> {
    match result {
        Ok((value, next)) => if reaches(tokens, pos, next) {
            result
        } else {
            Err(stuck())
        },
        Err(_) => result,
    }
}

/// The name of a token kind, as it stands in messages.
pub open spec fn kind_name(kind: TokenKind) -> Seq<char> {
    match kind {
        TokenKind::Let => "Let"@,
        TokenKind::Const => "Const"@,
        TokenKind::Number => "Number"@,
        TokenKind::Identifier => "Identifier"@,
        TokenKind::String => "String"@,
        TokenKind::BinaryOperator => "BinaryOperator"@,
        TokenKind::Equals => "Equals"@,
        TokenKind::Eq => "Eq"@,
        TokenKind::NotEq => "NotEq"@,
        TokenKind::Not => "Not"@,
        TokenKind::Semicolon => "Semicolon"@,
        TokenKind::Colon => "Colon"@,
        TokenKind::Comma => "Comma"@,
        TokenKind::Dot => "Dot"@,
        TokenKind::OpenParenthesis => "OpenParenthesis"@,
        TokenKind::CloseParenthesis => "CloseParenthesis"@,
        TokenKind::OpenBrace => "OpenBrace"@,
        TokenKind::CloseBrace => "CloseBrace"@,
        TokenKind::OpenBracket => "OpenBracket"@,
        TokenKind::CloseBracket => "CloseBracket"@,
        TokenKind::Type => "Type"@,
        TokenKind::Struct => "Struct"@,
        TokenKind::Fn => "Fn"@,
        TokenKind::Union => "Union"@,
        TokenKind::Enum => "Enum"@,
        TokenKind::If => "If"@,
        TokenKind::Else => "Else"@,
        TokenKind::Pub => "Pub"@,
        TokenKind::Match => "Match"@,
        TokenKind::Loop => "Loop"@,
        TokenKind::Break => "Break"@,
        TokenKind::Return => "Return"@,
        TokenKind::EOF => "EOF"@,
    }
}

pub open spec fn expected_message(kind: TokenKind, found: TokenKind) -> Seq<char> {
    "expected "@ + kind_name(kind) + ", found "@ + kind_name(found)
}

pub open spec fn unknown_message(token: TokenView) -> Seq<char> {
    "unknown Token { kind: "@ + kind_name(token.kind) + ", value: "@ + str_debug(token.value)
        + " }"@
}

pub open spec fn only_identifiers_message() -> Seq<char> {
    "Only [Identifier]s expected"@
}

/// A token of the given kind: the position after it, or the failure.
pub open spec fn expect_at(tokens: Seq<TokenView>, pos: int, kind: TokenKind) -> Result<
    int,
    Seq<char>,
> {
    if kind_at(tokens, pos) == kind {
        Ok(pos + 1)
    } else {
        Err(expected_message(kind, kind_at(tokens, pos)))
    }
}

/// A whole token sequence: the statements up to the first end-of-input token,
/// with stray semicolons between them passed over.
pub open spec fn program(tokens: Seq<TokenView>) -> Result<ExprView, Seq<char>> {
    program_from(tokens, 0, Seq::empty())
}

pub open spec fn program_from(tokens: Seq<TokenView>, pos: int, body: Seq<ExprView>) -> Result<
    ExprView,
    Seq<char>,
>
    decreases tokens.len() - pos, 30int,
{
    if kind_at(tokens, pos) == TokenKind::EOF {
        Ok(ExprView::Program(body))
    } else if kind_at(tokens, pos) == TokenKind::Semicolon {
        program_from(tokens, pos + 1, body)
    } else {
        match checked(tokens, pos, statement(tokens, pos)) {
            Ok((line, next)) => program_from(tokens, next, body.push(line)),
            Err(message) => Err(message),
        }
    }
}

/// One statement, told by its first token.
pub open spec fn statement(tokens: Seq<TokenView>, pos: int) -> Parsed<ExprView>
    decreases tokens.len() - pos, 25int,
{
    match kind_at(tokens, pos) {
        TokenKind::Let => var_declaration(tokens, pos),
        TokenKind::Const => var_declaration(tokens, pos),
        TokenKind::Fn => fn_declaration(tokens, pos),
        TokenKind::If => if_statement(tokens, pos),
        TokenKind::Loop => match statement_body(tokens, pos + 1) {
            Ok((body, next)) => Ok((ExprView::Loop { body }, next)),
            Err(message) => Err(message),
        },
        TokenKind::OpenBrace => match statement_body(tokens, pos) {
            Ok((body, next)) => Ok((ExprView::Body { body }, next)),
            Err(message) => Err(message),
        },
        TokenKind::Break => Ok((ExprView::Break, pos + 1)),
        TokenKind::Return => match expr(tokens, pos + 1) {
            Ok((e, next)) => Ok((ExprView::Return { expr: Box::new(e) }, next)),
            Err(message) => Err(message),
        },
        _ => expr(tokens, pos),
    }
}

/// `let` or `const`, a name, `=`, an expression, `;`.
pub open spec fn var_declaration(tokens: Seq<TokenView>, pos: int) -> Parsed<ExprView>
    decreases tokens.len() - pos, 24int,
{
    let constant = kind_at(tokens, pos) == TokenKind::Const;
    let identifier = token_at(tokens, pos + 1).value;
    match expect_at(tokens, pos + 1, TokenKind::Identifier) {
        Ok(named) => match expect_at(tokens, named, TokenKind::Equals) {
            Ok(start) => match checked(tokens, pos, expr(tokens, start)) {
                Ok((value, next)) => match expect_at(tokens, next, TokenKind::Semicolon) {
                    Ok(end) => Ok(
                        (ExprView::VarDecl { constant, identifier, value: Box::new(value) }, end),
                    ),
                    Err(message) => Err(message),
                },
                Err(message) => Err(message),
            },
            Err(message) => Err(message),
        },
        Err(message) => Err(message),
    }
}

/// The names of a parameter list, where every parameter is a bare name.
pub open spec fn parameter_names(args: Seq<ExprView>) -> Option<Seq<Seq<char>>>
    decreases args.len(),
{
    if args.len() == 0 {
        Some(Seq::empty())
    } else {
        match (parameter_names(args.drop_last()), args.last()) {
            (Some(names), ExprView::Identifier(name)) => Some(names.push(name)),
            _ => None,
        }
    }
}

/// `fn`, a name, a parenthesized list of names, a block.
pub open spec fn fn_declaration(tokens: Seq<TokenView>, pos: int) -> Parsed<ExprView>
    decreases tokens.len() - pos, 24int,
{
    let identifier = token_at(tokens, pos + 1).value;
    match expect_at(tokens, pos + 1, TokenKind::Identifier) {
        Ok(named) => match checked(tokens, pos, arguments(tokens, named)) {
            Ok((args, opened)) => match parameter_names(args) {
                Some(params) => match statement_body(tokens, opened) {
                    Ok((body, next)) => Ok(
                        (
                            ExprView::FnDecl {
                                identifier,
                                params,
                                body: Box::new(ExprView::Body { body }),
                            },
                            next,
                        ),
                    ),
                    Err(message) => Err(message),
                },
                None => Err(only_identifiers_message()),
            },
            Err(message) => Err(message),
        },
        Err(message) => Err(message),
    }
}

/// `if`, a condition, a block, and after `else` another `if`, a block or a
/// single statement.
pub open spec fn if_statement(tokens: Seq<TokenView>, pos: int) -> Parsed<ExprView>
    decreases tokens.len() - pos, 24int,
{
    match checked(tokens, pos, expr(tokens, pos + 1)) {
        Ok((condition, opened)) => match checked(tokens, pos, statement_body(tokens, opened)) {
            Ok((body, next)) => {
                let when = Box::new(condition);
                let then_branch = Box::new(ExprView::Body { body });
                if kind_at(tokens, next) == TokenKind::Else {
                    match alternative(tokens, next + 1) {
                        Ok((other, end)) => Ok(
                            (
                                ExprView::IfExpr {
                                    when,
                                    then_branch,
                                    other: Some(Box::new(other)),
                                },
                                end,
                            ),
                        ),
                        Err(message) => Err(message),
                    }
                } else {
                    Ok((ExprView::IfExpr { when, then_branch, other: None }, next))
                }
            },
            Err(message) => Err(message),
        },
        Err(message) => Err(message),
    }
}

/// What follows `else`: another `if`, a block, or a single statement.
pub open spec fn alternative(tokens: Seq<TokenView>, pos: int) -> Parsed<ExprView>
    decreases tokens.len() - pos, 26int,
{
    match kind_at(tokens, pos) {
        TokenKind::If => if_statement(tokens, pos),
        TokenKind::OpenBrace => match statement_body(tokens, pos) {
            Ok((body, end)) => Ok((ExprView::Body { body }, end)),
            Err(message) => Err(message),
        },
        _ => statement(tokens, pos),
    }
}

/// `{`, statements, `}`. One semicolon after a statement is passed over.
pub open spec fn statement_body(tokens: Seq<TokenView>, pos: int) -> Parsed<Seq<ExprView>>
    decreases tokens.len() - pos, 24int,
{
    match expect_at(tokens, pos, TokenKind::OpenBrace) {
        Ok(inside) => body_from(tokens, inside, Seq::empty()),
        Err(message) => Err(message),
    }
}

pub open spec fn body_from(tokens: Seq<TokenView>, pos: int, body: Seq<ExprView>) -> Parsed<
    Seq<ExprView>,
>
    decreases tokens.len() - pos, 26int,
{
    if kind_at(tokens, pos) == TokenKind::EOF || kind_at(tokens, pos) == TokenKind::CloseBrace {
        match expect_at(tokens, pos, TokenKind::CloseBrace) {
            Ok(end) => Ok((body, end)),
            Err(message) => Err(message),
        }
    } else {
        match checked(tokens, pos, statement(tokens, pos)) {
            Ok((line, next)) => if kind_at(tokens, next) == TokenKind::Semicolon {
                body_from(tokens, next + 1, body.push(line))
            } else {
                body_from(tokens, next, body.push(line))
            },
            Err(message) => Err(message),
        }
    }
}

/// An expression.
pub open spec fn expr(tokens: Seq<TokenView>, pos: int) -> Parsed<ExprView>
    decreases tokens.len() - pos, 15int,
{
    assignment(tokens, pos)
}

/// An object-tier expression and, after `=`, the assigned expression.
/// Assignment associates to the right.
pub open spec fn assignment(tokens: Seq<TokenView>, pos: int) -> Parsed<ExprView>
    decreases tokens.len() - pos, 14int,
{
    match checked(tokens, pos, object(tokens, pos)) {
        Ok((target, next)) => if kind_at(tokens, next) == TokenKind::Equals {
            match assignment(tokens, next + 1) {
                Ok((value, end)) => Ok(
                    (
                        ExprView::AssignExpr {
                            target: Box::new(target),
                            value: Box::new(value),
                        },
                        end,
                    ),
                ),
                Err(message) => Err(message),
            }
        } else {
            Ok((target, next))
        },
        Err(message) => Err(message),
    }
}

/// An object literal where a brace opens, else a comparison.
pub open spec fn object(tokens: Seq<TokenView>, pos: int) -> Parsed<ExprView>
    decreases tokens.len() - pos, 13int,
{
    if kind_at(tokens, pos) == TokenKind::OpenBrace {
        match properties_from(tokens, pos + 1, Seq::empty()) {
            Ok((props, end)) => Ok((ExprView::Object { props }, end)),
            Err(message) => Err(message),
        }
    } else {
        comparison(tokens, pos)
    }
}

/// The properties of an object literal up to its closing brace. A property is
/// a name alone, or a name, `:` and an expression; a comma may follow it.
pub open spec fn properties_from(tokens: Seq<TokenView>, pos: int, props: Seq<PropertyView>)
    -> Parsed<Seq<PropertyView>>
    decreases tokens.len() - pos, 13int,
{
    if kind_at(tokens, pos) == TokenKind::CloseBrace {
        Ok((props, pos + 1))
    } else {
        let identifier = token_at(tokens, pos).value;
        match expect_at(tokens, pos, TokenKind::Identifier) {
            Ok(named) => if kind_at(tokens, named) == TokenKind::Comma {
                properties_from(
                    tokens,
                    named + 1,
                    props.push(PropertyView { identifier, value: None }),
                )
            } else if kind_at(tokens, named) == TokenKind::CloseBrace {
                properties_from(tokens, named, props.push(PropertyView { identifier, value: None }))
            } else {
                match expect_at(tokens, named, TokenKind::Colon) {
                    Ok(start) => match checked(tokens, pos, expr(tokens, start)) {
                        Ok((value, next)) => {
                            let property = PropertyView { identifier, value: Some(value) };
                            if kind_at(tokens, next) == TokenKind::Comma {
                                properties_from(tokens, next + 1, props.push(property))
                            } else {
                                properties_from(tokens, next, props.push(property))
                            }
                        },
                        Err(message) => Err(message),
                    },
                    Err(message) => Err(message),
                }
            },
            Err(message) => Err(message),
        }
    }
}

/// Additive expressions joined by `==` and `!=`, grouped from the left.
pub open spec fn comparison(tokens: Seq<TokenView>, pos: int) -> Parsed<ExprView>
    decreases tokens.len() - pos, 12int,
{
    match checked(tokens, pos, additive(tokens, pos)) {
        Ok((left, next)) => comparison_from(tokens, next, left),
        Err(message) => Err(message),
    }
}

/// The comparison that two operands make under `==` or, with another kind,
/// under `!=`.
pub open spec fn compared(kind: TokenKind, left: ExprView, right: ExprView) -> ExprView {
    if kind == TokenKind::Eq {
        ExprView::Eq { left: Box::new(left), right: Box::new(right) }
    } else {
        ExprView::NotEq { left: Box::new(left), right: Box::new(right) }
    }
}

pub open spec fn comparison_from(tokens: Seq<TokenView>, pos: int, left: ExprView) -> Parsed<
    ExprView,
>
    decreases tokens.len() - pos, 12int,
{
    let kind = kind_at(tokens, pos);
    if kind == TokenKind::Eq || kind == TokenKind::NotEq {
        match checked(tokens, pos, additive(tokens, pos + 1)) {
            Ok((right, next)) => comparison_from(tokens, next, compared(kind, left, right)),
            Err(message) => Err(message),
        }
    } else {
        Ok((left, pos))
    }
}

pub open spec fn is_additive(symbol: Seq<char>) -> bool {
    symbol == "+"@ || symbol == "-"@
}

pub open spec fn is_multiplicative(symbol: Seq<char>) -> bool {
    symbol == "*"@ || symbol == "/"@ || symbol == "%"@
}

/// Multiplicative expressions joined by `+` and `-`, grouped from the left.
pub open spec fn additive(tokens: Seq<TokenView>, pos: int) -> Parsed<ExprView>
    decreases tokens.len() - pos, 11int,
{
    match checked(tokens, pos, multiplicative(tokens, pos)) {
        Ok((left, next)) => additive_from(tokens, next, left),
        Err(message) => Err(message),
    }
}

pub open spec fn additive_from(tokens: Seq<TokenView>, pos: int, left: ExprView) -> Parsed<
    ExprView,
>
    decreases tokens.len() - pos, 11int,
{
    let op = token_at(tokens, pos).value;
    if 0 <= pos < tokens.len() && is_additive(op) {
        match checked(tokens, pos, multiplicative(tokens, pos + 1)) {
            Ok((right, next)) => additive_from(
                tokens,
                next,
                ExprView::BinaryExpr { left: Box::new(left), right: Box::new(right), op },
            ),
            Err(message) => Err(message),
        }
    } else {
        Ok((left, pos))
    }
}

/// Call-tier expressions joined by `*`, `/` and `%`, grouped from the left.
pub open spec fn multiplicative(tokens: Seq<TokenView>, pos: int) -> Parsed<ExprView>
    decreases tokens.len() - pos, 10int,
{
    match checked(tokens, pos, call_member(tokens, pos)) {
        Ok((left, next)) => multiplicative_from(tokens, next, left),
        Err(message) => Err(message),
    }
}

pub open spec fn multiplicative_from(tokens: Seq<TokenView>, pos: int, left: ExprView) -> Parsed<
    ExprView,
>
    decreases tokens.len() - pos, 10int,
{
    let op = token_at(tokens, pos).value;
    if 0 <= pos < tokens.len() && is_multiplicative(op) {
        match checked(tokens, pos, call_member(tokens, pos + 1)) {
            Ok((right, next)) => multiplicative_from(
                tokens,
                next,
                ExprView::BinaryExpr { left: Box::new(left), right: Box::new(right), op },
            ),
            Err(message) => Err(message),
        }
    } else {
        Ok((left, pos))
    }
}

/// A member expression and, where a parenthesis follows, its calls.
pub open spec fn call_member(tokens: Seq<TokenView>, pos: int) -> Parsed<ExprView>
    decreases tokens.len() - pos, 9int,
{
    match checked(tokens, pos, member(tokens, pos)) {
        Ok((callee, next)) => if kind_at(tokens, next) == TokenKind::OpenParenthesis {
            call(tokens, next, callee)
        } else {
            Ok((callee, next))
        },
        Err(message) => Err(message),
    }
}

/// One argument list applied to `caller`, and every argument list that
/// follows, each applied to the call before it.
pub open spec fn call(tokens: Seq<TokenView>, pos: int, caller: ExprView) -> Parsed<ExprView>
    decreases tokens.len() - pos, 9int,
{
    match checked(tokens, pos, arguments(tokens, pos)) {
        Ok((args, next)) => {
            let applied = ExprView::CallExpr { caller: Box::new(caller), args };
            if kind_at(tokens, next) == TokenKind::OpenParenthesis {
                call(tokens, next, applied)
            } else {
                Ok((applied, next))
            }
        },
        Err(message) => Err(message),
    }
}

/// `(`, expressions with commas between them, `)`.
pub open spec fn arguments(tokens: Seq<TokenView>, pos: int) -> Parsed<Seq<ExprView>>
    decreases tokens.len() - pos, 8int,
{
    match expect_at(tokens, pos, TokenKind::OpenParenthesis) {
        Ok(inside) => if kind_at(tokens, inside) == TokenKind::CloseParenthesis {
            Ok((Seq::empty(), inside + 1))
        } else {
            match argument_list(tokens, inside) {
                Ok((args, next)) => match expect_at(tokens, next, TokenKind::CloseParenthesis) {
                    Ok(end) => Ok((args, end)),
                    Err(message) => Err(message),
                },
                Err(message) => Err(message),
            }
        },
        Err(message) => Err(message),
    }
}

/// One expression or more, with commas between them.
pub open spec fn argument_list(tokens: Seq<TokenView>, pos: int) -> Parsed<Seq<ExprView>>
    decreases tokens.len() - pos, 16int,
{
    match checked(tokens, pos, expr(tokens, pos)) {
        Ok((first, next)) => argument_list_from(tokens, next, seq![first]),
        Err(message) => Err(message),
    }
}

pub open spec fn argument_list_from(tokens: Seq<TokenView>, pos: int, args: Seq<ExprView>)
    -> Parsed<Seq<ExprView>>
    decreases tokens.len() - pos, 16int,
{
    if kind_at(tokens, pos) == TokenKind::Comma {
        match checked(tokens, pos, expr(tokens, pos + 1)) {
            Ok((arg, next)) => argument_list_from(tokens, next, args.push(arg)),
            Err(message) => Err(message),
        }
    } else {
        Ok((args, pos))
    }
}

/// A primary expression and its member accesses, `.name` or `[expression]`,
/// grouped from the left.
pub open spec fn member(tokens: Seq<TokenView>, pos: int) -> Parsed<ExprView>
    decreases tokens.len() - pos, 8int,
{
    match checked(tokens, pos, primary(tokens, pos)) {
        Ok((object, next)) => member_from(tokens, next, object),
        Err(message) => Err(message),
    }
}

pub open spec fn member_from(tokens: Seq<TokenView>, pos: int, object: ExprView) -> Parsed<
    ExprView,
>
    decreases tokens.len() - pos, 8int,
{
    if kind_at(tokens, pos) == TokenKind::Dot {
        match checked(tokens, pos, primary(tokens, pos + 1)) {
            Ok((property, next)) => member_from(
                tokens,
                next,
                ExprView::MemberExpr {
                    object: Box::new(object),
                    property: Box::new(property),
                    computed: false,
                },
            ),
            Err(message) => Err(message),
        }
    } else if kind_at(tokens, pos) == TokenKind::OpenBracket {
        match checked(tokens, pos, expr(tokens, pos + 1)) {
            Ok((property, next)) => match expect_at(tokens, next, TokenKind::CloseBracket) {
                Ok(end) => member_from(
                    tokens,
                    end,
                    ExprView::MemberExpr {
                        object: Box::new(object),
                        property: Box::new(property),
                        computed: true,
                    },
                ),
                Err(message) => Err(message),
            },
            Err(message) => Err(message),
        }
    } else {
        Ok((object, pos))
    }
}

/// A number, a string, a name, or an expression in parentheses.
pub open spec fn primary(tokens: Seq<TokenView>, pos: int) -> Parsed<ExprView>
    decreases tokens.len() - pos, 7int,
{
    let token = token_at(tokens, pos);
    match token.kind {
        TokenKind::Number => Ok((ExprView::Number(token.value), pos + 1)),
        TokenKind::String => Ok((ExprView::String(token.value), pos + 1)),
        TokenKind::Identifier => Ok((ExprView::Identifier(token.value), pos + 1)),
        TokenKind::OpenParenthesis => match expr(tokens, pos + 1) {
            Ok((inner, next)) => match expect_at(tokens, next, TokenKind::CloseParenthesis) {
                Ok(end) => Ok((inner, end)),
                Err(message) => Err(message),
            },
            Err(message) => Err(message),
        },
        _ => Err(unknown_message(token)),
    }
}

/// Every successful reading takes at least one token and ends inside the
/// sequence, so that [`checked`] lets every result through: no reading is ever
/// stuck.
pub proof fn law_readings_move_forward(tokens: Seq<TokenView>, pos: int)
    ensures
        checked(tokens, pos, statement(tokens, pos)) == statement(tokens, pos),
        checked(tokens, pos, statement_body(tokens, pos)) == statement_body(tokens, pos),
        checked(tokens, pos, expr(tokens, pos)) == expr(tokens, pos),
        checked(tokens, pos, object(tokens, pos)) == object(tokens, pos),
        checked(tokens, pos, additive(tokens, pos)) == additive(tokens, pos),
        checked(tokens, pos, multiplicative(tokens, pos)) == multiplicative(tokens, pos),
        checked(tokens, pos, call_member(tokens, pos)) == call_member(tokens, pos),
        checked(tokens, pos, member(tokens, pos)) == member(tokens, pos),
        checked(tokens, pos, primary(tokens, pos)) == primary(tokens, pos),
        checked(tokens, pos, arguments(tokens, pos)) == arguments(tokens, pos),
{
    lemma_statement_moves(tokens, pos);
    lemma_statement_body_moves(tokens, pos);
    lemma_expr_moves(tokens, pos);
    lemma_object_moves(tokens, pos);
    lemma_additive_moves(tokens, pos);
    lemma_multiplicative_moves(tokens, pos);
    lemma_call_member_moves(tokens, pos);
    lemma_member_moves(tokens, pos);
    lemma_primary_moves(tokens, pos);
    lemma_arguments_moves(tokens, pos);
}

pub proof fn lemma_statement_moves(tokens: Seq<TokenView>, pos: int)
    ensures
        statement(tokens, pos) matches Ok((_, next)) ==> reaches(tokens, pos, next),
    decreases tokens.len() - pos, 25int,
{
    match kind_at(tokens, pos) {
        TokenKind::Let => lemma_var_declaration_moves(tokens, pos),
        TokenKind::Const => lemma_var_declaration_moves(tokens, pos),
        TokenKind::Fn => lemma_fn_declaration_moves(tokens, pos),
        TokenKind::If => lemma_if_statement_moves(tokens, pos),
        TokenKind::Loop => lemma_statement_body_moves(tokens, pos + 1),
        TokenKind::OpenBrace => lemma_statement_body_moves(tokens, pos),
        TokenKind::Break => {},
        TokenKind::Return => lemma_expr_moves(tokens, pos + 1),
        _ => lemma_expr_moves(tokens, pos),
    }
}

pub proof fn lemma_var_declaration_moves(tokens: Seq<TokenView>, pos: int)
    ensures
        var_declaration(tokens, pos) matches Ok((_, next)) ==> reaches(tokens, pos, next),
    decreases tokens.len() - pos, 24int,
{
    if kind_at(tokens, pos + 1) == TokenKind::Identifier && kind_at(tokens, pos + 2)
        == TokenKind::Equals {
        lemma_expr_moves(tokens, pos + 3);
    }
}

pub proof fn lemma_fn_declaration_moves(tokens: Seq<TokenView>, pos: int)
    ensures
        fn_declaration(tokens, pos) matches Ok((_, next)) ==> reaches(tokens, pos, next),
    decreases tokens.len() - pos, 24int,
{
    if kind_at(tokens, pos + 1) == TokenKind::Identifier {
        lemma_arguments_moves(tokens, pos + 2);
        match checked(tokens, pos, arguments(tokens, pos + 2)) {
            Ok((args, opened)) => lemma_statement_body_moves(tokens, opened),
            Err(_) => {},
        }
    }
}

pub proof fn lemma_if_statement_moves(tokens: Seq<TokenView>, pos: int)
    ensures
        if_statement(tokens, pos) matches Ok((_, next)) ==> reaches(tokens, pos, next),
    decreases tokens.len() - pos, 24int,
{
    lemma_expr_moves(tokens, pos + 1);
    match checked(tokens, pos, expr(tokens, pos + 1)) {
        Ok((condition, opened)) => {
            lemma_statement_body_moves(tokens, opened);
            match checked(tokens, pos, statement_body(tokens, opened)) {
                Ok((body, next)) => {
                    if kind_at(tokens, next) == TokenKind::Else {
                        lemma_alternative_moves(tokens, next + 1);
                    }
                },
                Err(_) => {},
            }
        },
        Err(_) => {},
    }
}

pub proof fn lemma_alternative_moves(tokens: Seq<TokenView>, pos: int)
    ensures
        alternative(tokens, pos) matches Ok((_, next)) ==> reaches(tokens, pos, next),
    decreases tokens.len() - pos, 26int,
{
    match kind_at(tokens, pos) {
        TokenKind::If => lemma_if_statement_moves(tokens, pos),
        TokenKind::OpenBrace => lemma_statement_body_moves(tokens, pos),
        _ => lemma_statement_moves(tokens, pos),
    }
}

pub proof fn lemma_statement_body_moves(tokens: Seq<TokenView>, pos: int)
    ensures
        statement_body(tokens, pos) matches Ok((_, next)) ==> reaches(tokens, pos, next),
    decreases tokens.len() - pos, 24int,
{
    if kind_at(tokens, pos) == TokenKind::OpenBrace {
        lemma_body_from_moves(tokens, pos + 1, Seq::empty());
    }
}

pub proof fn lemma_body_from_moves(tokens: Seq<TokenView>, pos: int, body: Seq<ExprView>)
    ensures
        body_from(tokens, pos, body) matches Ok((_, next)) ==> reaches(tokens, pos, next),
    decreases tokens.len() - pos, 26int,
{
    if !(kind_at(tokens, pos) == TokenKind::EOF || kind_at(tokens, pos) == TokenKind::CloseBrace) {
        lemma_statement_moves(tokens, pos);
        match checked(tokens, pos, statement(tokens, pos)) {
            Ok((line, next)) => {
                if kind_at(tokens, next) == TokenKind::Semicolon {
                    lemma_body_from_moves(tokens, next + 1, body.push(line));
                } else {
                    lemma_body_from_moves(tokens, next, body.push(line));
                }
            },
            Err(_) => {},
        }
    }
}

pub proof fn lemma_expr_moves(tokens: Seq<TokenView>, pos: int)
    ensures
        expr(tokens, pos) matches Ok((_, next)) ==> reaches(tokens, pos, next),
    decreases tokens.len() - pos, 15int,
{
    lemma_assignment_moves(tokens, pos);
}

pub proof fn lemma_assignment_moves(tokens: Seq<TokenView>, pos: int)
    ensures
        assignment(tokens, pos) matches Ok((_, next)) ==> reaches(tokens, pos, next),
    decreases tokens.len() - pos, 14int,
{
    lemma_object_moves(tokens, pos);
    match checked(tokens, pos, object(tokens, pos)) {
        Ok((target, next)) => {
            if kind_at(tokens, next) == TokenKind::Equals {
                lemma_assignment_moves(tokens, next + 1);
            }
        },
        Err(_) => {},
    }
}

pub proof fn lemma_object_moves(tokens: Seq<TokenView>, pos: int)
    ensures
        object(tokens, pos) matches Ok((_, next)) ==> reaches(tokens, pos, next),
    decreases tokens.len() - pos, 13int,
{
    if kind_at(tokens, pos) == TokenKind::OpenBrace {
        lemma_properties_from_moves(tokens, pos + 1, Seq::empty());
    } else {
        lemma_comparison_moves(tokens, pos);
    }
}

pub proof fn lemma_properties_from_moves(tokens: Seq<TokenView>, pos: int, props: Seq<PropertyView>)
    ensures
        properties_from(tokens, pos, props) matches Ok((_, next)) ==> reaches(tokens, pos, next),
    decreases tokens.len() - pos, 13int,
{
    if kind_at(tokens, pos) != TokenKind::CloseBrace && kind_at(tokens, pos)
        == TokenKind::Identifier {
        let identifier = token_at(tokens, pos).value;
        let named = pos + 1;
        let bare = PropertyView { identifier, value: None };
        if kind_at(tokens, named) == TokenKind::Comma {
            lemma_properties_from_moves(tokens, named + 1, props.push(bare));
        } else if kind_at(tokens, named) == TokenKind::CloseBrace {
            lemma_properties_from_moves(tokens, named, props.push(bare));
        } else if kind_at(tokens, named) == TokenKind::Colon {
            lemma_expr_moves(tokens, named + 1);
            match checked(tokens, pos, expr(tokens, named + 1)) {
                Ok((value, next)) => {
                    let property = PropertyView { identifier, value: Some(value) };
                    if kind_at(tokens, next) == TokenKind::Comma {
                        lemma_properties_from_moves(tokens, next + 1, props.push(property));
                    } else {
                        lemma_properties_from_moves(tokens, next, props.push(property));
                    }
                },
                Err(_) => {},
            }
        }
    }
}

pub proof fn lemma_comparison_moves(tokens: Seq<TokenView>, pos: int)
    ensures
        comparison(tokens, pos) matches Ok((_, next)) ==> reaches(tokens, pos, next),
    decreases tokens.len() - pos, 12int,
{
    lemma_additive_moves(tokens, pos);
    match checked(tokens, pos, additive(tokens, pos)) {
        Ok((left, next)) => lemma_comparison_from_moves(tokens, next, left),
        Err(_) => {},
    }
}

pub proof fn lemma_comparison_from_moves(tokens: Seq<TokenView>, pos: int, left: ExprView)
    requires
        pos <= tokens.len(),
    ensures
        comparison_from(tokens, pos, left) matches Ok((_, next)) ==> pos <= next <= tokens.len(),
    decreases tokens.len() - pos, 12int,
{
    let kind = kind_at(tokens, pos);
    if kind == TokenKind::Eq || kind == TokenKind::NotEq {
        lemma_additive_moves(tokens, pos + 1);
        match checked(tokens, pos, additive(tokens, pos + 1)) {
            Ok((right, next)) => lemma_comparison_from_moves(
                tokens,
                next,
                compared(kind, left, right),
            ),
            Err(_) => {},
        }
    }
}

pub proof fn lemma_additive_moves(tokens: Seq<TokenView>, pos: int)
    ensures
        additive(tokens, pos) matches Ok((_, next)) ==> reaches(tokens, pos, next),
    decreases tokens.len() - pos, 11int,
{
    lemma_multiplicative_moves(tokens, pos);
    match checked(tokens, pos, multiplicative(tokens, pos)) {
        Ok((left, next)) => lemma_additive_from_moves(tokens, next, left),
        Err(_) => {},
    }
}

pub proof fn lemma_additive_from_moves(tokens: Seq<TokenView>, pos: int, left: ExprView)
    requires
        pos <= tokens.len(),
    ensures
        additive_from(tokens, pos, left) matches Ok((_, next)) ==> pos <= next <= tokens.len(),
    decreases tokens.len() - pos, 11int,
{
    let op = token_at(tokens, pos).value;
    if 0 <= pos < tokens.len() && is_additive(op) {
        lemma_multiplicative_moves(tokens, pos + 1);
        match checked(tokens, pos, multiplicative(tokens, pos + 1)) {
            Ok((right, next)) => lemma_additive_from_moves(
                tokens,
                next,
                ExprView::BinaryExpr { left: Box::new(left), right: Box::new(right), op },
            ),
            Err(_) => {},
        }
    }
}

pub proof fn lemma_multiplicative_moves(tokens: Seq<TokenView>, pos: int)
    ensures
        multiplicative(tokens, pos) matches Ok((_, next)) ==> reaches(tokens, pos, next),
    decreases tokens.len() - pos, 10int,
{
    lemma_call_member_moves(tokens, pos);
    match checked(tokens, pos, call_member(tokens, pos)) {
        Ok((left, next)) => lemma_multiplicative_from_moves(tokens, next, left),
        Err(_) => {},
    }
}

pub proof fn lemma_multiplicative_from_moves(tokens: Seq<TokenView>, pos: int, left: ExprView)
    requires
        pos <= tokens.len(),
    ensures
        multiplicative_from(tokens, pos, left) matches Ok((_, next)) ==> pos <= next <= tokens.len(),
    decreases tokens.len() - pos, 10int,
{
    let op = token_at(tokens, pos).value;
    if 0 <= pos < tokens.len() && is_multiplicative(op) {
        lemma_call_member_moves(tokens, pos + 1);
        match checked(tokens, pos, call_member(tokens, pos + 1)) {
            Ok((right, next)) => lemma_multiplicative_from_moves(
                tokens,
                next,
                ExprView::BinaryExpr { left: Box::new(left), right: Box::new(right), op },
            ),
            Err(_) => {},
        }
    }
}

pub proof fn lemma_call_member_moves(tokens: Seq<TokenView>, pos: int)
    ensures
        call_member(tokens, pos) matches Ok((_, next)) ==> reaches(tokens, pos, next),
    decreases tokens.len() - pos, 9int,
{
    lemma_member_moves(tokens, pos);
    match checked(tokens, pos, member(tokens, pos)) {
        Ok((callee, next)) => {
            if kind_at(tokens, next) == TokenKind::OpenParenthesis {
                lemma_call_moves(tokens, next, callee);
            }
        },
        Err(_) => {},
    }
}

pub proof fn lemma_call_moves(tokens: Seq<TokenView>, pos: int, caller: ExprView)
    ensures
        call(tokens, pos, caller) matches Ok((_, next)) ==> reaches(tokens, pos, next),
    decreases tokens.len() - pos, 9int,
{
    lemma_arguments_moves(tokens, pos);
    match checked(tokens, pos, arguments(tokens, pos)) {
        Ok((args, next)) => {
            if kind_at(tokens, next) == TokenKind::OpenParenthesis {
                lemma_call_moves(
                    tokens,
                    next,
                    ExprView::CallExpr { caller: Box::new(caller), args },
                );
            }
        },
        Err(_) => {},
    }
}

pub proof fn lemma_arguments_moves(tokens: Seq<TokenView>, pos: int)
    ensures
        arguments(tokens, pos) matches Ok((_, next)) ==> reaches(tokens, pos, next),
    decreases tokens.len() - pos, 8int,
{
    if kind_at(tokens, pos) == TokenKind::OpenParenthesis && kind_at(tokens, pos + 1)
        != TokenKind::CloseParenthesis {
        lemma_argument_list_moves(tokens, pos + 1);
    }
}

pub proof fn lemma_argument_list_moves(tokens: Seq<TokenView>, pos: int)
    ensures
        argument_list(tokens, pos) matches Ok((_, next)) ==> reaches(tokens, pos, next),
    decreases tokens.len() - pos, 16int,
{
    lemma_expr_moves(tokens, pos);
    match checked(tokens, pos, expr(tokens, pos)) {
        Ok((first, next)) => lemma_argument_list_from_moves(tokens, next, seq![first]),
        Err(_) => {},
    }
}

pub proof fn lemma_argument_list_from_moves(tokens: Seq<TokenView>, pos: int, args: Seq<ExprView>)
    requires
        pos <= tokens.len(),
    ensures
        argument_list_from(tokens, pos, args) matches Ok((_, next)) ==> pos <= next <= tokens.len(),
    decreases tokens.len() - pos, 16int,
{
    if kind_at(tokens, pos) == TokenKind::Comma {
        lemma_expr_moves(tokens, pos + 1);
        match checked(tokens, pos, expr(tokens, pos + 1)) {
            Ok((arg, next)) => lemma_argument_list_from_moves(tokens, next, args.push(arg)),
            Err(_) => {},
        }
    }
}

pub proof fn lemma_member_moves(tokens: Seq<TokenView>, pos: int)
    ensures
        member(tokens, pos) matches Ok((_, next)) ==> reaches(tokens, pos, next),
    decreases tokens.len() - pos, 8int,
{
    lemma_primary_moves(tokens, pos);
    match checked(tokens, pos, primary(tokens, pos)) {
        Ok((object, next)) => lemma_member_from_moves(tokens, next, object),
        Err(_) => {},
    }
}

pub proof fn lemma_member_from_moves(tokens: Seq<TokenView>, pos: int, object: ExprView)
    requires
        pos <= tokens.len(),
    ensures
        member_from(tokens, pos, object) matches Ok((_, next)) ==> pos <= next <= tokens.len(),
    decreases tokens.len() - pos, 8int,
{
    if kind_at(tokens, pos) == TokenKind::Dot {
        lemma_primary_moves(tokens, pos + 1);
        match checked(tokens, pos, primary(tokens, pos + 1)) {
            Ok((property, next)) => lemma_member_from_moves(
                tokens,
                next,
                ExprView::MemberExpr {
                    object: Box::new(object),
                    property: Box::new(property),
                    computed: false,
                },
            ),
            Err(_) => {},
        }
    } else if kind_at(tokens, pos) == TokenKind::OpenBracket {
        lemma_expr_moves(tokens, pos + 1);
        match checked(tokens, pos, expr(tokens, pos + 1)) {
            Ok((property, next)) => {
                if kind_at(tokens, next) == TokenKind::CloseBracket {
                    lemma_member_from_moves(
                        tokens,
                        next + 1,
                        ExprView::MemberExpr {
                            object: Box::new(object),
                            property: Box::new(property),
                            computed: true,
                        },
                    );
                }
            },
            Err(_) => {},
        }
    }
}

pub proof fn lemma_primary_moves(tokens: Seq<TokenView>, pos: int)
    ensures
        primary(tokens, pos) matches Ok((_, next)) ==> reaches(tokens, pos, next),
    decreases tokens.len() - pos, 7int,
{
    if kind_at(tokens, pos) == TokenKind::OpenParenthesis {
        lemma_expr_moves(tokens, pos + 1);
    }
}

/// Whether a tree is a node that the grammar builds: neither of the two
/// markers `Error` and `Never`, which stand for no source text.
pub open spec fn is_node(tree: ExprView) -> bool {
    !(tree is Error) && !(tree is Never)
}

/// The parser builds no markers: no statement of a parsed program is an
/// `Error` or a `Never` node.
pub proof fn law_programs_hold_no_markers(tokens: Seq<TokenView>)
    ensures
        program(tokens) matches Ok(ExprView::Program(body)) ==> forall|i: int|
            0 <= i < body.len() ==> is_node(#[trigger] body[i]),
{
    lemma_program_from_nodes(tokens, 0, Seq::empty());
}

pub proof fn lemma_program_from_nodes(tokens: Seq<TokenView>, pos: int, body: Seq<ExprView>)
    requires
        forall|i: int| 0 <= i < body.len() ==> is_node(#[trigger] body[i]),
    ensures
        program_from(tokens, pos, body) matches Ok(ExprView::Program(all)) ==> forall|i: int|
            0 <= i < all.len() ==> is_node(#[trigger] all[i]),
    decreases tokens.len() - pos, 30int,
{
    if kind_at(tokens, pos) == TokenKind::EOF {
    } else if kind_at(tokens, pos) == TokenKind::Semicolon {
        lemma_program_from_nodes(tokens, pos + 1, body);
    } else {
        lemma_statement_node(tokens, pos);
        match checked(tokens, pos, statement(tokens, pos)) {
            Ok((line, next)) => lemma_program_from_nodes(tokens, next, body.push(line)),
            Err(_) => {},
        }
    }
}

pub proof fn lemma_statement_node(tokens: Seq<TokenView>, pos: int)
    ensures
        statement(tokens, pos) matches Ok((tree, _)) ==> is_node(tree),
    decreases tokens.len() - pos, 25int,
{
    match kind_at(tokens, pos) {
        TokenKind::Let => {},
        TokenKind::Const => {},
        TokenKind::Fn => {},
        TokenKind::If => {},
        TokenKind::Loop => {},
        TokenKind::OpenBrace => {},
        TokenKind::Break => {},
        TokenKind::Return => {},
        _ => lemma_expr_node(tokens, pos),
    }
}

pub proof fn lemma_expr_node(tokens: Seq<TokenView>, pos: int)
    ensures
        expr(tokens, pos) matches Ok((tree, _)) ==> is_node(tree),
    decreases tokens.len() - pos, 15int,
{
    lemma_assignment_node(tokens, pos);
}

pub proof fn lemma_assignment_node(tokens: Seq<TokenView>, pos: int)
    ensures
        assignment(tokens, pos) matches Ok((tree, _)) ==> is_node(tree),
    decreases tokens.len() - pos, 14int,
{
    lemma_object_node(tokens, pos);
}

pub proof fn lemma_object_node(tokens: Seq<TokenView>, pos: int)
    ensures
        object(tokens, pos) matches Ok((tree, _)) ==> is_node(tree),
    decreases tokens.len() - pos, 13int,
{
    if kind_at(tokens, pos) != TokenKind::OpenBrace {
        lemma_comparison_node(tokens, pos);
    }
}

pub proof fn lemma_comparison_node(tokens: Seq<TokenView>, pos: int)
    ensures
        comparison(tokens, pos) matches Ok((tree, _)) ==> is_node(tree),
    decreases tokens.len() - pos, 12int,
{
    lemma_additive_node(tokens, pos);
    match checked(tokens, pos, additive(tokens, pos)) {
        Ok((left, next)) => lemma_comparison_from_node(tokens, next, left),
        Err(_) => {},
    }
}

pub proof fn lemma_comparison_from_node(tokens: Seq<TokenView>, pos: int, left: ExprView)
    requires
        is_node(left),
    ensures
        comparison_from(tokens, pos, left) matches Ok((tree, _)) ==> is_node(tree),
    decreases tokens.len() - pos, 12int,
{
    let kind = kind_at(tokens, pos);
    if kind == TokenKind::Eq || kind == TokenKind::NotEq {
        match checked(tokens, pos, additive(tokens, pos + 1)) {
            Ok((right, next)) => lemma_comparison_from_node(
                tokens,
                next,
                compared(kind, left, right),
            ),
            Err(_) => {},
        }
    }
}

pub proof fn lemma_additive_node(tokens: Seq<TokenView>, pos: int)
    ensures
        additive(tokens, pos) matches Ok((tree, _)) ==> is_node(tree),
    decreases tokens.len() - pos, 11int,
{
    lemma_multiplicative_node(tokens, pos);
    match checked(tokens, pos, multiplicative(tokens, pos)) {
        Ok((left, next)) => lemma_additive_from_node(tokens, next, left),
        Err(_) => {},
    }
}

pub proof fn lemma_additive_from_node(tokens: Seq<TokenView>, pos: int, left: ExprView)
    requires
        is_node(left),
    ensures
        additive_from(tokens, pos, left) matches Ok((tree, _)) ==> is_node(tree),
    decreases tokens.len() - pos, 11int,
{
    let op = token_at(tokens, pos).value;
    if 0 <= pos < tokens.len() && is_additive(op) {
        match checked(tokens, pos, multiplicative(tokens, pos + 1)) {
            Ok((right, next)) => lemma_additive_from_node(
                tokens,
                next,
                ExprView::BinaryExpr { left: Box::new(left), right: Box::new(right), op },
            ),
            Err(_) => {},
        }
    }
}

pub proof fn lemma_multiplicative_node(tokens: Seq<TokenView>, pos: int)
    ensures
        multiplicative(tokens, pos) matches Ok((tree, _)) ==> is_node(tree),
    decreases tokens.len() - pos, 10int,
{
    lemma_call_member_node(tokens, pos);
    match checked(tokens, pos, call_member(tokens, pos)) {
        Ok((left, next)) => lemma_multiplicative_from_node(tokens, next, left),
        Err(_) => {},
    }
}

pub proof fn lemma_multiplicative_from_node(tokens: Seq<TokenView>, pos: int, left: ExprView)
    requires
        is_node(left),
    ensures
        multiplicative_from(tokens, pos, left) matches Ok((tree, _)) ==> is_node(tree),
    decreases tokens.len() - pos, 10int,
{
    let op = token_at(tokens, pos).value;
    if 0 <= pos < tokens.len() && is_multiplicative(op) {
        match checked(tokens, pos, call_member(tokens, pos + 1)) {
            Ok((right, next)) => lemma_multiplicative_from_node(
                tokens,
                next,
                ExprView::BinaryExpr { left: Box::new(left), right: Box::new(right), op },
            ),
            Err(_) => {},
        }
    }
}

pub proof fn lemma_call_member_node(tokens: Seq<TokenView>, pos: int)
    ensures
        call_member(tokens, pos) matches Ok((tree, _)) ==> is_node(tree),
    decreases tokens.len() - pos, 9int,
{
    lemma_member_node(tokens, pos);
    match checked(tokens, pos, member(tokens, pos)) {
        Ok((callee, next)) => {
            if kind_at(tokens, next) == TokenKind::OpenParenthesis {
                lemma_call_node(tokens, next, callee);
            }
        },
        Err(_) => {},
    }
}

pub proof fn lemma_call_node(tokens: Seq<TokenView>, pos: int, caller: ExprView)
    ensures
        call(tokens, pos, caller) matches Ok((tree, _)) ==> is_node(tree),
    decreases tokens.len() - pos, 9int,
{
    match checked(tokens, pos, arguments(tokens, pos)) {
        Ok((args, next)) => {
            if kind_at(tokens, next) == TokenKind::OpenParenthesis {
                lemma_call_node(
                    tokens,
                    next,
                    ExprView::CallExpr { caller: Box::new(caller), args },
                );
            }
        },
        Err(_) => {},
    }
}

pub proof fn lemma_member_node(tokens: Seq<TokenView>, pos: int)
    ensures
        member(tokens, pos) matches Ok((tree, _)) ==> is_node(tree),
    decreases tokens.len() - pos, 8int,
{
    lemma_primary_node(tokens, pos);
    match checked(tokens, pos, primary(tokens, pos)) {
        Ok((object, next)) => lemma_member_from_node(tokens, next, object),
        Err(_) => {},
    }
}

pub proof fn lemma_member_from_node(tokens: Seq<TokenView>, pos: int, object: ExprView)
    requires
        is_node(object),
    ensures
        member_from(tokens, pos, object) matches Ok((tree, _)) ==> is_node(tree),
    decreases tokens.len() - pos, 8int,
{
    if kind_at(tokens, pos) == TokenKind::Dot {
        match checked(tokens, pos, primary(tokens, pos + 1)) {
            Ok((property, next)) => lemma_member_from_node(
                tokens,
                next,
                ExprView::MemberExpr {
                    object: Box::new(object),
                    property: Box::new(property),
                    computed: false,
                },
            ),
            Err(_) => {},
        }
    } else if kind_at(tokens, pos) == TokenKind::OpenBracket {
        match checked(tokens, pos, expr(tokens, pos + 1)) {
            Ok((property, next)) => {
                if kind_at(tokens, next) == TokenKind::CloseBracket {
                    lemma_member_from_node(
                        tokens,
                        next + 1,
                        ExprView::MemberExpr {
                            object: Box::new(object),
                            property: Box::new(property),
                            computed: true,
                        },
                    );
                }
            },
            Err(_) => {},
        }
    }
}

pub proof fn lemma_primary_node(tokens: Seq<TokenView>, pos: int)
    ensures
        primary(tokens, pos) matches Ok((tree, _)) ==> is_node(tree),
    decreases tokens.len() - pos, 7int,
{
    if kind_at(tokens, pos) == TokenKind::OpenParenthesis {
        lemma_expr_node(tokens, pos + 1);
    }
}

} // verus!
