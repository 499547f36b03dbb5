//! What evaluation means: the result of evaluating an expression tree as a
//! mathematical function of the tree, the scopes, a budget, and the answers
//! of the host.

use vstd::prelude::*;
use crate::io::ast::{expr_debug, BinaryOp, ExprView, PropertyView};
use crate::io::host::{Exchange, Reply, Request};
use crate::io::runtime::{
    declare, lookup, ContextView, ExternFn, Fault, RefContext, SignalView, ValueView,
};
use crate::io::text::str_debug;

verus! {

/// What changes while an expression is evaluated: the scopes, and how many
/// answers of the host have been used.
pub ghost struct World {
    pub arena: Seq<ContextView>,
    pub asked: nat,
}

/// Why an evaluation gives no value.
pub ghost enum Halt {
    /// The evaluator stopped with this fault.
    Fault(Fault),
    /// The log of exchanges does not belong to this evaluation: it is too
    /// short, or holds another question or another kind of answer than the
    /// evaluation has at this place.
    Stray,
}

/// The result of evaluating one expression, and the world after it.
pub ghost struct Outcome {
    pub result: Result<ValueView, Halt>,
    pub world: World,
}

/// The result of evaluating a list of expressions, and the world after it.
pub ghost struct ListOutcome {
    pub result: Result<Seq<ValueView>, Halt>,
    pub world: World,
}

/// The result of a computation on values, and how many answers of the host
/// have been used after it.
pub ghost struct Answer {
    pub result: Result<ValueView, Halt>,
    pub asked: nat,
}

/// The outcome that an answer is in a given arena.
pub open spec fn in_arena(answer: Answer, arena: Seq<ContextView>) -> Outcome {
    Outcome { result: answer.result, world: World { arena, asked: answer.asked } }
}

pub open spec fn done(value: ValueView, world: World) -> Outcome {
    Outcome { result: Ok(value), world }
}

pub open spec fn halted(fault: Fault, world: World) -> Outcome {
    Outcome { result: Err(Halt::Fault(fault)), world }
}

pub open spec fn stray(world: World) -> Outcome {
    Outcome { result: Err(Halt::Stray), world }
}

/// The host's answer to the next question, where the log holds that question
/// at that place.
pub open spec fn answer(asked: nat, log: Seq<Exchange>, request: Request) -> Option<Reply> {
    if asked < log.len() && log[asked as int].request == request {
        Some(log[asked as int].reply)
    } else {
        None
    }
}

/// A value that took no question to the host.
pub open spec fn plain(value: ValueView, asked: nat) -> Answer {
    Answer { result: Ok(value), asked }
}

/// A value that took one question to the host.
pub open spec fn replied(value: ValueView, asked: nat) -> Answer {
    Answer { result: Ok(value), asked: asked + 1 }
}

/// A fault.
pub open spec fn failed(fault: Fault, asked: nat) -> Answer {
    Answer { result: Err(Halt::Fault(fault)), asked }
}

/// A log that does not fit.
pub open spec fn astray(asked: nat) -> Answer {
    Answer { result: Err(Halt::Stray), asked }
}

/// The operator that a symbol stands for.
pub open spec fn operator_of(symbol: Seq<char>) -> Option<BinaryOp> {
    if symbol == "+"@ {
        Some(BinaryOp::Add)
    } else if symbol == "-"@ {
        Some(BinaryOp::Sub)
    } else if symbol == "*"@ {
        Some(BinaryOp::Mul)
    } else if symbol == "/"@ {
        Some(BinaryOp::Div)
    } else if symbol == "%"@ {
        Some(BinaryOp::Mod)
    } else {
        None
    }
}

/// The 64-bit signed integer that an integer stands for when only its lowest
/// 64 bits are kept.
pub open spec fn wrap(v: int) -> i64 {
    let low = v % 0x1_0000_0000_0000_0000;
    if low > i64::MAX {
        (low - 0x1_0000_0000_0000_0000) as i64
    } else {
        low as i64
    }
}

/// The distance of an integer from zero.
pub open spec fn magnitude(v: int) -> int {
    if v >= 0 {
        v
    } else {
        -v
    }
}

/// The quotient of a division that rounds toward zero: that of the
/// magnitudes, negative where the signs differ.
pub open spec fn quotient(a: int, b: int) -> int
    recommends
        b != 0,
{
    if (a < 0) == (b < 0) {
        magnitude(a) / magnitude(b)
    } else {
        -(magnitude(a) / magnitude(b))
    }
}

/// The remainder of a division that rounds toward zero: it has the sign of the
/// dividend.
pub open spec fn remainder(a: int, b: int) -> int
    recommends
        b != 0,
{
    a - b * quotient(a, b)
}

/// Integer arithmetic. Sums, differences and products wrap around; a division
/// or remainder has no result where the divisor is zero or the quotient does
/// not fit.
pub open spec fn int_binary(lhs: i64, rhs: i64, op: BinaryOp) -> Result<i64, Fault> {
    match op {
        BinaryOp::Add => Ok(wrap(lhs + rhs)),
        BinaryOp::Sub => Ok(wrap(lhs - rhs)),
        BinaryOp::Mul => Ok(wrap(lhs * rhs)),
        BinaryOp::Div => if rhs == 0 {
            Err(Fault::DivisionByZero)
        } else if lhs == i64::MIN && rhs == -1 {
            Err(Fault::Overflow)
        } else {
            Ok(quotient(lhs as int, rhs as int) as i64)
        },
        BinaryOp::Mod => if rhs == 0 {
            Err(Fault::DivisionByZero)
        } else if lhs == i64::MIN && rhs == -1 {
            Err(Fault::Overflow)
        } else {
            Ok(remainder(lhs as int, rhs as int) as i64)
        },
    }
}

pub open spec fn is_decimal_digit(c: char) -> bool {
    '0' <= c <= '9'
}

/// The number that a sequence of decimal digits denotes.
pub open spec fn digits_value(digits: Seq<char>) -> int
    decreases digits.len(),
{
    if digits.len() == 0 {
        0
    } else {
        digits_value(digits.drop_last()) * 10 + (digits.last() as int - '0' as int)
    }
}

/// Whether every character is a decimal digit.
pub open spec fn all_digits(digits: Seq<char>) -> bool {
    forall|i: int| 0 <= i < digits.len() ==> is_decimal_digit(#[trigger] digits[i])
}

/// Whether a literal starts with a sign.
pub open spec fn is_signed(text: Seq<char>) -> bool {
    text.len() > 0 && (text[0] == '-' || text[0] == '+')
}

/// A literal without its sign.
pub open spec fn unsigned_part(text: Seq<char>) -> Seq<char> {
    if is_signed(text) {
        text.skip(1)
    } else {
        text
    }
}

/// The integer that a literal denotes: an optional sign, then one or more
/// decimal digits, and the value fits in 64 bits.
pub open spec fn int_literal(text: Seq<char>) -> Option<i64> {
    let digits = unsigned_part(text);
    let value = if is_signed(text) && text[0] == '-' {
        -digits_value(digits)
    } else {
        digits_value(digits)
    };
    if digits.len() > 0 && all_digits(digits) && i64::MIN <= value <= i64::MAX {
        Some(value as i64)
    } else {
        None
    }
}

pub open spec fn undefined_message(name: Seq<char>) -> Seq<char> {
    "undefined Symbol { name: "@ + str_debug(name) + " }"@
}

pub open spec fn not_a_function_message(caller: ExprView) -> Seq<char> {
    expr_debug(caller) + " not a function "@
}

pub open spec fn bad_target_message(target: ExprView) -> Seq<char> {
    "only Expr::Identifier supported, found "@ + expr_debug(target)
}

pub open spec fn not_implemented_message(node: ExprView) -> Seq<char> {
    expr_debug(node) + " doesn't implement [eval]"@
}

/// A number literal: a float where its text holds a decimal point, else an
/// integer.
pub open spec fn number_answer(text: Seq<char>, asked: nat, log: Seq<Exchange>) -> Answer {
    if text.contains('.') {
        match answer(asked, log, Request::FloatParse { text }) {
            Some(Reply::Parsed(Some(bits))) => replied(ValueView::Float(bits), asked),
            Some(Reply::Parsed(None)) => failed(Fault::MalformedNumber, asked + 1),
            _ => astray(asked),
        }
    } else {
        match int_literal(text) {
            Some(value) => plain(ValueView::Int(value), asked),
            None => failed(Fault::MalformedNumber, asked),
        }
    }
}

/// An integer as a float.
pub open spec fn promote_answer(value: i64, asked: nat, log: Seq<Exchange>) -> Answer {
    match answer(asked, log, Request::FloatFromInt { value }) {
        Some(Reply::Float(bits)) => replied(ValueView::Float(bits), asked),
        _ => astray(asked),
    }
}

/// Arithmetic on two floats.
pub open spec fn float_answer(lhs: u64, rhs: u64, op: BinaryOp, asked: nat, log: Seq<Exchange>)
    -> Answer {
    match answer(asked, log, Request::FloatBinary { lhs, rhs, op }) {
        Some(Reply::Float(bits)) => replied(ValueView::Float(bits), asked),
        _ => astray(asked),
    }
}

/// Arithmetic on two numbers: integers stay integers, floats stay floats, and
/// of a mixed pair the integer becomes a float first.
pub open spec fn numeric_answer(
    lhs: ValueView,
    rhs: ValueView,
    op: BinaryOp,
    asked: nat,
    log: Seq<Exchange>,
) -> Answer {
    match (lhs, rhs) {
        (ValueView::Int(l), ValueView::Int(r)) => match int_binary(l, r, op) {
            Ok(value) => plain(ValueView::Int(value), asked),
            Err(fault) => failed(fault, asked),
        },
        (ValueView::Float(l), ValueView::Float(r)) => float_answer(l, r, op, asked, log),
        (ValueView::Float(l), ValueView::Int(r)) => {
            let promoted = promote_answer(r, asked, log);
            match promoted.result {
                Ok(ValueView::Float(bits)) => float_answer(l, bits, op, promoted.asked, log),
                _ => promoted,
            }
        },
        (ValueView::Int(l), ValueView::Float(r)) => {
            let promoted = promote_answer(l, asked, log);
            match promoted.result {
                Ok(ValueView::Float(bits)) => float_answer(bits, r, op, promoted.asked, log),
                _ => promoted,
            }
        },
        _ => plain(ValueView::Never, asked),
    }
}

pub open spec fn is_number(value: ValueView) -> bool {
    value is Int || value is Float
}

/// A binary expression on two evaluated operands. An error on either side is
/// the result, the left one first; two numbers are computed with; anything
/// else gives `Never`.
pub open spec fn binary_answer(
    lhs: ValueView,
    rhs: ValueView,
    op: Seq<char>,
    asked: nat,
    log: Seq<Exchange>,
) -> Answer {
    if lhs is Error {
        plain(lhs, asked)
    } else if rhs is Error {
        plain(rhs, asked)
    } else if is_number(lhs) && is_number(rhs) {
        match operator_of(op) {
            Some(operator) => numeric_answer(lhs, rhs, operator, asked, log),
            None => failed(Fault::UnknownOperator, asked),
        }
    } else {
        plain(ValueView::Never, asked)
    }
}

/// `==` (or, with `negated`, `!=`) on two evaluated operands: defined on two
/// booleans, two integers or two floats.
pub open spec fn equality_answer(
    lhs: ValueView,
    rhs: ValueView,
    negated: bool,
    asked: nat,
    log: Seq<Exchange>,
) -> Answer {
    match (lhs, rhs) {
        (ValueView::Bool(l), ValueView::Bool(r)) => plain(ValueView::Bool((l == r) != negated), asked),
        (ValueView::Int(l), ValueView::Int(r)) => plain(ValueView::Bool((l == r) != negated), asked),
        (ValueView::Float(l), ValueView::Float(r)) => match answer(
            asked,
            log,
            Request::FloatEqual { lhs: l, rhs: r },
        ) {
            Some(Reply::Flag(equal)) => replied(ValueView::Bool(equal != negated), asked),
            _ => astray(asked),
        },
        _ => plain(ValueView::Error("not the same types"@), asked),
    }
}

/// A name as seen from a scope: its value, or an error value.
pub open spec fn identifier_value(arena: Seq<ContextView>, ctx: RefContext, name: Seq<char>)
    -> ValueView {
    match lookup(arena, ctx, name) {
        Some(value) => value,
        None => ValueView::Error(undefined_message(name)),
    }
}

/// Binding a name in the current scope; the bound value is the result. A
/// signal is never bound: it is the result and the scope stays as it is.
pub open spec fn bind_outcome(name: Seq<char>, value: ValueView, ctx: RefContext, world: World)
    -> Outcome {
    if value is Signal {
        done(value, world)
    } else if ctx < world.arena.len() {
        done(value, World { arena: declare(world.arena, ctx, name, value), asked: world.asked })
    } else {
        halted(Fault::DanglingContext, world)
    }
}

/// The bindings of a call: the first `count` parameters, each bound to the
/// argument at its position.
pub open spec fn bound_parameters(params: Seq<Seq<char>>, args: Seq<ValueView>, count: nat) -> Map<
    Seq<char>,
    ValueView,
>
    decreases count,
{
    if count == 0 {
        Map::empty()
    } else {
        bound_parameters(params, args, (count - 1) as nat).insert(
            params[count - 1],
            args[count - 1],
        )
    }
}

/// The first signal among the first `count` arguments.
pub open spec fn first_signal(args: Seq<ValueView>, count: nat) -> Option<ValueView>
    decreases count,
{
    if count == 0 {
        None
    } else {
        match first_signal(args, (count - 1) as nat) {
            Some(signal) => Some(signal),
            None => if args[count - 1] is Signal {
                Some(args[count - 1])
            } else {
                None
            },
        }
    }
}

/// What a call hands to its caller: the returned value, `Never` for a stray
/// break, any other value as it is.
pub open spec fn returned(value: ValueView) -> ValueView {
    match value {
        ValueView::Signal(SignalView::Break) => ValueView::Never,
        ValueView::Signal(SignalView::Return(inner)) => *inner,
        _ => value,
    }
}

/// A call of a function of the host: its value is the value of the call, and
/// the scopes are as the function left them.
pub open spec fn extern_outcome(
    function: ExternFn,
    args: Seq<ValueView>,
    ctx: RefContext,
    world: World,
    log: Seq<Exchange>,
) -> Outcome {
    match answer(world.asked, log, Request::CallExtern { function, args, arena: world.arena, ctx }) {
        Some(Reply::Returned { value, arena }) => done(
            value,
            World { arena, asked: world.asked + 1 },
        ),
        _ => stray(world),
    }
}

/// The value of an expression in scope `ctx`, with the world after it.
/// `fuel` bounds how deep calls may nest and how many rounds a loop may take
/// beyond its first.
pub open spec fn eval_spec(
    node: ExprView,
    ctx: RefContext,
    world: World,
    fuel: u64,
    log: Seq<Exchange>,
) -> Outcome
    decreases fuel, node, 0int,
{
    match node {
        ExprView::Program(body) => eval_block(body, 0, ValueView::Never, ctx, world, fuel, log),
        ExprView::Body { body } => eval_block(body, 0, ValueView::Never, ctx, world, fuel, log),
        ExprView::Loop { body } => eval_rounds(body, 0, ValueView::Never, ctx, world, fuel, log),
        ExprView::Never => done(ValueView::Never, world),
        ExprView::Error(message) => done(ValueView::Error(message), world),
        ExprView::String(text) => done(ValueView::String(text), world),
        ExprView::Number(text) => in_arena(number_answer(text, world.asked, log), world.arena),
        ExprView::Identifier(name) => done(identifier_value(world.arena, ctx, name), world),
        ExprView::Break => done(ValueView::Signal(SignalView::Break), world),
        ExprView::Return { expr } => {
            let inner = eval_spec(*expr, ctx, world, fuel, log);
            match inner.result {
                Ok(value) => done(
                    ValueView::Signal(SignalView::Return(Box::new(value))),
                    inner.world,
                ),
                Err(_) => inner,
            }
        },
        ExprView::BinaryExpr { left, right, op } => {
            let lhs = eval_spec(*left, ctx, world, fuel, log);
            match lhs.result {
                Ok(l) => {
                    let rhs = eval_spec(*right, ctx, lhs.world, fuel, log);
                    match rhs.result {
                        Ok(r) => in_arena(
                            binary_answer(l, r, op, rhs.world.asked, log),
                            rhs.world.arena,
                        ),
                        Err(_) => rhs,
                    }
                },
                Err(_) => lhs,
            }
        },
        ExprView::Eq { left, right } => {
            let lhs = eval_spec(*left, ctx, world, fuel, log);
            match lhs.result {
                Ok(l) => {
                    let rhs = eval_spec(*right, ctx, lhs.world, fuel, log);
                    match rhs.result {
                        Ok(r) => in_arena(
                            equality_answer(l, r, false, rhs.world.asked, log),
                            rhs.world.arena,
                        ),
                        Err(_) => rhs,
                    }
                },
                Err(_) => lhs,
            }
        },
        ExprView::NotEq { left, right } => {
            let lhs = eval_spec(*left, ctx, world, fuel, log);
            match lhs.result {
                Ok(l) => {
                    let rhs = eval_spec(*right, ctx, lhs.world, fuel, log);
                    match rhs.result {
                        Ok(r) => in_arena(
                            equality_answer(l, r, true, rhs.world.asked, log),
                            rhs.world.arena,
                        ),
                        Err(_) => rhs,
                    }
                },
                Err(_) => lhs,
            }
        },
        ExprView::VarDecl { constant, identifier, value } => eval_declaration(
            identifier,
            *value,
            ctx,
            world,
            fuel,
            log,
        ),
        ExprView::AssignExpr { target, value } => match *target {
            ExprView::Identifier(name) => eval_declaration(name, *value, ctx, world, fuel, log),
            _ => done(ValueView::Error(bad_target_message(*target)), world),
        },
        ExprView::FnDecl { identifier, params, body } => bind_outcome(
            identifier,
            ValueView::Fn { identifier, params, body, decl_ctx: ctx },
            ctx,
            world,
        ),
        ExprView::IfExpr { when, then_branch, other } => {
            let condition = eval_spec(*when, ctx, world, fuel, log);
            match condition.result {
                Ok(ValueView::Bool(true)) => eval_spec(*then_branch, ctx, condition.world, fuel, log),
                Ok(ValueView::Bool(false)) => match other {
                    Some(e) => eval_spec(*e, ctx, condition.world, fuel, log),
                    None => done(ValueView::Never, condition.world),
                },
                Ok(_) => done(ValueView::Error("invalid condition"@), condition.world),
                Err(_) => condition,
            }
        },
        ExprView::Object { props } => eval_props(props, 0, Map::empty(), ctx, world, fuel, log),
        ExprView::CallExpr { caller, args } => {
            let evaluated = eval_list(args, 0, Seq::empty(), ctx, world, fuel, log);
            match evaluated.result {
                Ok(values) => {
                    let callee = eval_spec(*caller, ctx, evaluated.world, fuel, log);
                    match callee.result {
                        Ok(f) => apply_spec(f, values, *caller, ctx, callee.world, fuel, log),
                        Err(_) => callee,
                    }
                },
                Err(halt) => Outcome { result: Err(halt), world: evaluated.world },
            }
        },
        ExprView::MemberExpr { .. } => done(
            ValueView::Error(not_implemented_message(node)),
            world,
        ),
        ExprView::Property(_) => done(ValueView::Error(not_implemented_message(node)), world),
    }
}

/// A declaration: the value is evaluated and bound to the name in the current
/// scope, whether or not the name is bound there or further out, and whether
/// or not it was declared constant.
pub open spec fn eval_declaration(
    name: Seq<char>,
    value: ExprView,
    ctx: RefContext,
    world: World,
    fuel: u64,
    log: Seq<Exchange>,
) -> Outcome
    decreases fuel, value, 1int,
{
    let bound = eval_spec(value, ctx, world, fuel, log);
    match bound.result {
        Ok(v) => bind_outcome(name, v, ctx, bound.world),
        Err(_) => bound,
    }
}

/// The statements of a block from `index` on, in order. A signal ends the
/// block and is its value; else the value is that of the last statement, or
/// `last` where none is left.
pub open spec fn eval_block(
    body: Seq<ExprView>,
    index: int,
    last: ValueView,
    ctx: RefContext,
    world: World,
    fuel: u64,
    log: Seq<Exchange>,
) -> Outcome
    decreases fuel, body, body.len() - index,
{
    if 0 <= index < body.len() {
        let line = eval_spec(body[index], ctx, world, fuel, log);
        match line.result {
            Ok(ValueView::Signal(_)) => line,
            Ok(value) => eval_block(body, index + 1, value, ctx, line.world, fuel, log),
            Err(_) => line,
        }
    } else {
        done(last, world)
    }
}

/// The statements of a loop from `index` on, round after round. A break ends
/// the loop with the value of the statement before it; a return ends it and is
/// its value. Each round after the first takes one unit of fuel.
pub open spec fn eval_rounds(
    body: Seq<ExprView>,
    index: int,
    last: ValueView,
    ctx: RefContext,
    world: World,
    fuel: u64,
    log: Seq<Exchange>,
) -> Outcome
    decreases fuel, body, body.len() - index,
{
    if 0 <= index < body.len() {
        let line = eval_spec(body[index], ctx, world, fuel, log);
        match line.result {
            Ok(ValueView::Signal(SignalView::Break)) => done(last, line.world),
            Ok(ValueView::Signal(SignalView::Return(_))) => line,
            Ok(value) => eval_rounds(body, index + 1, value, ctx, line.world, fuel, log),
            Err(_) => line,
        }
    } else if fuel == 0 {
        halted(Fault::OutOfFuel, world)
    } else {
        eval_rounds(body, 0, last, ctx, world, (fuel - 1) as u64, log)
    }
}

/// The expressions of a list from `index` on, in order, after `values`.
pub open spec fn eval_list(
    list: Seq<ExprView>,
    index: int,
    values: Seq<ValueView>,
    ctx: RefContext,
    world: World,
    fuel: u64,
    log: Seq<Exchange>,
) -> ListOutcome
    decreases fuel, list, list.len() - index,
{
    if 0 <= index < list.len() {
        let item = eval_spec(list[index], ctx, world, fuel, log);
        match item.result {
            Ok(value) => eval_list(list, index + 1, values.push(value), ctx, item.world, fuel, log),
            Err(halt) => ListOutcome { result: Err(halt), world: item.world },
        }
    } else {
        ListOutcome { result: Ok(values), world }
    }
}

/// The properties of an object literal from `index` on, added to `fields`. A
/// property without a value takes that of the variable of its name.
pub open spec fn eval_props(
    props: Seq<PropertyView>,
    index: int,
    fields: Map<Seq<char>, ValueView>,
    ctx: RefContext,
    world: World,
    fuel: u64,
    log: Seq<Exchange>,
) -> Outcome
    decreases fuel, props, props.len() - index,
{
    if 0 <= index < props.len() {
        let name = props[index].identifier;
        match props[index].value {
            Some(e) => {
                let item = eval_spec(e, ctx, world, fuel, log);
                match item.result {
                    Ok(value) => eval_props(
                        props,
                        index + 1,
                        fields.insert(name, value),
                        ctx,
                        item.world,
                        fuel,
                        log,
                    ),
                    Err(_) => item,
                }
            },
            None => eval_props(
                props,
                index + 1,
                fields.insert(name, identifier_value(world.arena, ctx, name)),
                ctx,
                world,
                fuel,
                log,
            ),
        }
    } else {
        done(ValueView::Object(fields), world)
    }
}

/// A call of an evaluated callee on evaluated arguments. A function of the
/// language runs its body in a new scope inside the scope it was declared in,
/// with its parameters bound by position; arguments beyond the parameters are
/// dropped, and too few arguments are an error value. A signal is never bound
/// to a parameter: the first one among the arguments to bind is the result of
/// the call.
pub open spec fn apply_spec(
    callee: ValueView,
    args: Seq<ValueView>,
    caller: ExprView,
    ctx: RefContext,
    world: World,
    fuel: u64,
    log: Seq<Exchange>,
) -> Outcome
    decreases fuel, caller, 0int,
{
    match callee {
        ValueView::ExternFn(function) => extern_outcome(function, args, ctx, world, log),
        ValueView::Fn { identifier, params, body, decl_ctx } => {
            if args.len() < params.len() {
                done(ValueView::Error("invalid args"@), world)
            } else if first_signal(args, params.len()) is Some {
                done(first_signal(args, params.len())->0, world)
            } else if decl_ctx >= world.arena.len() {
                halted(Fault::DanglingContext, world)
            } else if fuel == 0 {
                halted(Fault::OutOfFuel, world)
            } else {
                let inner = world.arena.len() as usize;
                let entered = World {
                    arena: world.arena.push(
                        ContextView {
                            parent: Some(decl_ctx),
                            variables: bound_parameters(params, args, params.len()),
                        },
                    ),
                    asked: world.asked,
                };
                let ran = eval_spec(*body, inner, entered, (fuel - 1) as u64, log);
                match ran.result {
                    Ok(value) => done(returned(value), ran.world),
                    Err(_) => ran,
                }
            }
        },
        _ => done(ValueView::Error(not_a_function_message(caller)), world),
    }
}

} // verus!
