//! The evaluator: it walks an expression tree and computes its value in a
//! scope of the arena.

use vstd::prelude::*;
use crate::io::ast::{
    clone_expr, clone_parameters, debug_expr, expr_views, parameter_views, property_views,
    BinaryOp, Expr, ExprView, Parameter, Property, Symbol,
};
use crate::io::host::{follows, lemma_follows_transitive, Exchange, Host, Recorder};
use crate::io::runtime::{
    bind, bindings_view, clone_value, declare, value_views, Arena, Binding, Context,
    ContextView, Fault, RefContext, RuntimeValue, Signal, ValueView,
};
use crate::io::semantics::{
    all_digits, apply_spec, bad_target_message, binary_answer, bound_parameters, digits_value,
    equality_answer, eval_block, eval_declaration, eval_list, first_signal, eval_props, eval_rounds, eval_spec,
    identifier_value, int_binary, int_literal, is_decimal_digit, is_number, magnitude,
    not_a_function_message, not_implemented_message, number_answer, numeric_answer,
    operator_of, quotient, remainder, returned, undefined_message, unsigned_part, wrap, Answer,
    Halt, Outcome, World,
};
use crate::io::text::{characters, debug_text, text_eq};

verus! {

/// The operator that a symbol stands for.
pub fn parse_operator(symbol: &str) -> (out: Option<BinaryOp>)
    ensures
        out == operator_of(symbol@),
{
    if text_eq(symbol, "+") {
        Some(BinaryOp::Add)
    } else if text_eq(symbol, "-") {
        Some(BinaryOp::Sub)
    } else if text_eq(symbol, "*") {
        Some(BinaryOp::Mul)
    } else if text_eq(symbol, "/") {
        Some(BinaryOp::Div)
    } else if text_eq(symbol, "%") {
        Some(BinaryOp::Mod)
    } else {
        None
    }
}

/// What wrapping does to an integer that is less than 2^64 away from the
/// 64-bit range: one shift by 2^64 at most.
pub proof fn lemma_wrap_near(v: int)
    requires
        -0x1_0000_0000_0000_0000 <= v < 0x1_0000_0000_0000_0000,
    ensures
        wrap(v) == (if v > i64::MAX {
            v - 0x1_0000_0000_0000_0000
        } else if v < i64::MIN {
            v + 0x1_0000_0000_0000_0000
        } else {
            v
        }),
{
    if v >= 0 {
        assert(v % 0x1_0000_0000_0000_0000 == v);
    } else {
        assert(v % 0x1_0000_0000_0000_0000 == v + 0x1_0000_0000_0000_0000);
    }
}

/// A quotient of non-negative numbers lies between zero and the dividend, and
/// below the dividend where the divisor is more than one; the remainder lies
/// below the divisor.
pub proof fn lemma_division_bounds(x: int, d: int)
    requires
        x >= 0,
        d > 0,
    ensures
        0 <= x / d <= x,
        0 <= x % d < d,
        x == d * (x / d) + x % d,
        d > 1 && x > 0 ==> x / d < x,
{
    assert(0 <= x / d <= x && 0 <= x % d < d && x == d * (x / d) + x % d) by (nonlinear_arith)
        requires
            x >= 0,
            d > 0,
    ;
    if d > 1 && x > 0 {
        assert(x / d < x) by (nonlinear_arith)
            requires
                x > 0,
                d > 1,
                x == d * (x / d) + x % d,
                0 <= x % d,
                0 <= x / d,
        ;
    }
}

/// Where the divisor is not zero, the quotient fits in 64 bits unless the
/// least integer is divided by minus one. The remainder always fits: it is
/// that of the magnitudes, with the sign of the dividend.
pub proof fn lemma_quotient_fits(a: i64, b: i64)
    requires
        b != 0,
    ensures
        !(a == i64::MIN && b == -1) ==> i64::MIN <= quotient(a as int, b as int) <= i64::MAX,
        a == i64::MIN && b == -1 ==> quotient(a as int, b as int) > i64::MAX,
        i64::MIN <= remainder(a as int, b as int) <= i64::MAX,
        remainder(a as int, b as int) == (if a >= 0 {
            magnitude(a as int) % magnitude(b as int)
        } else {
            -(magnitude(a as int) % magnitude(b as int))
        }),
{
    let x = magnitude(a as int);
    let d = magnitude(b as int);
    lemma_division_bounds(x, d);
    if d == 1 {
        assert(x / d == x) by (nonlinear_arith)
            requires
                d == 1,
                x == d * (x / d) + x % d,
                0 <= x % d < d,
        ;
    }
    assert(remainder(a as int, b as int) == (if a >= 0 {
        x % d
    } else {
        -(x % d)
    })) by (nonlinear_arith)
        requires
            x == d * (x / d) + x % d,
            x == magnitude(a as int),
            d == magnitude(b as int),
            b != 0,
            quotient(a as int, b as int) == (if (a < 0) == (b < 0) {
                x / d
            } else {
                -(x / d)
            }),
            remainder(a as int, b as int) == a - b * quotient(a as int, b as int),
    ;
}

/// Integer arithmetic with every case decided: the result, or the fault.
pub fn int_arithmetic(lhs: i64, rhs: i64, op: BinaryOp) -> (out: Result<i64, Fault>)
    ensures
        out == int_binary(lhs, rhs, op),
{
    match op {
        BinaryOp::Add => {
            proof {
                lemma_wrap_near(lhs + rhs);
            }
            Ok(lhs.wrapping_add(rhs))
        },
        BinaryOp::Sub => {
            proof {
                lemma_wrap_near(lhs - rhs);
            }
            Ok(lhs.wrapping_sub(rhs))
        },
        BinaryOp::Mul => Ok(lhs.wrapping_mul(rhs)),
        BinaryOp::Div => {
            if rhs == 0 {
                Err(Fault::DivisionByZero)
            } else {
                proof {
                    lemma_quotient_fits(lhs, rhs);
                }
                match lhs.checked_div(rhs) {
                    Some(q) => Ok(q),
                    None => Err(Fault::Overflow),
                }
            }
        },
        BinaryOp::Mod => {
            if rhs == 0 {
                Err(Fault::DivisionByZero)
            } else {
                proof {
                    lemma_quotient_fits(lhs, rhs);
                    if lhs == 0 {
                        lemma_division_bounds(0, magnitude(rhs as int));
                    }
                }
                match lhs.checked_rem(rhs) {
                    Some(r) => Ok(r),
                    None => Err(Fault::Overflow),
                }
            }
        },
    }
}

/// Integer arithmetic on the operator symbols `+ - * / %`. The symbol must be
/// one of these, the divisor of a division or remainder must not be zero, and
/// the quotient must fit.
pub fn eval_number_binary_operation(lhs: i64, rhs: i64, op: &str) -> (out: i64)
    requires
        operator_of(op@) is Some,
        int_binary(lhs, rhs, operator_of(op@)->0) is Ok,
    ensures
        int_binary(lhs, rhs, operator_of(op@)->0) == Ok::<i64, Fault>(out),
{
    match parse_operator(op) {
        Some(operator) => match int_arithmetic(lhs, rhs, operator) {
            Ok(value) => value,
            Err(_) => vstd::pervasive::unreached(),
        },
        None => vstd::pervasive::unreached(),
    }
}

/// Integer arithmetic on an operator symbol, for every symbol and every pair
/// of operands.
pub fn checked_number_binary_operation(lhs: i64, rhs: i64, op: &str) -> (out: Result<i64, Fault>)
    ensures
        out == (match operator_of(op@) {
            Some(operator) => int_binary(lhs, rhs, operator),
            None => Err(Fault::UnknownOperator),
        }),
{
    match parse_operator(op) {
        Some(operator) => match int_arithmetic(lhs, rhs, operator) {
            Ok(_) => Ok(eval_number_binary_operation(lhs, rhs, op)),
            Err(fault) => Err(fault),
        },
        None => Err(Fault::UnknownOperator),
    }
}

/// The integer that a literal denotes, if it denotes one.
pub fn parse_int(text: &str) -> (out: Option<i64>)
    ensures
        out == int_literal(text@),
{
    let chars = characters(text);
    let n = chars.len();
    if n == 0 {
        return None;
    }
    let negative = chars[0] == '-';
    let start: usize = if chars[0] == '-' || chars[0] == '+' {
        1
    } else {
        0
    };
    let ghost digits = unsigned_part(text@);
    assert(digits =~= chars@.subrange(start as int, n as int));
    if start >= n {
        return None;
    }
    let mut magnitude: u64 = 0;
    let mut too_large = false;
    let mut i: usize = start;
    assert(chars@.subrange(start as int, i as int) =~= Seq::<char>::empty());
    while i < n
        invariant
            start <= i <= n,
            n == chars.len(),
            digits == chars@.subrange(start as int, n as int),
            digits == unsigned_part(text@),
            forall|k: int| start <= k < i ==> is_decimal_digit(chars[k]),
            magnitude <= 0x8000_0000_0000_0000,
            !too_large ==> magnitude == digits_value(chars@.subrange(start as int, i as int)),
            too_large ==> digits_value(chars@.subrange(start as int, i as int))
                > 0x8000_0000_0000_0000,
        decreases n - i,
    {
        let c = chars[i];
        if !('0' <= c && c <= '9') {
            assert(!is_decimal_digit(digits[i - start]));
            return None;
        }
        let digit: u64 = (c as u32 - '0' as u32) as u64;
        proof {
            let longer = chars@.subrange(start as int, i + 1);
            assert(longer.drop_last() =~= chars@.subrange(start as int, i as int));
            assert(longer.last() == c);
        }
        if too_large || magnitude > (0x8000_0000_0000_0000 - digit) / 10 {
            too_large = true;
        } else {
            magnitude = magnitude * 10 + digit;
        }
        i += 1;
    }
    assert(chars@.subrange(start as int, i as int) =~= digits);
    assert(all_digits(digits)) by {
        assert forall|k: int| 0 <= k < digits.len() implies is_decimal_digit(
            #[trigger] digits[k],
        ) by {
            assert(digits[k] == chars[k + start]);
        }
    }
    if too_large {
        None
    } else if negative {
        if magnitude == 0x8000_0000_0000_0000 {
            Some(i64::MIN)
        } else {
            Some(-(magnitude as i64))
        }
    } else if magnitude > 0x7fff_ffff_ffff_ffff {
        None
    } else {
        Some(magnitude as i64)
    }
}

/// Whether a text holds a decimal point.
fn has_point(text: &str) -> (out: bool)
    ensures
        out == text@.contains('.'),
{
    let chars = characters(text);
    let mut i: usize = 0;
    while i < chars.len()
        invariant
            i <= chars.len(),
            chars@ == text@,
            forall|k: int| 0 <= k < i ==> chars[k] != '.',
        decreases chars.len() - i,
    {
        if chars[i] == '.' {
            assert(text@[i as int] == '.');
            return true;
        }
        i += 1;
    }
    false
}

/// The error value for a name that no scope binds.
fn undefined(name: &str) -> (out: RuntimeValue)
    ensures
        out@ == ValueView::Error(undefined_message(name@)),
{
    let mut message = String::from_str("undefined Symbol { name: ");
    message.append(debug_text(name).as_str());
    message.append(" }");
    RuntimeValue::Error(message)
}

/// The error value for a callee that is no function.
fn not_a_function(caller: &Expr) -> (out: RuntimeValue)
    ensures
        out@ == ValueView::Error(not_a_function_message(caller@)),
{
    let mut message = debug_expr(caller);
    message.append(" not a function ");
    RuntimeValue::Error(message)
}

/// The error value for an assignment to something that is no name.
fn bad_target(target: &Expr) -> (out: RuntimeValue)
    ensures
        out@ == ValueView::Error(bad_target_message(target@)),
{
    let mut message = String::from_str("only Expr::Identifier supported, found ");
    message.append(debug_expr(target).as_str());
    RuntimeValue::Error(message)
}

/// The error value for a node that has no evaluation.
fn not_implemented(node: &Expr) -> (out: RuntimeValue)
    ensures
        out@ == ValueView::Error(not_implemented_message(node@)),
{
    let mut message = debug_expr(node);
    message.append(" doesn't implement [eval]");
    RuntimeValue::Error(message)
}

/// The value of a name as seen from scope `ctx`, or an error value where no
/// scope binds it.
pub fn eval_identifier(identifier: &Symbol, ctx: RefContext, arena: &Arena) -> (out: RuntimeValue)
    ensures
        out@ == identifier_value(arena@, ctx, identifier@),
{
    match arena.get_variable(ctx, identifier.name.as_str()) {
        Some(value) => value,
        None => undefined(identifier.name.as_str()),
    }
}

/// The world that an arena and a recorder stand for.
pub open spec fn world_of<H: Host>(arena: Arena, host: Recorder<H>) -> World {
    World { arena: arena@, asked: host.log().len() }
}

/// A result of the evaluator as the semantics names it.
pub open spec fn result_view(out: Result<RuntimeValue, Fault>) -> Result<ValueView, Halt> {
    match out {
        Ok(value) => Ok(value@),
        Err(fault) => Err(Halt::Fault(fault)),
    }
}

/// The value of a number literal.
pub fn eval_number<H: Host>(
    value: &str,
    host: &mut Recorder<H>,
) -> (out: Result<RuntimeValue, Fault>)
    ensures
        follows(old(host).log(), final(host).log()),
        forall|full: Seq<Exchange>| #[trigger]
            follows(final(host).log(), full) ==> number_answer(
                value@,
                old(host).log().len(),
                full,
            ) == (Answer { result: result_view(out), asked: final(host).log().len() }),
{
    if has_point(value) {
        match host.float_parse(value) {
            Some(bits) => Ok(RuntimeValue::Float(bits)),
            None => Err(Fault::MalformedNumber),
        }
    } else {
        match parse_int(value) {
            Some(number) => Ok(RuntimeValue::Int(number)),
            None => Err(Fault::MalformedNumber),
        }
    }
}

/// Arithmetic on two evaluated numbers.
fn numeric_values<H: Host>(
    lhs: &RuntimeValue,
    rhs: &RuntimeValue,
    op: BinaryOp,
    host: &mut Recorder<H>,
) -> (out: Result<RuntimeValue, Fault>)
    requires
        is_number(lhs@),
        is_number(rhs@),
    ensures
        follows(old(host).log(), final(host).log()),
        forall|full: Seq<Exchange>| #[trigger]
            follows(final(host).log(), full) ==> numeric_answer(
                lhs@,
                rhs@,
                op,
                old(host).log().len(),
                full,
            ) == (Answer { result: result_view(out), asked: final(host).log().len() }),
{
    match (lhs, rhs) {
        (RuntimeValue::Int(l), RuntimeValue::Int(r)) => match int_arithmetic(*l, *r, op) {
            Ok(value) => Ok(RuntimeValue::Int(value)),
            Err(fault) => Err(fault),
        },
        (RuntimeValue::Float(l), RuntimeValue::Float(r)) => Ok(
            RuntimeValue::Float(host.float_binary(*l, *r, op)),
        ),
        (RuntimeValue::Float(l), RuntimeValue::Int(r)) => {
            let promoted = host.float_from_int(*r);
            Ok(RuntimeValue::Float(host.float_binary(*l, promoted, op)))
        },
        (RuntimeValue::Int(l), RuntimeValue::Float(r)) => {
            let promoted = host.float_from_int(*l);
            Ok(RuntimeValue::Float(host.float_binary(promoted, *r, op)))
        },
        _ => Ok(RuntimeValue::Never),
    }
}

fn number(value: &RuntimeValue) -> (out: bool)
    ensures
        out == is_number(value@),
{
    match value {
        RuntimeValue::Int(_) => true,
        RuntimeValue::Float(_) => true,
        _ => false,
    }
}

/// A binary expression on two evaluated operands.
pub fn binary_values<H: Host>(
    lhs: RuntimeValue,
    rhs: RuntimeValue,
    op: &str,
    host: &mut Recorder<H>,
) -> (out: Result<RuntimeValue, Fault>)
    ensures
        follows(old(host).log(), final(host).log()),
        forall|full: Seq<Exchange>| #[trigger]
            follows(final(host).log(), full) ==> binary_answer(
                lhs@,
                rhs@,
                op@,
                old(host).log().len(),
                full,
            ) == (Answer { result: result_view(out), asked: final(host).log().len() }),
{
    if let RuntimeValue::Error(_) = &lhs {
        return Ok(lhs);
    }
    if let RuntimeValue::Error(_) = &rhs {
        return Ok(rhs);
    }
    if number(&lhs) && number(&rhs) {
        match parse_operator(op) {
            Some(operator) => numeric_values(&lhs, &rhs, operator, host),
            None => Err(Fault::UnknownOperator),
        }
    } else {
        Ok(RuntimeValue::Never)
    }
}

/// `==` or, with `negated`, `!=` on two evaluated operands.
pub fn equality_values<H: Host>(
    lhs: &RuntimeValue,
    rhs: &RuntimeValue,
    negated: bool,
    host: &mut Recorder<H>,
) -> (out: RuntimeValue)
    ensures
        follows(old(host).log(), final(host).log()),
        forall|full: Seq<Exchange>| #[trigger]
            follows(final(host).log(), full) ==> equality_answer(
                lhs@,
                rhs@,
                negated,
                old(host).log().len(),
                full,
            ) == (Answer { result: Ok(out@), asked: final(host).log().len() }),
{
    match (lhs, rhs) {
        (RuntimeValue::Bool(l), RuntimeValue::Bool(r)) => RuntimeValue::Bool((*l == *r) != negated),
        (RuntimeValue::Int(l), RuntimeValue::Int(r)) => RuntimeValue::Bool((*l == *r) != negated),
        (RuntimeValue::Float(l), RuntimeValue::Float(r)) => RuntimeValue::Bool(
            host.float_equal(*l, *r) != negated,
        ),
        _ => RuntimeValue::Error(String::from_str("not the same types")),
    }
}

/// The position of the first signal among the first `count` values.
fn find_signal(values: &Vec<RuntimeValue>, count: usize) -> (out: Option<usize>)
    requires
        count <= values.len(),
    ensures
        match out {
            Some(at) => at < count && first_signal(value_views(values@), count as nat) == Some(
                values[at as int]@,
            ),
            None => first_signal(value_views(values@), count as nat) is None,
        },
{
    let mut index: usize = 0;
    while index < count
        invariant
            index <= count <= values.len(),
            first_signal(value_views(values@), index as nat) is None,
        decreases count - index,
    {
        if let RuntimeValue::Signal(_) = &values[index] {
            proof {
                lemma_first_signal_found(value_views(values@), index as nat, count as nat);
            }
            return Some(index);
        }
        index += 1;
    }
    None
}

/// A signal that is the first up to its own position is the first up to any
/// later position.
proof fn lemma_first_signal_found(args: Seq<ValueView>, at: nat, count: nat)
    requires
        at < count,
        first_signal(args, at) is None,
        args[at as int] is Signal,
    ensures
        first_signal(args, count) == Some(args[at as int]),
    decreases count,
{
    if count > at + 1 {
        lemma_first_signal_found(args, at, (count - 1) as nat);
    }
}

/// What a call hands to its caller.
fn unwrap_signal(value: RuntimeValue) -> (out: RuntimeValue)
    ensures
        out@ == returned(value@),
{
    match value {
        RuntimeValue::Signal(Signal::Break) => RuntimeValue::Never,
        RuntimeValue::Signal(Signal::Return(inner)) => *inner,
        other => other,
    }
}

/// The value of an expression in scope `ctx`. The scopes in `arena` take the
/// bindings that the expression declares; floats and the host's functions are
/// asked of `host`. What comes out is what the semantics gives for the
/// answers that the host gave.
pub fn evaluate<H: Host>(
    node: &Expr,
    ctx: RefContext,
    arena: &mut Arena,
    host: &mut Recorder<H>,
    fuel: u64,
) -> (out: Result<RuntimeValue, Fault>)
    ensures
        follows(old(host).log(), final(host).log()),
        forall|full: Seq<Exchange>| #[trigger]
            follows(final(host).log(), full) ==> eval_spec(
                node@,
                ctx,
                world_of(*old(arena), *old(host)),
                fuel,
                full,
            ) == (Outcome {
                result: result_view(out),
                world: world_of(*final(arena), *final(host)),
            }),
    decreases fuel, node, 2int,
{
    match node {
        Expr::Program(body) => eval_program(body, ctx, arena, host, fuel),
        Expr::Body { body } => eval_body(body, ctx, arena, host, fuel),
        Expr::Loop { body } => eval_loop(body, ctx, arena, host, fuel),
        Expr::Never => Ok(RuntimeValue::Never),
        Expr::Error(message) => Ok(RuntimeValue::Error(message.clone())),
        Expr::String(text) => Ok(RuntimeValue::String(text.clone())),
        Expr::Number(text) => eval_number(text.as_str(), host),
        Expr::Identifier(symbol) => Ok(eval_identifier(symbol, ctx, arena)),
        Expr::Break => Ok(RuntimeValue::Signal(Signal::Break)),
        Expr::Return { expr } => match evaluate(expr, ctx, arena, host, fuel) {
            Ok(value) => Ok(RuntimeValue::Signal(Signal::Return(Box::new(value)))),
            Err(fault) => Err(fault),
        },
        Expr::BinaryExpr { left, right, op } => eval_binary_expr(
            left,
            right,
            op,
            ctx,
            arena,
            host,
            fuel,
            Ghost(*node),
        ),
        Expr::Eq { left, right } => eval_eq(left, right, ctx, arena, host, fuel, Ghost(*node)),
        Expr::NotEq { left, right } => eval_not_eq(
            left,
            right,
            ctx,
            arena,
            host,
            fuel,
            Ghost(*node),
        ),
        Expr::VarDecl { constant, identifier, value } => eval_var_decl(
            identifier,
            value,
            ctx,
            arena,
            host,
            fuel,
            Ghost(*node),
        ),
        Expr::AssignExpr { target, value } => eval_assign_expr(
            target,
            value,
            ctx,
            arena,
            host,
            fuel,
            Ghost(*node),
        ),
        Expr::FnDecl { identifier, params, body } => eval_fn_decl(
            identifier,
            params,
            body,
            ctx,
            arena,
        ),
        Expr::IfExpr { when, then_branch, other } => eval_if(
            when,
            then_branch,
            other,
            ctx,
            arena,
            host,
            fuel,
            Ghost(*node),
        ),
        Expr::Object { props } => eval_object(props, ctx, arena, host, fuel),
        Expr::CallExpr { caller, args } => eval_call(
            caller,
            args,
            ctx,
            arena,
            host,
            fuel,
            Ghost(*node),
        ),
        Expr::MemberExpr { .. } => Ok(not_implemented(node)),
        Expr::Property(_) => Ok(not_implemented(node)),
    }
}

/// The statements of a program, in order.
pub fn eval_program<H: Host>(
    body: &Vec<Expr>,
    ctx: RefContext,
    arena: &mut Arena,
    host: &mut Recorder<H>,
    fuel: u64,
) -> (out: Result<RuntimeValue, Fault>)
    ensures
        follows(old(host).log(), final(host).log()),
        forall|full: Seq<Exchange>| #[trigger]
            follows(final(host).log(), full) ==> eval_block(
                expr_views(body@),
                0,
                ValueView::Never,
                ctx,
                world_of(*old(arena), *old(host)),
                fuel,
                full,
            ) == (Outcome {
                result: result_view(out),
                world: world_of(*final(arena), *final(host)),
            }),
    decreases fuel, body, 1int,
{
    eval_body(body, ctx, arena, host, fuel)
}

/// The statements of a block, in order, up to the first signal.
pub fn eval_body<H: Host>(
    body: &Vec<Expr>,
    ctx: RefContext,
    arena: &mut Arena,
    host: &mut Recorder<H>,
    fuel: u64,
) -> (out: Result<RuntimeValue, Fault>)
    ensures
        follows(old(host).log(), final(host).log()),
        forall|full: Seq<Exchange>| #[trigger]
            follows(final(host).log(), full) ==> eval_block(
                expr_views(body@),
                0,
                ValueView::Never,
                ctx,
                world_of(*old(arena), *old(host)),
                fuel,
                full,
            ) == (Outcome {
                result: result_view(out),
                world: world_of(*final(arena), *final(host)),
            }),
    decreases fuel, body, 0int,
{
    let ghost start = world_of(*arena, *host);
    let ghost first = host.log();
    let ghost views = expr_views(body@);
    let mut result = RuntimeValue::Never;
    let mut index: usize = 0;
    while index < body.len()
        invariant
            index <= body.len(),
            views == expr_views(body@),
            first == old(host).log(),
            start == world_of(*old(arena), *old(host)),
            follows(first, host.log()),
            forall|full: Seq<Exchange>| #[trigger]
                follows(host.log(), full) ==> eval_block(
                    views,
                    0,
                    ValueView::Never,
                    ctx,
                    start,
                    fuel,
                    full,
                ) == eval_block(
                    views,
                    index as int,
                    result@,
                    ctx,
                    world_of(*arena, *host),
                    fuel,
                    full,
                ),
        decreases body.len() - index,
    {
        let ghost before = host.log();
        let ghost here = world_of(*arena, *host);
        let ghost last = result@;
        let line = evaluate(&body[index], ctx, arena, host, fuel);
        proof {
            lemma_follows_transitive(first, before, host.log());
            assert forall|full: Seq<Exchange>| #[trigger] follows(host.log(), full) implies ({
                &&& eval_block(views, 0, ValueView::Never, ctx, start, fuel, full) == eval_block(
                    views,
                    index as int,
                    last,
                    ctx,
                    here,
                    fuel,
                    full,
                )
                &&& eval_spec(views[index as int], ctx, here, fuel, full) == (Outcome {
                    result: result_view(line),
                    world: world_of(*arena, *host),
                })
            }) by {
                lemma_follows_transitive(before, host.log(), full);
            }
        }
        match line {
            Ok(value) => {
                if let RuntimeValue::Signal(_) = &value {
                    return Ok(value);
                }
                result = value;
            },
            Err(fault) => {
                return Err(fault);
            },
        }
        index += 1;
    }
    Ok(result)
}

/// The statements of a loop, round after round, until one of them breaks or
/// returns.
pub fn eval_loop<H: Host>(
    body: &Vec<Expr>,
    ctx: RefContext,
    arena: &mut Arena,
    host: &mut Recorder<H>,
    fuel: u64,
) -> (out: Result<RuntimeValue, Fault>)
    ensures
        follows(old(host).log(), final(host).log()),
        forall|full: Seq<Exchange>| #[trigger]
            follows(final(host).log(), full) ==> eval_rounds(
                expr_views(body@),
                0,
                ValueView::Never,
                ctx,
                world_of(*old(arena), *old(host)),
                fuel,
                full,
            ) == (Outcome {
                result: result_view(out),
                world: world_of(*final(arena), *final(host)),
            }),
    decreases fuel, body, 0int,
{
    let ghost start = world_of(*arena, *host);
    let ghost first = host.log();
    let ghost views = expr_views(body@);
    let mut result = RuntimeValue::Never;
    let mut remaining = fuel;
    let mut index: usize = 0;
    loop
        invariant
            index <= body.len(),
            remaining <= fuel,
            views == expr_views(body@),
            first == old(host).log(),
            start == world_of(*old(arena), *old(host)),
            follows(first, host.log()),
            forall|full: Seq<Exchange>| #[trigger]
                follows(host.log(), full) ==> eval_rounds(
                    views,
                    0,
                    ValueView::Never,
                    ctx,
                    start,
                    fuel,
                    full,
                ) == eval_rounds(
                    views,
                    index as int,
                    result@,
                    ctx,
                    world_of(*arena, *host),
                    remaining,
                    full,
                ),
        decreases remaining, body.len() - index,
    {
        if index >= body.len() {
            if remaining == 0 {
                return Err(Fault::OutOfFuel);
            }
            remaining -= 1;
            index = 0;
            continue ;
        }
        let ghost before = host.log();
        let ghost here = world_of(*arena, *host);
        let ghost last = result@;
        let line = evaluate(&body[index], ctx, arena, host, remaining);
        proof {
            lemma_follows_transitive(first, before, host.log());
            assert forall|full: Seq<Exchange>| #[trigger] follows(host.log(), full) implies ({
                &&& eval_rounds(views, 0, ValueView::Never, ctx, start, fuel, full) == eval_rounds(
                    views,
                    index as int,
                    last,
                    ctx,
                    here,
                    remaining,
                    full,
                )
                &&& eval_spec(views[index as int], ctx, here, remaining, full) == (Outcome {
                    result: result_view(line),
                    world: world_of(*arena, *host),
                })
            }) by {
                lemma_follows_transitive(before, host.log(), full);
            }
        }
        match line {
            Ok(value) => {
                match &value {
                    RuntimeValue::Signal(Signal::Break) => {
                        return Ok(result);
                    },
                    RuntimeValue::Signal(Signal::Return(_)) => {
                        return Ok(value);
                    },
                    _ => {},
                }
                result = value;
            },
            Err(fault) => {
                return Err(fault);
            },
        }
        index += 1;
    }
}

/// An arithmetic expression: both operands are evaluated, the left one first.
fn eval_binary_expr<H: Host>(
    left: &Expr,
    right: &Expr,
    op: &String,
    ctx: RefContext,
    arena: &mut Arena,
    host: &mut Recorder<H>,
    fuel: u64,
    Ghost(whole): Ghost<Expr>,
) -> (out: Result<RuntimeValue, Fault>)
    requires
        decreases_to!(whole => *left),
        decreases_to!(whole => *right),
    ensures
        follows(old(host).log(), final(host).log()),
        forall|full: Seq<Exchange>| #[trigger]
            follows(final(host).log(), full) ==> eval_spec(
                ExprView::BinaryExpr { left: Box::new(left@), right: Box::new(right@), op: op@ },
                ctx,
                world_of(*old(arena), *old(host)),
                fuel,
                full,
            ) == (Outcome {
                result: result_view(out),
                world: world_of(*final(arena), *final(host)),
            }),
    decreases fuel, whole, 0int,
{
    let lhs = match evaluate(left, ctx, arena, host, fuel) {
        Ok(value) => value,
        Err(fault) => {
            return Err(fault);
        },
    };
    let ghost first = host.log();
    let rhs = match evaluate(right, ctx, arena, host, fuel) {
        Ok(value) => value,
        Err(fault) => {
            proof {
                assert forall|full: Seq<Exchange>| #[trigger]
                    follows(host.log(), full) implies follows(first, full) by {
                    lemma_follows_transitive(first, host.log(), full);
                }
            }
            return Err(fault);
        },
    };
    let ghost second = host.log();
    let out = binary_values(lhs, rhs, op.as_str(), host);
    proof {
        lemma_follows_transitive(old(host).log(), first, second);
        lemma_follows_transitive(old(host).log(), second, host.log());
        assert forall|full: Seq<Exchange>| #[trigger] follows(host.log(), full) implies follows(
            first,
            full,
        ) && follows(second, full) by {
            lemma_follows_transitive(second, host.log(), full);
            lemma_follows_transitive(first, second, full);
        }
    }
    out
}

/// Both operands of a comparison, the left one first, then the comparison.
fn eval_equality<H: Host>(
    left: &Expr,
    right: &Expr,
    negated: bool,
    ctx: RefContext,
    arena: &mut Arena,
    host: &mut Recorder<H>,
    fuel: u64,
    Ghost(whole): Ghost<Expr>,
) -> (out: Result<RuntimeValue, Fault>)
    requires
        decreases_to!(whole => *left),
        decreases_to!(whole => *right),
    ensures
        follows(old(host).log(), final(host).log()),
        forall|full: Seq<Exchange>| #[trigger]
            follows(final(host).log(), full) ==> eval_spec(
                if negated {
                    ExprView::NotEq { left: Box::new(left@), right: Box::new(right@) }
                } else {
                    ExprView::Eq { left: Box::new(left@), right: Box::new(right@) }
                },
                ctx,
                world_of(*old(arena), *old(host)),
                fuel,
                full,
            ) == (Outcome {
                result: result_view(out),
                world: world_of(*final(arena), *final(host)),
            }),
    decreases fuel, whole, 0int,
{
    let lhs = match evaluate(left, ctx, arena, host, fuel) {
        Ok(value) => value,
        Err(fault) => {
            return Err(fault);
        },
    };
    let ghost first = host.log();
    let rhs = match evaluate(right, ctx, arena, host, fuel) {
        Ok(value) => value,
        Err(fault) => {
            proof {
                assert forall|full: Seq<Exchange>| #[trigger]
                    follows(host.log(), full) implies follows(first, full) by {
                    lemma_follows_transitive(first, host.log(), full);
                }
            }
            return Err(fault);
        },
    };
    let ghost second = host.log();
    let out = equality_values(&lhs, &rhs, negated, host);
    proof {
        lemma_follows_transitive(old(host).log(), first, second);
        lemma_follows_transitive(old(host).log(), second, host.log());
        assert forall|full: Seq<Exchange>| #[trigger] follows(host.log(), full) implies follows(
            first,
            full,
        ) && follows(second, full) by {
            lemma_follows_transitive(second, host.log(), full);
            lemma_follows_transitive(first, second, full);
        }
    }
    Ok(out)
}

/// `left == right`.
fn eval_eq<H: Host>(
    left: &Expr,
    right: &Expr,
    ctx: RefContext,
    arena: &mut Arena,
    host: &mut Recorder<H>,
    fuel: u64,
    Ghost(whole): Ghost<Expr>,
) -> (out: Result<RuntimeValue, Fault>)
    requires
        decreases_to!(whole => *left),
        decreases_to!(whole => *right),
    ensures
        follows(old(host).log(), final(host).log()),
        forall|full: Seq<Exchange>| #[trigger]
            follows(final(host).log(), full) ==> eval_spec(
                ExprView::Eq { left: Box::new(left@), right: Box::new(right@) },
                ctx,
                world_of(*old(arena), *old(host)),
                fuel,
                full,
            ) == (Outcome {
                result: result_view(out),
                world: world_of(*final(arena), *final(host)),
            }),
    decreases fuel, whole, 1int,
{
    eval_equality(left, right, false, ctx, arena, host, fuel, Ghost(whole))
}

/// `left != right`.
fn eval_not_eq<H: Host>(
    left: &Expr,
    right: &Expr,
    ctx: RefContext,
    arena: &mut Arena,
    host: &mut Recorder<H>,
    fuel: u64,
    Ghost(whole): Ghost<Expr>,
) -> (out: Result<RuntimeValue, Fault>)
    requires
        decreases_to!(whole => *left),
        decreases_to!(whole => *right),
    ensures
        follows(old(host).log(), final(host).log()),
        forall|full: Seq<Exchange>| #[trigger]
            follows(final(host).log(), full) ==> eval_spec(
                ExprView::NotEq { left: Box::new(left@), right: Box::new(right@) },
                ctx,
                world_of(*old(arena), *old(host)),
                fuel,
                full,
            ) == (Outcome {
                result: result_view(out),
                world: world_of(*final(arena), *final(host)),
            }),
    decreases fuel, whole, 1int,
{
    eval_equality(left, right, true, ctx, arena, host, fuel, Ghost(whole))
}

/// A declaration: the value is evaluated and bound in the current scope.
fn eval_var_decl<H: Host>(
    identifier: &Symbol,
    value: &Expr,
    ctx: RefContext,
    arena: &mut Arena,
    host: &mut Recorder<H>,
    fuel: u64,
    Ghost(whole): Ghost<Expr>,
) -> (out: Result<RuntimeValue, Fault>)
    requires
        decreases_to!(whole => *value),
    ensures
        follows(old(host).log(), final(host).log()),
        forall|full: Seq<Exchange>| #[trigger]
            follows(final(host).log(), full) ==> eval_declaration(
                identifier@,
                value@,
                ctx,
                world_of(*old(arena), *old(host)),
                fuel,
                full,
            ) == (Outcome {
                result: result_view(out),
                world: world_of(*final(arena), *final(host)),
            }),
    decreases fuel, whole, 0int,
{
    match evaluate(value, ctx, arena, host, fuel) {
        Ok(bound) => {
            if let RuntimeValue::Signal(_) = &bound {
                Ok(bound)
            } else {
                arena.let_variable(ctx, identifier.name.as_str(), bound)
            }
        },
        Err(fault) => Err(fault),
    }
}

/// An assignment: to a name it is a declaration in the current scope, to
/// anything else an error value.
fn eval_assign_expr<H: Host>(
    target: &Expr,
    value: &Expr,
    ctx: RefContext,
    arena: &mut Arena,
    host: &mut Recorder<H>,
    fuel: u64,
    Ghost(whole): Ghost<Expr>,
) -> (out: Result<RuntimeValue, Fault>)
    requires
        decreases_to!(whole => *value),
    ensures
        follows(old(host).log(), final(host).log()),
        forall|full: Seq<Exchange>| #[trigger]
            follows(final(host).log(), full) ==> eval_spec(
                ExprView::AssignExpr { target: Box::new(target@), value: Box::new(value@) },
                ctx,
                world_of(*old(arena), *old(host)),
                fuel,
                full,
            ) == (Outcome {
                result: result_view(out),
                world: world_of(*final(arena), *final(host)),
            }),
    decreases fuel, whole, 1int,
{
    match target {
        Expr::Identifier(identifier) => eval_var_decl(
            identifier,
            value,
            ctx,
            arena,
            host,
            fuel,
            Ghost(whole),
        ),
        _ => Ok(bad_target(target)),
    }
}

/// A function declaration: the function value remembers the scope it is
/// declared in, is bound there under its own name, and is the result.
pub fn eval_fn_decl(
    identifier: &Symbol,
    params: &Vec<Parameter>,
    body: &Expr,
    ctx: RefContext,
    arena: &mut Arena,
) -> (out: Result<RuntimeValue, Fault>)
    ensures
        match out {
            Ok(function) => ctx < old(arena)@.len() && function@ == (ValueView::Fn {
                identifier: identifier@,
                params: parameter_views(params@),
                body: Box::new(body@),
                decl_ctx: ctx,
            }) && final(arena)@ == declare(old(arena)@, ctx, identifier@, function@),
            Err(fault) => ctx >= old(arena)@.len() && fault == Fault::DanglingContext
                && final(arena)@ == old(arena)@,
        },
{
    let function = RuntimeValue::Fn {
        identifier: identifier.clone(),
        params: clone_parameters(params),
        body: Box::new(clone_expr(body)),
        decl_ctx: ctx,
    };
    arena.let_variable(ctx, identifier.name.as_str(), function)
}

/// A conditional: the condition must be a boolean.
fn eval_if<H: Host>(
    when: &Expr,
    then_branch: &Expr,
    other: &Option<Box<Expr>>,
    ctx: RefContext,
    arena: &mut Arena,
    host: &mut Recorder<H>,
    fuel: u64,
    Ghost(whole): Ghost<Expr>,
) -> (out: Result<RuntimeValue, Fault>)
    requires
        decreases_to!(whole => *when),
        decreases_to!(whole => *then_branch),
        other matches Some(e) ==> decreases_to!(whole => **e),
    ensures
        follows(old(host).log(), final(host).log()),
        forall|full: Seq<Exchange>| #[trigger]
            follows(final(host).log(), full) ==> eval_spec(
                ExprView::IfExpr {
                    when: Box::new(when@),
                    then_branch: Box::new(then_branch@),
                    other: match other {
                        Some(e) => Some(Box::new(e@)),
                        None => None,
                    },
                },
                ctx,
                world_of(*old(arena), *old(host)),
                fuel,
                full,
            ) == (Outcome {
                result: result_view(out),
                world: world_of(*final(arena), *final(host)),
            }),
    decreases fuel, whole, 0int,
{
    let condition = match evaluate(when, ctx, arena, host, fuel) {
        Ok(value) => value,
        Err(fault) => {
            return Err(fault);
        },
    };
    let ghost first = host.log();
    let out = match condition {
        RuntimeValue::Bool(true) => evaluate(then_branch, ctx, arena, host, fuel),
        RuntimeValue::Bool(false) => match other {
            Some(e) => evaluate(e, ctx, arena, host, fuel),
            None => Ok(RuntimeValue::Never),
        },
        _ => Ok(RuntimeValue::Error(String::from_str("invalid condition"))),
    };
    proof {
        lemma_follows_transitive(old(host).log(), first, host.log());
        assert forall|full: Seq<Exchange>| #[trigger] follows(host.log(), full) implies follows(
            first,
            full,
        ) by {
            lemma_follows_transitive(first, host.log(), full);
        }
    }
    out
}

/// An object literal: its properties in order; a property without a value
/// takes that of the variable of its name.
pub fn eval_object<H: Host>(
    props: &Vec<Property>,
    ctx: RefContext,
    arena: &mut Arena,
    host: &mut Recorder<H>,
    fuel: u64,
) -> (out: Result<RuntimeValue, Fault>)
    ensures
        follows(old(host).log(), final(host).log()),
        forall|full: Seq<Exchange>| #[trigger]
            follows(final(host).log(), full) ==> eval_props(
                property_views(props@),
                0,
                Map::empty(),
                ctx,
                world_of(*old(arena), *old(host)),
                fuel,
                full,
            ) == (Outcome {
                result: result_view(out),
                world: world_of(*final(arena), *final(host)),
            }),
    decreases fuel, props, 0int,
{
    let ghost start = world_of(*arena, *host);
    let ghost first = host.log();
    let ghost views = property_views(props@);
    let mut fields: Vec<Binding> = Vec::new();
    let mut index: usize = 0;
    while index < props.len()
        invariant
            index <= props.len(),
            views == property_views(props@),
            first == old(host).log(),
            start == world_of(*old(arena), *old(host)),
            follows(first, host.log()),
            forall|full: Seq<Exchange>| #[trigger]
                follows(host.log(), full) ==> eval_props(
                    views,
                    0,
                    Map::empty(),
                    ctx,
                    start,
                    fuel,
                    full,
                ) == eval_props(
                    views,
                    index as int,
                    bindings_view(fields@),
                    ctx,
                    world_of(*arena, *host),
                    fuel,
                    full,
                ),
        decreases props.len() - index,
    {
        let ghost before = host.log();
        let ghost here = world_of(*arena, *host);
        let ghost so_far = bindings_view(fields@);
        let property = &props[index];
        assert(views[index as int] == property@);
        let value = match &property.value {
            Some(e) => {
                let item = evaluate(e, ctx, arena, host, fuel);
                proof {
                    lemma_follows_transitive(first, before, host.log());
                    assert forall|full: Seq<Exchange>| #[trigger]
                        follows(host.log(), full) implies ({
                        &&& eval_props(views, 0, Map::empty(), ctx, start, fuel, full)
                            == eval_props(views, index as int, so_far, ctx, here, fuel, full)
                        &&& eval_spec(e@, ctx, here, fuel, full) == (Outcome {
                            result: result_view(item),
                            world: world_of(*arena, *host),
                        })
                    }) by {
                        lemma_follows_transitive(before, host.log(), full);
                    }
                }
                match item {
                    Ok(value) => value,
                    Err(fault) => {
                        return Err(fault);
                    },
                }
            },
            None => eval_identifier(&property.identifier, ctx, arena),
        };
        bind(&mut fields, property.identifier.name.as_str(), value);
        index += 1;
    }
    Ok(RuntimeValue::Object(fields))
}

/// A call: the arguments are evaluated in order, then the callee, then the
/// callee is applied.
fn eval_call<H: Host>(
    caller: &Expr,
    args: &Vec<Expr>,
    ctx: RefContext,
    arena: &mut Arena,
    host: &mut Recorder<H>,
    fuel: u64,
    Ghost(whole): Ghost<Expr>,
) -> (out: Result<RuntimeValue, Fault>)
    requires
        decreases_to!(whole => *caller),
        decreases_to!(whole => *args),
    ensures
        follows(old(host).log(), final(host).log()),
        forall|full: Seq<Exchange>| #[trigger]
            follows(final(host).log(), full) ==> eval_spec(
                ExprView::CallExpr { caller: Box::new(caller@), args: expr_views(args@) },
                ctx,
                world_of(*old(arena), *old(host)),
                fuel,
                full,
            ) == (Outcome {
                result: result_view(out),
                world: world_of(*final(arena), *final(host)),
            }),
    decreases fuel, whole, 0int,
{
    let ghost start = world_of(*arena, *host);
    let ghost first = host.log();
    let ghost views = expr_views(args@);
    let mut values: Vec<RuntimeValue> = Vec::new();
    let mut index: usize = 0;
    assert(value_views(values@) =~= Seq::<ValueView>::empty());
    while index < args.len()
        invariant
            index <= args.len(),
            views == expr_views(args@),
            decreases_to!(whole => *args),
            first == old(host).log(),
            start == world_of(*old(arena), *old(host)),
            follows(first, host.log()),
            forall|full: Seq<Exchange>| #[trigger]
                follows(host.log(), full) ==> eval_list(
                    views,
                    0,
                    Seq::empty(),
                    ctx,
                    start,
                    fuel,
                    full,
                ) == eval_list(
                    views,
                    index as int,
                    value_views(values@),
                    ctx,
                    world_of(*arena, *host),
                    fuel,
                    full,
                ),
        decreases args.len() - index,
    {
        let ghost before = host.log();
        let ghost here = world_of(*arena, *host);
        let ghost so_far = value_views(values@);
        let item = evaluate(&args[index], ctx, arena, host, fuel);
        proof {
            lemma_follows_transitive(first, before, host.log());
            assert forall|full: Seq<Exchange>| #[trigger] follows(host.log(), full) implies ({
                &&& eval_list(views, 0, Seq::empty(), ctx, start, fuel, full) == eval_list(
                    views,
                    index as int,
                    so_far,
                    ctx,
                    here,
                    fuel,
                    full,
                )
                &&& eval_spec(views[index as int], ctx, here, fuel, full) == (Outcome {
                    result: result_view(item),
                    world: world_of(*arena, *host),
                })
            }) by {
                lemma_follows_transitive(before, host.log(), full);
            }
        }
        match item {
            Ok(value) => {
                assert(value_views(values@.push(value)) =~= so_far.push(value@));
                values.push(value);
            },
            Err(fault) => {
                return Err(fault);
            },
        }
        index += 1;
    }
    let ghost second = host.log();
    let callee = match evaluate(caller, ctx, arena, host, fuel) {
        Ok(value) => value,
        Err(fault) => {
            proof {
                lemma_follows_transitive(first, second, host.log());
                assert forall|full: Seq<Exchange>| #[trigger]
                    follows(host.log(), full) implies follows(second, full) by {
                    lemma_follows_transitive(second, host.log(), full);
                }
            }
            return Err(fault);
        },
    };
    let ghost third = host.log();
    let out = apply(callee, values, caller, ctx, arena, host, fuel);
    proof {
        lemma_follows_transitive(first, second, third);
        lemma_follows_transitive(first, third, host.log());
        assert forall|full: Seq<Exchange>| #[trigger] follows(host.log(), full) implies follows(
            second,
            full,
        ) && follows(third, full) by {
            lemma_follows_transitive(third, host.log(), full);
            lemma_follows_transitive(second, third, full);
        }
    }
    out
}

/// The application of an evaluated callee to evaluated arguments.
pub fn apply<H: Host>(
    callee: RuntimeValue,
    args: Vec<RuntimeValue>,
    caller: &Expr,
    ctx: RefContext,
    arena: &mut Arena,
    host: &mut Recorder<H>,
    fuel: u64,
) -> (out: Result<RuntimeValue, Fault>)
    ensures
        follows(old(host).log(), final(host).log()),
        forall|full: Seq<Exchange>| #[trigger]
            follows(final(host).log(), full) ==> apply_spec(
                callee@,
                value_views(args@),
                caller@,
                ctx,
                world_of(*old(arena), *old(host)),
                fuel,
                full,
            ) == (Outcome {
                result: result_view(out),
                world: world_of(*final(arena), *final(host)),
            }),
    decreases fuel, caller, 0int,
{
    match callee {
        RuntimeValue::ExternFn(function) => Ok(host.call_extern(function, args, arena, ctx)),
        RuntimeValue::Fn { identifier, params, body, decl_ctx } => {
            if args.len() < params.len() {
                return Ok(RuntimeValue::Error(String::from_str("invalid args")));
            }
            match find_signal(&args, params.len()) {
                Some(at) => {
                    return Ok(clone_value(&args[at]));
                },
                None => {},
            }
            if decl_ctx >= arena.len() {
                return Err(Fault::DanglingContext);
            }
            if fuel == 0 {
                return Err(Fault::OutOfFuel);
            }
            let mut context = Context::new(Some(decl_ctx));
            let mut index: usize = 0;
            while index < params.len()
                invariant
                    index <= params.len() <= args.len(),
                    context@ == (ContextView {
                        parent: Some(decl_ctx),
                        variables: bound_parameters(
                            parameter_views(params@),
                            value_views(args@),
                            index as nat,
                        ),
                    }),
                decreases params.len() - index,
            {
                context.let_variable(params[index].name.as_str(), clone_value(&args[index]));
                index += 1;
            }
            let inner = arena.adopt(context);
            match evaluate(&body, inner, arena, host, fuel - 1) {
                Ok(value) => Ok(unwrap_signal(value)),
                Err(fault) => Err(fault),
            }
        },
        _ => Ok(not_a_function(caller)),
    }
}

/// The value of an expression tree in scope `ctx`.
pub fn eval<H: Host>(
    node: Expr,
    ctx: RefContext,
    arena: &mut Arena,
    host: &mut Recorder<H>,
    fuel: u64,
) -> (out: Result<RuntimeValue, Fault>)
    ensures
        follows(old(host).log(), final(host).log()),
        forall|full: Seq<Exchange>| #[trigger]
            follows(final(host).log(), full) ==> eval_spec(
                node@,
                ctx,
                world_of(*old(arena), *old(host)),
                fuel,
                full,
            ) == (Outcome {
                result: result_view(out),
                world: world_of(*final(arena), *final(host)),
            }),
{
    evaluate(&node, ctx, arena, host, fuel)
}

} // verus!
