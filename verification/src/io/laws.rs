//! Laws of the language: what holds of every program, stated over the
//! semantics and proved from it.

use vstd::prelude::*;
use crate::io::ast::{ExprView, PropertyView};
use crate::io::host::{Exchange, Reply, Request};
use crate::io::grammar::{
    additive, additive_from, assignment, call_member, comparison, comparison_from, expr,
    is_additive, is_multiplicative, member, member_from,
    multiplicative, multiplicative_from, object, primary, program, program_from, statement,
};
use crate::io::lexer::{
    end_of_input, identifier_end, is_digit, keyword_of, lemma_identifier_end, lemma_number_end, lex,
    lex_from, number_end, punctuation, TokenKind, TokenView,
};
use crate::io::runtime::{
    declare, holder, holder_within, lemma_holder, lookup, ContextView, Fault, RefContext, SignalView, ValueView,
};
use crate::io::semantics::{
    apply_spec, binary_answer, bound_parameters, done, eval_block, eval_declaration,
    eval_list, eval_props, eval_rounds, eval_spec, first_signal, identifier_value,
    not_a_function_message, operator_of, remainder, undefined_message, wrap, Answer, Halt,
    World,
};

verus! {

/// The tokens of a text are never empty, and the last of them is the
/// end-of-input token.
pub proof fn law_tokens_end_with_end_of_input(src: Seq<char>)
    ensures
        lex(src).len() > 0,
        lex(src).last() == end_of_input(),
{
    lemma_lex_from_ends(src, 0);
}

/// The same from any position on.
pub proof fn lemma_lex_from_ends(src: Seq<char>, pos: int)
    ensures
        lex_from(src, pos).len() > 0,
        lex_from(src, pos).last() == end_of_input(),
    decreases src.len() - pos,
{
    if 0 <= pos < src.len() {
        lemma_number_end(src, pos + 1, false);
        lemma_identifier_end(src, pos + 1);
        lemma_lex_from_ends(src, pos + 1);
        if pos + 2 <= src.len() {
            lemma_lex_from_ends(src, pos + 2);
        }
        lemma_lex_from_ends(src, number_end(src, pos + 1, false));
        lemma_lex_from_ends(src, identifier_end(src, pos + 1));
    }
}

/// The keyword set is closed: a word is a keyword only where it is one of the
/// eight words of the language.
pub proof fn law_keywords_are_eight(word: Seq<char>)
    ensures
        keyword_of(word) is Some <==> (word == "let"@ || word == "const"@ || word == "fn"@ || word
            == "if"@ || word == "else"@ || word == "loop"@ || word == "break"@ || word
            == "return"@),
{
}

/// The number of decimal points in a text.
pub open spec fn points(text: Seq<char>) -> nat
    decreases text.len(),
{
    if text.len() == 0 {
        0
    } else if text[0] == '.' {
        1 + points(text.drop_first())
    } else {
        points(text.drop_first())
    }
}

/// Whether a text is that of a number: it starts with a digit, holds digits
/// and decimal points only, and of the points one at most.
pub open spec fn is_number_text(text: Seq<char>) -> bool {
    &&& text.len() > 0
    &&& is_digit(text[0])
    &&& forall|i: int| 0 <= i < text.len() ==> is_digit(#[trigger] text[i]) || text[i] == '.'
    &&& points(text) <= 1
}

/// Every number token holds the text of a number: digits around one decimal
/// point at most.
pub proof fn law_numbers_hold_one_point(src: Seq<char>)
    ensures
        forall|i: int|
            0 <= i < lex(src).len() && (#[trigger] lex(src)[i]).kind == TokenKind::Number
                ==> is_number_text(lex(src)[i].value),
{
    lemma_lex_from_numbers(src, 0);
}

/// The same from any position on.
pub proof fn lemma_lex_from_numbers(src: Seq<char>, pos: int)
    ensures
        forall|i: int|
            0 <= i < lex_from(src, pos).len() && (#[trigger] lex_from(src, pos)[i]).kind
                == TokenKind::Number ==> is_number_text(lex_from(src, pos)[i].value),
    decreases src.len() - pos,
{
    if 0 <= pos < src.len() {
        let c = src[pos];
        let number = number_end(src, pos + 1, false);
        let word = identifier_end(src, pos + 1);
        lemma_number_end(src, pos + 1, false);
        lemma_identifier_end(src, pos + 1);
        lemma_number_run(src, pos + 1, false);
        lemma_lex_from_numbers(src, pos + 1);
        if pos + 2 <= src.len() {
            lemma_lex_from_numbers(src, pos + 2);
        }
        lemma_lex_from_numbers(src, number);
        lemma_lex_from_numbers(src, word);
        if punctuation(c) is None && c != '!' && c != '=' && is_digit(c) {
            let text = src.subrange(pos, number);
            assert(text.drop_first() =~= src.subrange(pos + 1, number));
            assert(is_number_text(text)) by {
                assert forall|i: int| 0 <= i < text.len() implies is_digit(#[trigger] text[i])
                    || text[i] == '.' by {
                    if i > 0 {
                        assert(text[i] == src.subrange(pos + 1, number)[i - 1]);
                    }
                }
            }
        }
    }
}

/// What is read as the rest of a number holds digits and decimal points only:
/// one point at most, and none where the number has its point already.
pub proof fn lemma_number_run(src: Seq<char>, pos: int, pointed: bool)
    requires
        0 <= pos <= src.len(),
    ensures
        ({
            let run = src.subrange(pos, number_end(src, pos, pointed));
            &&& forall|i: int| 0 <= i < run.len() ==> is_digit(#[trigger] run[i]) || run[i] == '.'
            &&& points(run) <= (if pointed {
                0nat
            } else {
                1nat
            })
        }),
    decreases src.len() - pos,
{
    lemma_number_end(src, pos, pointed);
    let end = number_end(src, pos, pointed);
    let run = src.subrange(pos, end);
    if pos < src.len() && (is_digit(src[pos]) || (src[pos] == '.' && !pointed)) {
        let then_pointed = pointed || src[pos] == '.';
        lemma_number_run(src, pos + 1, then_pointed);
        lemma_number_end(src, pos + 1, then_pointed);
        let rest = src.subrange(pos + 1, end);
        assert(run.drop_first() =~= rest);
        assert forall|i: int| 0 <= i < run.len() implies is_digit(#[trigger] run[i]) || run[i]
            == '.' by {
            if i > 0 {
                assert(run[i] == rest[i - 1]);
            }
        }
    } else {
        assert(run.len() == 0);
    }
}

/// What the arithmetic operators give on two integers: the sum, difference or
/// product with only its lowest 64 bits kept, or the remainder of the division
/// that rounds toward zero.
pub open spec fn integer_result(a: i64, b: i64, op: Seq<char>) -> i64 {
    if op == "+"@ {
        wrap(a + b)
    } else if op == "-"@ {
        wrap(a - b)
    } else if op == "*"@ {
        wrap(a * b)
    } else {
        remainder(a as int, b as int) as i64
    }
}

/// An arithmetic expression with `+`, `-`, `*` or `%` whose operands evaluate
/// to two integers evaluates to the integer that the operator gives on them.
/// For `%` the divisor is not zero, and the operands are not the least integer
/// and minus one, whose quotient does not fit.
pub proof fn law_integer_arithmetic(
    left: ExprView,
    right: ExprView,
    op: Seq<char>,
    ctx: RefContext,
    world: World,
    fuel: u64,
    log: Seq<Exchange>,
    a: i64,
    b: i64,
)
    requires
        eval_spec(left, ctx, world, fuel, log).result == Ok::<ValueView, Halt>(ValueView::Int(a)),
        eval_spec(right, ctx, eval_spec(left, ctx, world, fuel, log).world, fuel, log).result
            == Ok::<ValueView, Halt>(ValueView::Int(b)),
        op == "+"@ || op == "-"@ || op == "*"@ || op == "%"@,
        op == "%"@ ==> b != 0 && !(a == i64::MIN && b == -1),
    ensures
        eval_spec(
            ExprView::BinaryExpr { left: Box::new(left), right: Box::new(right), op },
            ctx,
            world,
            fuel,
            log,
        ) == done(
            ValueView::Int(integer_result(a, b, op)),
            eval_spec(right, ctx, eval_spec(left, ctx, world, fuel, log).world, fuel, log).world,
        ),
{
    reveal_strlit("+");
    reveal_strlit("-");
    reveal_strlit("*");
    reveal_strlit("/");
    reveal_strlit("%");
    assert("+"@[0] == '+');
    assert("-"@[0] == '-');
    assert("*"@[0] == '*');
    assert("/"@[0] == '/');
    assert("%"@[0] == '%');
}

/// Mixed arithmetic promotes: of an integer and a float, the integer is made a
/// float first, the operation is the float operation on the two floats, and
/// the result is a float. Both steps are the host's, and its answers are the
/// promoted integer and the result.
pub proof fn law_mixed_arithmetic_promotes(
    integer: i64,
    float: u64,
    op: Seq<char>,
    asked: nat,
    log: Seq<Exchange>,
    promoted: u64,
    result: u64,
)
    requires
        operator_of(op) is Some,
        asked + 1 < log.len(),
        log[asked as int] == (Exchange {
            request: Request::FloatFromInt { value: integer },
            reply: Reply::Float(promoted),
        }),
    ensures
        log[asked as int + 1] == (Exchange {
            request: Request::FloatBinary { lhs: promoted, rhs: float, op: operator_of(op)->0 },
            reply: Reply::Float(result),
        }) ==> binary_answer(ValueView::Int(integer), ValueView::Float(float), op, asked, log)
            == (Answer { result: Ok(ValueView::Float(result)), asked: asked + 2 }),
        log[asked as int + 1] == (Exchange {
            request: Request::FloatBinary { lhs: float, rhs: promoted, op: operator_of(op)->0 },
            reply: Reply::Float(result),
        }) ==> binary_answer(ValueView::Float(float), ValueView::Int(integer), op, asked, log)
            == (Answer { result: Ok(ValueView::Float(result)), asked: asked + 2 }),
{
}

/// A name that no scope binds, from the current scope outward, evaluates to an
/// error value, and the evaluation changes nothing.
pub proof fn law_undeclared_identifier(
    name: Seq<char>,
    ctx: RefContext,
    world: World,
    fuel: u64,
    log: Seq<Exchange>,
)
    requires
        lookup(world.arena, ctx, name) is None,
    ensures
        eval_spec(ExprView::Identifier(name), ctx, world, fuel, log) == done(
            ValueView::Error(undefined_message(name)),
            world,
        ),
{
}

/// A call whose callee evaluates to a value that is no function evaluates to
/// an error value.
pub proof fn law_call_of_non_function(
    caller: ExprView,
    args: Seq<ExprView>,
    ctx: RefContext,
    world: World,
    fuel: u64,
    log: Seq<Exchange>,
)
    requires
        eval_list(args, 0, Seq::empty(), ctx, world, fuel, log).result is Ok,
        eval_spec(
            caller,
            ctx,
            eval_list(args, 0, Seq::empty(), ctx, world, fuel, log).world,
            fuel,
            log,
        ).result matches Ok(callee) && !(callee is Fn) && !(callee is ExternFn),
    ensures
        eval_spec(
            ExprView::CallExpr { caller: Box::new(caller), args },
            ctx,
            world,
            fuel,
            log,
        ) == done(
            ValueView::Error(not_a_function_message(caller)),
            eval_spec(
                caller,
                ctx,
                eval_list(args, 0, Seq::empty(), ctx, world, fuel, log).world,
                fuel,
                log,
            ).world,
        ),
{
    let evaluated = eval_list(args, 0, Seq::empty(), ctx, world, fuel, log);
    let values = evaluated.result->Ok_0;
    let callee = eval_spec(caller, ctx, evaluated.world, fuel, log);
    let f = callee.result->Ok_0;
    assert(apply_spec(f, values, caller, ctx, callee.world, fuel, log) == done(
        ValueView::Error(not_a_function_message(caller)),
        callee.world,
    ));
}

/// A name is seen with the value that was last bound to it in the scope it is
/// looked up from.
pub proof fn law_lookup_after_declare(
    arena: Seq<ContextView>,
    ctx: RefContext,
    name: Seq<char>,
    value: ValueView,
)
    requires
        ctx < arena.len(),
    ensures
        lookup(declare(arena, ctx, name, value), ctx, name) == Some(value),
{
}

/// Whether the walk from `ctx` along the parent links comes by `target`
/// within `steps` scopes.
pub open spec fn comes_by(
    arena: Seq<ContextView>,
    ctx: RefContext,
    target: RefContext,
    steps: nat,
) -> bool
    decreases steps,
{
    if steps == 0 || ctx >= arena.len() {
        false
    } else if ctx == target {
        true
    } else {
        match arena[ctx as int].parent {
            Some(parent) => comes_by(arena, parent, target, (steps - 1) as nat),
            None => false,
        }
    }
}

/// A binding made in a scope is not seen from a scope whose chain of parents
/// does not come by it: what a call declares does not leak to its caller.
pub proof fn law_inner_declaration_does_not_leak(
    arena: Seq<ContextView>,
    inner: RefContext,
    outer: RefContext,
    name: Seq<char>,
    value: ValueView,
    other: Seq<char>,
)
    requires
        inner < arena.len(),
        !comes_by(arena, outer, inner, arena.len()),
    ensures
        lookup(declare(arena, inner, name, value), outer, other) == lookup(arena, outer, other),
{
    let after = declare(arena, inner, name, value);
    lemma_declaration_off_the_chain(arena, inner, outer, name, value, other, arena.len());
    lemma_holder(arena, outer, other);
    match holder(arena, outer, other) {
        Some(at) => {
            assert(after[at as int] == arena[at as int]);
        },
        None => {},
    }
}

/// The same for a walk of any length: it finds the same scope, and that
/// scope is not the one of the declaration.
pub proof fn lemma_declaration_off_the_chain(
    arena: Seq<ContextView>,
    inner: RefContext,
    outer: RefContext,
    name: Seq<char>,
    value: ValueView,
    other: Seq<char>,
    steps: nat,
)
    requires
        inner < arena.len(),
        !comes_by(arena, outer, inner, steps),
    ensures
        holder_within(declare(arena, inner, name, value), outer, other, steps) == holder_within(
            arena,
            outer,
            other,
            steps,
        ),
        holder_within(arena, outer, other, steps) != Some(inner),
    decreases steps,
{
    let after = declare(arena, inner, name, value);
    if steps > 0 && outer < arena.len() {
        assert(after[outer as int] == arena[outer as int]);
        if !arena[outer as int].variables.contains_key(other) {
            match arena[outer as int].parent {
                Some(parent) => {
                    lemma_declaration_off_the_chain(
                        arena,
                        inner,
                        parent,
                        name,
                        value,
                        other,
                        (steps - 1) as nat,
                    );
                },
                None => {},
            }
        }
    }
}

/// Whether every parent link of the arena points from a scope to an older
/// one. Every link that a call makes does: see [`law_handles_never_dangle`].
pub open spec fn ordered(arena: Seq<ContextView>) -> bool {
    forall|ctx: int|
        0 <= ctx < arena.len() ==> ((#[trigger] arena[ctx]).parent matches Some(parent)
            ==> parent < ctx)
}

/// Where every link points to an older scope, the chain of a scope comes by
/// no younger scope: a caller never sees what a later call declares for
/// itself.
pub proof fn law_older_scopes_see_no_younger(
    arena: Seq<ContextView>,
    outer: RefContext,
    inner: RefContext,
    steps: nat,
)
    requires
        ordered(arena),
        outer < inner,
    ensures
        !comes_by(arena, outer, inner, steps),
    decreases steps,
{
    if steps > 0 && outer < arena.len() {
        match arena[outer as int].parent {
            Some(parent) => {
                law_older_scopes_see_no_younger(arena, parent, inner, (steps - 1) as nat);
            },
            None => {},
        }
    }
}

/// A binding made in a scope is seen from a scope inside it that does not bind
/// the name itself: a function sees later changes of the scope it was
/// declared in.
pub proof fn law_closure_sees_its_scope(
    arena: Seq<ContextView>,
    outer: RefContext,
    inner: RefContext,
    name: Seq<char>,
    value: ValueView,
)
    requires
        outer < arena.len(),
        inner < arena.len(),
        outer != inner,
        arena[inner as int].parent == Some(outer),
        !arena[inner as int].variables.contains_key(name),
    ensures
        lookup(declare(arena, outer, name, value), inner, name) == Some(value),
{
    let after = declare(arena, outer, name, value);
    assert(after[inner as int] == arena[inner as int]);
    assert(holder_within(after, outer, name, (after.len() - 1) as nat) == Some(outer));
    assert(holder_within(after, inner, name, after.len()) == Some(outer));
}

/// Whether `chain` is the chain of parents of its first scope: every scope of
/// it is in the arena, each is the parent of the one before, and the last has
/// no parent in the arena.
pub open spec fn is_chain(arena: Seq<ContextView>, chain: Seq<RefContext>) -> bool {
    &&& chain.len() > 0
    &&& forall|i: int| 0 <= i < chain.len() ==> #[trigger] chain[i] < arena.len()
    &&& forall|i: int|
        0 <= i < chain.len() - 1 ==> arena[(#[trigger] chain[i]) as int].parent == Some(
            chain[i + 1],
        )
    &&& (arena[chain.last() as int].parent matches Some(parent) ==> parent >= arena.len())
}

/// The first scope of a chain, from position `from` on, that binds a name.
pub open spec fn first_binder(
    arena: Seq<ContextView>,
    chain: Seq<RefContext>,
    name: Seq<char>,
    from: int,
) -> Option<RefContext>
    decreases chain.len() - from,
{
    if from < 0 || from >= chain.len() {
        None
    } else if arena[chain[from] as int].variables.contains_key(name) {
        Some(chain[from])
    } else {
        first_binder(arena, chain, name, from + 1)
    }
}

/// Lookup walks the whole chain: where the parents of a scope form a chain
/// that ends and holds no scope twice, the scope that a name is found in is
/// the first of the chain that binds it, and none is found only where no
/// scope of the chain binds it.
pub proof fn law_lookup_walks_the_whole_chain(
    arena: Seq<ContextView>,
    chain: Seq<RefContext>,
    name: Seq<char>,
)
    requires
        is_chain(arena, chain),
        chain.no_duplicates(),
    ensures
        holder(arena, chain[0], name) == first_binder(arena, chain, name, 0),
{
    lemma_chain_fits(arena, chain);
    lemma_walk_finds_first_binder(arena, chain, name, 0, arena.len());
}

/// A chain that holds no scope twice is no longer than the arena.
pub proof fn lemma_chain_fits(arena: Seq<ContextView>, chain: Seq<RefContext>)
    requires
        forall|i: int| 0 <= i < chain.len() ==> #[trigger] chain[i] < arena.len(),
        chain.no_duplicates(),
    ensures
        chain.len() <= arena.len(),
{
    let places = Seq::new(chain.len(), |i: int| chain[i] as int);
    assert(places.no_duplicates()) by {
        assert forall|i: int, j: int|
            0 <= i < places.len() && 0 <= j < places.len() && i != j implies places[i]
            != places[j] by {
            assert(chain[i] != chain[j]);
        }
    }
    places.unique_seq_to_set();
    let all = vstd::set_lib::set_int_range(0, arena.len() as int);
    vstd::set_lib::lemma_int_range(0, arena.len() as int);
    assert(places.to_set().subset_of(all)) by {
        assert forall|p: int| places.to_set().contains(p) implies all.contains(p) by {
            let i = choose|i: int| 0 <= i < places.len() && places[i] == p;
            assert(chain[i] < arena.len());
        }
    }
    vstd::set_lib::lemma_len_subset(places.to_set(), all);
}

/// A walk that is long enough for the rest of the chain finds the first scope
/// of that rest that binds the name.
pub proof fn lemma_walk_finds_first_binder(
    arena: Seq<ContextView>,
    chain: Seq<RefContext>,
    name: Seq<char>,
    from: int,
    steps: nat,
)
    requires
        is_chain(arena, chain),
        0 <= from < chain.len(),
        steps >= chain.len() - from,
    ensures
        holder_within(arena, chain[from], name, steps) == first_binder(arena, chain, name, from),
    decreases chain.len() - from,
{
    let ctx = chain[from];
    assert(ctx < arena.len());
    if !arena[ctx as int].variables.contains_key(name) {
        if from < chain.len() - 1 {
            assert(arena[ctx as int].parent == Some(chain[from + 1]));
            lemma_walk_finds_first_binder(arena, chain, name, from + 1, (steps - 1) as nat);
        } else {
            assert(chain.last() == ctx);
            assert(first_binder(arena, chain, name, from + 1) is None);
            match arena[ctx as int].parent {
                Some(parent) => {
                    assert(holder_within(arena, parent, name, (steps - 1) as nat) is None);
                },
                None => {},
            }
        }
    }
}

/// Whether a token is a number or a name.
pub open spec fn is_operand(token: TokenView) -> bool {
    token.kind == TokenKind::Number || token.kind == TokenKind::Identifier
}

/// The tree of a number or a name.
pub open spec fn operand_tree(token: TokenView) -> ExprView {
    if token.kind == TokenKind::Number {
        ExprView::Number(token.value)
    } else {
        ExprView::Identifier(token.value)
    }
}

/// An operator token.
pub open spec fn operator_token(symbol: Seq<char>) -> TokenView {
    TokenView { kind: TokenKind::BinaryOperator, value: symbol }
}

/// An arithmetic expression of two operands.
pub open spec fn binary_tree(left: ExprView, op: Seq<char>, right: ExprView) -> ExprView {
    ExprView::BinaryExpr { left: Box::new(left), right: Box::new(right), op }
}

/// Multiplication binds tighter than addition: for any three numbers or
/// names, any of `+ -` and any of `* / %`, the tokens of `a + b * c` parse to
/// the sum of `a` and the product of `b` and `c`, not to the product of a
/// sum.
pub proof fn law_multiplication_binds_tighter(
    a: TokenView,
    b: TokenView,
    c: TokenView,
    low: Seq<char>,
    high: Seq<char>,
)
    requires
        is_operand(a),
        is_operand(b),
        is_operand(c),
        is_additive(low),
        is_multiplicative(high),
    ensures
        program(seq![a, operator_token(low), b, operator_token(high), c, end_of_input()])
            == Ok::<ExprView, Seq<char>>(
            ExprView::Program(
                seq![
                    binary_tree(
                        operand_tree(a),
                        low,
                        binary_tree(operand_tree(b), high, operand_tree(c)),
                    ),
                ],
            ),
        ),
{
    reveal_strlit("+");
    reveal_strlit("-");
    reveal_strlit("*");
    reveal_strlit("/");
    reveal_strlit("%");
    reveal_strlit("EOF");
    assert("+"@[0] == '+' && "-"@[0] == '-' && "*"@[0] == '*' && "/"@[0] == '/' && "%"@[0] == '%');
    assert(!is_multiplicative(low) && !is_additive(high));
    assert(!is_additive("EOF"@) && !is_multiplicative("EOF"@));
    let t = seq![a, operator_token(low), b, operator_token(high), c, end_of_input()];
    let na = operand_tree(a);
    let nb = operand_tree(b);
    let nc = operand_tree(c);
    let product = binary_tree(nb, high, nc);
    let whole = binary_tree(na, low, product);
    // The first operand.
    assert(primary(t, 0) == Ok::<(ExprView, int), Seq<char>>((na, 1)));
    assert(member_from(t, 1, na) == Ok::<(ExprView, int), Seq<char>>((na, 1)));
    assert(member(t, 0) == Ok::<(ExprView, int), Seq<char>>((na, 1)));
    assert(call_member(t, 0) == Ok::<(ExprView, int), Seq<char>>((na, 1)));
    assert(multiplicative_from(t, 1, na) == Ok::<(ExprView, int), Seq<char>>((na, 1)));
    assert(multiplicative(t, 0) == Ok::<(ExprView, int), Seq<char>>((na, 1)));
    // The product.
    assert(primary(t, 2) == Ok::<(ExprView, int), Seq<char>>((nb, 3)));
    assert(member_from(t, 3, nb) == Ok::<(ExprView, int), Seq<char>>((nb, 3)));
    assert(member(t, 2) == Ok::<(ExprView, int), Seq<char>>((nb, 3)));
    assert(call_member(t, 2) == Ok::<(ExprView, int), Seq<char>>((nb, 3)));
    assert(primary(t, 4) == Ok::<(ExprView, int), Seq<char>>((nc, 5)));
    assert(member_from(t, 5, nc) == Ok::<(ExprView, int), Seq<char>>((nc, 5)));
    assert(member(t, 4) == Ok::<(ExprView, int), Seq<char>>((nc, 5)));
    assert(call_member(t, 4) == Ok::<(ExprView, int), Seq<char>>((nc, 5)));
    assert(multiplicative_from(t, 5, product) == Ok::<(ExprView, int), Seq<char>>((product, 5)));
    assert(multiplicative_from(t, 3, nb) == Ok::<(ExprView, int), Seq<char>>((product, 5)));
    assert(multiplicative(t, 2) == Ok::<(ExprView, int), Seq<char>>((product, 5)));
    // The sum.
    assert(additive_from(t, 5, whole) == Ok::<(ExprView, int), Seq<char>>((whole, 5)));
    assert(additive_from(t, 1, na) == Ok::<(ExprView, int), Seq<char>>((whole, 5)));
    assert(additive(t, 0) == Ok::<(ExprView, int), Seq<char>>((whole, 5)));
    assert(comparison_from(t, 5, whole) == Ok::<(ExprView, int), Seq<char>>((whole, 5)));
    assert(comparison(t, 0) == Ok::<(ExprView, int), Seq<char>>((whole, 5)));
    assert(object(t, 0) == Ok::<(ExprView, int), Seq<char>>((whole, 5)));
    assert(assignment(t, 0) == Ok::<(ExprView, int), Seq<char>>((whole, 5)));
    assert(expr(t, 0) == Ok::<(ExprView, int), Seq<char>>((whole, 5)));
    assert(statement(t, 0) == Ok::<(ExprView, int), Seq<char>>((whole, 5)));
    assert(Seq::<ExprView>::empty().push(whole) =~= seq![whole]);
    assert(program_from(t, 5, seq![whole]) == Ok::<ExprView, Seq<char>>(
        ExprView::Program(seq![whole]),
    ));
    assert(program_from(t, 0, Seq::empty()) == Ok::<ExprView, Seq<char>>(
        ExprView::Program(seq![whole]),
    ));
}

/// The same with the product first: the tokens of `a * b + c` parse to the
/// sum of the product of `a` and `b`, and `c`.
pub proof fn law_multiplication_binds_tighter_on_the_left(
    a: TokenView,
    b: TokenView,
    c: TokenView,
    high: Seq<char>,
    low: Seq<char>,
)
    requires
        is_operand(a),
        is_operand(b),
        is_operand(c),
        is_multiplicative(high),
        is_additive(low),
    ensures
        program(seq![a, operator_token(high), b, operator_token(low), c, end_of_input()])
            == Ok::<ExprView, Seq<char>>(
            ExprView::Program(
                seq![
                    binary_tree(
                        binary_tree(operand_tree(a), high, operand_tree(b)),
                        low,
                        operand_tree(c),
                    ),
                ],
            ),
        ),
{
    reveal_strlit("+");
    reveal_strlit("-");
    reveal_strlit("*");
    reveal_strlit("/");
    reveal_strlit("%");
    reveal_strlit("EOF");
    assert("+"@[0] == '+' && "-"@[0] == '-' && "*"@[0] == '*' && "/"@[0] == '/' && "%"@[0] == '%');
    assert(!is_multiplicative(low) && !is_additive(high));
    assert(!is_additive("EOF"@) && !is_multiplicative("EOF"@));
    let t = seq![a, operator_token(high), b, operator_token(low), c, end_of_input()];
    let na = operand_tree(a);
    let nb = operand_tree(b);
    let nc = operand_tree(c);
    let product = binary_tree(na, high, nb);
    let whole = binary_tree(product, low, nc);
    // The product.
    assert(primary(t, 0) == Ok::<(ExprView, int), Seq<char>>((na, 1)));
    assert(member_from(t, 1, na) == Ok::<(ExprView, int), Seq<char>>((na, 1)));
    assert(member(t, 0) == Ok::<(ExprView, int), Seq<char>>((na, 1)));
    assert(call_member(t, 0) == Ok::<(ExprView, int), Seq<char>>((na, 1)));
    assert(primary(t, 2) == Ok::<(ExprView, int), Seq<char>>((nb, 3)));
    assert(member_from(t, 3, nb) == Ok::<(ExprView, int), Seq<char>>((nb, 3)));
    assert(member(t, 2) == Ok::<(ExprView, int), Seq<char>>((nb, 3)));
    assert(call_member(t, 2) == Ok::<(ExprView, int), Seq<char>>((nb, 3)));
    assert(multiplicative_from(t, 3, product) == Ok::<(ExprView, int), Seq<char>>((product, 3)));
    assert(multiplicative_from(t, 1, na) == Ok::<(ExprView, int), Seq<char>>((product, 3)));
    assert(multiplicative(t, 0) == Ok::<(ExprView, int), Seq<char>>((product, 3)));
    // The last operand.
    assert(primary(t, 4) == Ok::<(ExprView, int), Seq<char>>((nc, 5)));
    assert(member_from(t, 5, nc) == Ok::<(ExprView, int), Seq<char>>((nc, 5)));
    assert(member(t, 4) == Ok::<(ExprView, int), Seq<char>>((nc, 5)));
    assert(call_member(t, 4) == Ok::<(ExprView, int), Seq<char>>((nc, 5)));
    assert(multiplicative_from(t, 5, nc) == Ok::<(ExprView, int), Seq<char>>((nc, 5)));
    assert(multiplicative(t, 4) == Ok::<(ExprView, int), Seq<char>>((nc, 5)));
    // The sum.
    assert(additive_from(t, 5, whole) == Ok::<(ExprView, int), Seq<char>>((whole, 5)));
    assert(additive_from(t, 3, product) == Ok::<(ExprView, int), Seq<char>>((whole, 5)));
    assert(additive(t, 0) == Ok::<(ExprView, int), Seq<char>>((whole, 5)));
    assert(comparison_from(t, 5, whole) == Ok::<(ExprView, int), Seq<char>>((whole, 5)));
    assert(comparison(t, 0) == Ok::<(ExprView, int), Seq<char>>((whole, 5)));
    assert(object(t, 0) == Ok::<(ExprView, int), Seq<char>>((whole, 5)));
    assert(assignment(t, 0) == Ok::<(ExprView, int), Seq<char>>((whole, 5)));
    assert(expr(t, 0) == Ok::<(ExprView, int), Seq<char>>((whole, 5)));
    assert(statement(t, 0) == Ok::<(ExprView, int), Seq<char>>((whole, 5)));
    assert(Seq::<ExprView>::empty().push(whole) =~= seq![whole]);
    assert(program_from(t, 5, seq![whole]) == Ok::<ExprView, Seq<char>>(
        ExprView::Program(seq![whole]),
    ));
    assert(program_from(t, 0, Seq::empty()) == Ok::<ExprView, Seq<char>>(
        ExprView::Program(seq![whole]),
    ));
}

/// A loop whose first statement is `break` ends at once, with no value.
pub proof fn law_loop_that_breaks_at_once(
    ctx: RefContext,
    world: World,
    fuel: u64,
    log: Seq<Exchange>,
)
    ensures
        eval_spec(ExprView::Loop { body: seq![ExprView::Break] }, ctx, world, fuel, log) == done(
            ValueView::Never,
            world,
        ),
{
    let body = seq![ExprView::Break];
    assert(eval_spec(body[0], ctx, world, fuel, log) == done(
        ValueView::Signal(SignalView::Break),
        world,
    ));
    assert(eval_rounds(body, 0, ValueView::Never, ctx, world, fuel, log) == done(
        ValueView::Never,
        world,
    ));
}

/// A `break` gives the loop the value of the statement before it: a loop of
/// one statement and a `break` has the value of that statement, where it is
/// no signal.
pub proof fn law_break_gives_the_value_before(
    statement: ExprView,
    ctx: RefContext,
    world: World,
    fuel: u64,
    log: Seq<Exchange>,
)
    requires
        eval_spec(statement, ctx, world, fuel, log).result matches Ok(value) && !(value
            is Signal),
    ensures
        eval_spec(
            ExprView::Loop { body: seq![statement, ExprView::Break] },
            ctx,
            world,
            fuel,
            log,
        ) == done(
            eval_spec(statement, ctx, world, fuel, log).result->Ok_0,
            eval_spec(statement, ctx, world, fuel, log).world,
        ),
{
    let body = seq![statement, ExprView::Break];
    let first = eval_spec(statement, ctx, world, fuel, log);
    let value = first.result->Ok_0;
    assert(body[0] == statement);
    assert(eval_spec(body[1], ctx, first.world, fuel, log) == done(
        ValueView::Signal(SignalView::Break),
        first.world,
    ));
    assert(eval_rounds(body, 1, value, ctx, first.world, fuel, log) == done(value, first.world));
    assert(eval_rounds(body, 0, ValueView::Never, ctx, world, fuel, log) == done(
        value,
        first.world,
    ));
}

/// Whether an evaluation stopped for want of fuel.
pub open spec fn starved<T>(result: Result<T, Halt>) -> bool {
    result == Err::<T, Halt>(Halt::Fault(Fault::OutOfFuel))
}

/// Fuel is a budget and nothing else: an evaluation that does not run out of
/// fuel gives the same value and the same world with any larger budget.
pub proof fn law_more_fuel_same_outcome(
    node: ExprView,
    ctx: RefContext,
    world: World,
    fuel: u64,
    more: u64,
    log: Seq<Exchange>,
)
    requires
        fuel <= more,
        !starved(eval_spec(node, ctx, world, fuel, log).result),
    ensures
        eval_spec(node, ctx, world, more, log) == eval_spec(node, ctx, world, fuel, log),
    decreases fuel, node, 1int,
{
    match node {
        ExprView::Program(body) => {
            lemma_more_fuel_block(body, 0, ValueView::Never, ctx, world, fuel, more, log);
        },
        ExprView::Body { body } => {
            lemma_more_fuel_block(body, 0, ValueView::Never, ctx, world, fuel, more, log);
        },
        ExprView::Loop { body } => {
            lemma_more_fuel_rounds(body, 0, ValueView::Never, ctx, world, fuel, more, log);
        },
        ExprView::Return { expr } => {
            law_more_fuel_same_outcome(*expr, ctx, world, fuel, more, log);
        },
        ExprView::BinaryExpr { left, right, op } => {
            lemma_more_fuel_pair(*left, *right, ctx, world, fuel, more, log, node);
        },
        ExprView::Eq { left, right } => {
            lemma_more_fuel_pair(*left, *right, ctx, world, fuel, more, log, node);
        },
        ExprView::NotEq { left, right } => {
            lemma_more_fuel_pair(*left, *right, ctx, world, fuel, more, log, node);
        },
        ExprView::VarDecl { constant, identifier, value } => {
            lemma_more_fuel_declaration(identifier, *value, ctx, world, fuel, more, log);
        },
        ExprView::AssignExpr { target, value } => {
            match *target {
                ExprView::Identifier(name) => {
                    lemma_more_fuel_declaration(name, *value, ctx, world, fuel, more, log);
                },
                _ => {},
            }
        },
        ExprView::IfExpr { when, then_branch, other } => {
            law_more_fuel_same_outcome(*when, ctx, world, fuel, more, log);
            let condition = eval_spec(*when, ctx, world, fuel, log);
            match condition.result {
                Ok(ValueView::Bool(true)) => {
                    law_more_fuel_same_outcome(
                        *then_branch,
                        ctx,
                        condition.world,
                        fuel,
                        more,
                        log,
                    );
                },
                Ok(ValueView::Bool(false)) => {
                    match other {
                        Some(e) => {
                            law_more_fuel_same_outcome(*e, ctx, condition.world, fuel, more, log);
                        },
                        None => {},
                    }
                },
                _ => {},
            }
        },
        ExprView::Object { props } => {
            lemma_more_fuel_props(props, 0, Map::empty(), ctx, world, fuel, more, log);
        },
        ExprView::CallExpr { caller, args } => {
            lemma_more_fuel_list(args, 0, Seq::empty(), ctx, world, fuel, more, log);
            let evaluated = eval_list(args, 0, Seq::empty(), ctx, world, fuel, log);
            match evaluated.result {
                Ok(values) => {
                    law_more_fuel_same_outcome(*caller, ctx, evaluated.world, fuel, more, log);
                    let callee = eval_spec(*caller, ctx, evaluated.world, fuel, log);
                    match callee.result {
                        Ok(f) => {
                            lemma_more_fuel_apply(
                                f,
                                values,
                                *caller,
                                ctx,
                                callee.world,
                                fuel,
                                more,
                                log,
                            );
                        },
                        Err(_) => {},
                    }
                },
                Err(_) => {},
            }
        },
        _ => {},
    }
}

/// The same for a declaration.
pub proof fn lemma_more_fuel_declaration(
    name: Seq<char>,
    value: ExprView,
    ctx: RefContext,
    world: World,
    fuel: u64,
    more: u64,
    log: Seq<Exchange>,
)
    requires
        fuel <= more,
        !starved(eval_declaration(name, value, ctx, world, fuel, log).result),
    ensures
        eval_declaration(name, value, ctx, world, more, log) == eval_declaration(
            name,
            value,
            ctx,
            world,
            fuel,
            log,
        ),
    decreases fuel, value, 2int,
{
    law_more_fuel_same_outcome(value, ctx, world, fuel, more, log);
}

/// The same for two operands evaluated one after the other.
proof fn lemma_more_fuel_pair(
    left: ExprView,
    right: ExprView,
    ctx: RefContext,
    world: World,
    fuel: u64,
    more: u64,
    log: Seq<Exchange>,
    whole: ExprView,
)
    requires
        fuel <= more,
        decreases_to!(whole => left),
        decreases_to!(whole => right),
        !starved(eval_spec(left, ctx, world, fuel, log).result),
        eval_spec(left, ctx, world, fuel, log).result is Ok ==> !starved(
            eval_spec(right, ctx, eval_spec(left, ctx, world, fuel, log).world, fuel, log).result,
        ),
    ensures
        eval_spec(left, ctx, world, more, log) == eval_spec(left, ctx, world, fuel, log),
        eval_spec(left, ctx, world, fuel, log).result is Ok ==> eval_spec(
            right,
            ctx,
            eval_spec(left, ctx, world, fuel, log).world,
            more,
            log,
        ) == eval_spec(right, ctx, eval_spec(left, ctx, world, fuel, log).world, fuel, log),
    decreases fuel, whole, 0int,
{
    law_more_fuel_same_outcome(left, ctx, world, fuel, more, log);
    let lhs = eval_spec(left, ctx, world, fuel, log);
    if lhs.result is Ok {
        law_more_fuel_same_outcome(right, ctx, lhs.world, fuel, more, log);
    }
}

/// The same for the statements of a block.
pub proof fn lemma_more_fuel_block(
    body: Seq<ExprView>,
    index: int,
    last: ValueView,
    ctx: RefContext,
    world: World,
    fuel: u64,
    more: u64,
    log: Seq<Exchange>,
)
    requires
        fuel <= more,
        !starved(eval_block(body, index, last, ctx, world, fuel, log).result),
    ensures
        eval_block(body, index, last, ctx, world, more, log) == eval_block(
            body,
            index,
            last,
            ctx,
            world,
            fuel,
            log,
        ),
    decreases fuel, body, body.len() - index,
{
    if 0 <= index < body.len() {
        law_more_fuel_same_outcome(body[index], ctx, world, fuel, more, log);
        let line = eval_spec(body[index], ctx, world, fuel, log);
        match line.result {
            Ok(ValueView::Signal(_)) => {},
            Ok(value) => {
                lemma_more_fuel_block(body, index + 1, value, ctx, line.world, fuel, more, log);
            },
            Err(_) => {},
        }
    }
}

/// The same for the rounds of a loop.
pub proof fn lemma_more_fuel_rounds(
    body: Seq<ExprView>,
    index: int,
    last: ValueView,
    ctx: RefContext,
    world: World,
    fuel: u64,
    more: u64,
    log: Seq<Exchange>,
)
    requires
        fuel <= more,
        !starved(eval_rounds(body, index, last, ctx, world, fuel, log).result),
    ensures
        eval_rounds(body, index, last, ctx, world, more, log) == eval_rounds(
            body,
            index,
            last,
            ctx,
            world,
            fuel,
            log,
        ),
    decreases fuel, body, body.len() - index,
{
    if 0 <= index < body.len() {
        law_more_fuel_same_outcome(body[index], ctx, world, fuel, more, log);
        let line = eval_spec(body[index], ctx, world, fuel, log);
        match line.result {
            Ok(ValueView::Signal(_)) => {},
            Ok(value) => {
                lemma_more_fuel_rounds(body, index + 1, value, ctx, line.world, fuel, more, log);
            },
            Err(_) => {},
        }
    } else if fuel > 0 {
        lemma_more_fuel_rounds(
            body,
            0,
            last,
            ctx,
            world,
            (fuel - 1) as u64,
            (more - 1) as u64,
            log,
        );
    }
}

/// The same for a list of expressions.
pub proof fn lemma_more_fuel_list(
    list: Seq<ExprView>,
    index: int,
    values: Seq<ValueView>,
    ctx: RefContext,
    world: World,
    fuel: u64,
    more: u64,
    log: Seq<Exchange>,
)
    requires
        fuel <= more,
        !starved(eval_list(list, index, values, ctx, world, fuel, log).result),
    ensures
        eval_list(list, index, values, ctx, world, more, log) == eval_list(
            list,
            index,
            values,
            ctx,
            world,
            fuel,
            log,
        ),
    decreases fuel, list, list.len() - index,
{
    if 0 <= index < list.len() {
        law_more_fuel_same_outcome(list[index], ctx, world, fuel, more, log);
        let item = eval_spec(list[index], ctx, world, fuel, log);
        match item.result {
            Ok(value) => {
                lemma_more_fuel_list(
                    list,
                    index + 1,
                    values.push(value),
                    ctx,
                    item.world,
                    fuel,
                    more,
                    log,
                );
            },
            Err(_) => {},
        }
    }
}

/// The same for the properties of an object literal.
pub proof fn lemma_more_fuel_props(
    props: Seq<PropertyView>,
    index: int,
    fields: Map<Seq<char>, ValueView>,
    ctx: RefContext,
    world: World,
    fuel: u64,
    more: u64,
    log: Seq<Exchange>,
)
    requires
        fuel <= more,
        !starved(eval_props(props, index, fields, ctx, world, fuel, log).result),
    ensures
        eval_props(props, index, fields, ctx, world, more, log) == eval_props(
            props,
            index,
            fields,
            ctx,
            world,
            fuel,
            log,
        ),
    decreases fuel, props, props.len() - index,
{
    if 0 <= index < props.len() {
        let name = props[index].identifier;
        match props[index].value {
            Some(e) => {
                law_more_fuel_same_outcome(e, ctx, world, fuel, more, log);
                let item = eval_spec(e, ctx, world, fuel, log);
                match item.result {
                    Ok(value) => {
                        lemma_more_fuel_props(
                            props,
                            index + 1,
                            fields.insert(name, value),
                            ctx,
                            item.world,
                            fuel,
                            more,
                            log,
                        );
                    },
                    Err(_) => {},
                }
            },
            None => {
                lemma_more_fuel_props(
                    props,
                    index + 1,
                    fields.insert(name, identifier_value(world.arena, ctx, name)),
                    ctx,
                    world,
                    fuel,
                    more,
                    log,
                );
            },
        }
    }
}

/// The same for the application of a callee.
pub proof fn lemma_more_fuel_apply(
    callee: ValueView,
    args: Seq<ValueView>,
    caller: ExprView,
    ctx: RefContext,
    world: World,
    fuel: u64,
    more: u64,
    log: Seq<Exchange>,
)
    requires
        fuel <= more,
        !starved(apply_spec(callee, args, caller, ctx, world, fuel, log).result),
    ensures
        apply_spec(callee, args, caller, ctx, world, more, log) == apply_spec(
            callee,
            args,
            caller,
            ctx,
            world,
            fuel,
            log,
        ),
    decreases fuel, caller, 0int,
{
    match callee {
        ValueView::Fn { identifier, params, body, decl_ctx } => {
            if args.len() >= params.len() && first_signal(args, params.len()) is None && decl_ctx
                < world.arena.len() && fuel > 0 {
                let inner = world.arena.len() as usize;
                let entered = World {
                    arena: world.arena.push(
                        ContextView {
                            parent: Some(decl_ctx),
                            variables: bound_parameters(params, args, params.len()),
                        },
                    ),
                    asked: world.asked,
                };
                law_more_fuel_same_outcome(
                    *body,
                    inner,
                    entered,
                    (fuel - 1) as u64,
                    (more - 1) as u64,
                    log,
                );
            }
        },
        _ => {},
    }
}

/// Whether the host binds no name to a signal.
pub open spec fn host_binds_no_signal(log: Seq<Exchange>) -> bool {
    forall|i: int|
        0 <= i < log.len() ==> ((#[trigger] log[i]).reply matches Reply::Returned { arena, .. }
            ==> binds_no_signal(arena))
}

/// Whether no scope binds a name to a signal.
pub open spec fn binds_no_signal(arena: Seq<ContextView>) -> bool {
    forall|ctx: int, name: Seq<char>|
        0 <= ctx < arena.len() && #[trigger] arena[ctx].variables.contains_key(name) ==> !(
        arena[ctx].variables[name] is Signal)
}

/// A signal is a marker on the way out of a block, a loop or a call, and never
/// a stored value: where no scope binds a name to a signal before an
/// expression is evaluated, none does after it, unless a function of the
/// host binds one.
pub proof fn law_no_signal_is_bound(
    node: ExprView,
    ctx: RefContext,
    world: World,
    fuel: u64,
    log: Seq<Exchange>,
)
    requires
        binds_no_signal(world.arena),
        host_binds_no_signal(log),
    ensures
        binds_no_signal(eval_spec(node, ctx, world, fuel, log).world.arena),
    decreases fuel, node, 1int,
{
    match node {
        ExprView::Program(body) => {
            lemma_no_signal_block(body, 0, ValueView::Never, ctx, world, fuel, log);
        },
        ExprView::Body { body } => {
            lemma_no_signal_block(body, 0, ValueView::Never, ctx, world, fuel, log);
        },
        ExprView::Loop { body } => {
            lemma_no_signal_rounds(body, 0, ValueView::Never, ctx, world, fuel, log);
        },
        ExprView::Return { expr } => {
            law_no_signal_is_bound(*expr, ctx, world, fuel, log);
        },
        ExprView::BinaryExpr { left, right, op } => {
            lemma_no_signal_pair(*left, *right, ctx, world, fuel, log, node);
        },
        ExprView::Eq { left, right } => {
            lemma_no_signal_pair(*left, *right, ctx, world, fuel, log, node);
        },
        ExprView::NotEq { left, right } => {
            lemma_no_signal_pair(*left, *right, ctx, world, fuel, log, node);
        },
        ExprView::VarDecl { constant, identifier, value } => {
            lemma_no_signal_declaration(identifier, *value, ctx, world, fuel, log);
        },
        ExprView::AssignExpr { target, value } => {
            match *target {
                ExprView::Identifier(name) => {
                    lemma_no_signal_declaration(name, *value, ctx, world, fuel, log);
                },
                _ => {},
            }
        },
        ExprView::FnDecl { identifier, params, body } => {
            let function = ValueView::Fn { identifier, params, body, decl_ctx: ctx };
            if ctx < world.arena.len() {
                lemma_declare_no_signal(world.arena, ctx, identifier, function);
            }
        },
        ExprView::IfExpr { when, then_branch, other } => {
            law_no_signal_is_bound(*when, ctx, world, fuel, log);
            let condition = eval_spec(*when, ctx, world, fuel, log);
            match condition.result {
                Ok(ValueView::Bool(true)) => {
                    law_no_signal_is_bound(*then_branch, ctx, condition.world, fuel, log);
                },
                Ok(ValueView::Bool(false)) => {
                    match other {
                        Some(e) => {
                            law_no_signal_is_bound(*e, ctx, condition.world, fuel, log);
                        },
                        None => {},
                    }
                },
                _ => {},
            }
        },
        ExprView::Object { props } => {
            lemma_no_signal_props(props, 0, Map::empty(), ctx, world, fuel, log);
        },
        ExprView::CallExpr { caller, args } => {
            lemma_no_signal_list(args, 0, Seq::empty(), ctx, world, fuel, log);
            let evaluated = eval_list(args, 0, Seq::empty(), ctx, world, fuel, log);
            match evaluated.result {
                Ok(values) => {
                    law_no_signal_is_bound(*caller, ctx, evaluated.world, fuel, log);
                    let callee = eval_spec(*caller, ctx, evaluated.world, fuel, log);
                    match callee.result {
                        Ok(f) => {
                            lemma_no_signal_apply(f, values, *caller, ctx, callee.world, fuel, log);
                        },
                        Err(_) => {},
                    }
                },
                Err(_) => {},
            }
        },
        _ => {},
    }
}

/// Binding a value that is no signal keeps the scopes free of signals.
pub proof fn lemma_declare_no_signal(
    arena: Seq<ContextView>,
    ctx: RefContext,
    name: Seq<char>,
    value: ValueView,
)
    requires
        binds_no_signal(arena),
        ctx < arena.len(),
        !(value is Signal),
    ensures
        binds_no_signal(declare(arena, ctx, name, value)),
{
    let after = declare(arena, ctx, name, value);
    assert forall|at: int, other: Seq<char>|
        0 <= at < after.len() && #[trigger] after[at].variables.contains_key(other) implies !(
    after[at].variables[other] is Signal) by {
        if at == ctx && other == name {
        } else {
            assert(arena[at].variables.contains_key(other));
        }
    }
}

/// The parameters of a call are bound to arguments among those that were to
/// be bound.
pub proof fn lemma_bound_parameters_no_signal(
    params: Seq<Seq<char>>,
    args: Seq<ValueView>,
    count: nat,
    name: Seq<char>,
)
    requires
        first_signal(args, count) is None,
        bound_parameters(params, args, count).contains_key(name),
    ensures
        !(bound_parameters(params, args, count)[name] is Signal),
    decreases count,
{
    if count > 0 {
        if name != params[count - 1] {
            lemma_bound_parameters_no_signal(params, args, (count - 1) as nat, name);
        }
    }
}

proof fn lemma_no_signal_pair(
    left: ExprView,
    right: ExprView,
    ctx: RefContext,
    world: World,
    fuel: u64,
    log: Seq<Exchange>,
    whole: ExprView,
)
    requires
        binds_no_signal(world.arena),
        host_binds_no_signal(log),
        decreases_to!(whole => left),
        decreases_to!(whole => right),
    ensures
        binds_no_signal(eval_spec(left, ctx, world, fuel, log).world.arena),
        binds_no_signal(
            eval_spec(
                right,
                ctx,
                eval_spec(left, ctx, world, fuel, log).world,
                fuel,
                log,
            ).world.arena,
        ),
    decreases fuel, whole, 0int,
{
    law_no_signal_is_bound(left, ctx, world, fuel, log);
    law_no_signal_is_bound(right, ctx, eval_spec(left, ctx, world, fuel, log).world, fuel, log);
}

/// The same for a declaration.
pub proof fn lemma_no_signal_declaration(
    name: Seq<char>,
    value: ExprView,
    ctx: RefContext,
    world: World,
    fuel: u64,
    log: Seq<Exchange>,
)
    requires
        binds_no_signal(world.arena),
        host_binds_no_signal(log),
    ensures
        binds_no_signal(eval_declaration(name, value, ctx, world, fuel, log).world.arena),
    decreases fuel, value, 2int,
{
    law_no_signal_is_bound(value, ctx, world, fuel, log);
    let bound = eval_spec(value, ctx, world, fuel, log);
    match bound.result {
        Ok(v) => {
            if !(v is Signal) && ctx < bound.world.arena.len() {
                lemma_declare_no_signal(bound.world.arena, ctx, name, v);
            }
        },
        Err(_) => {},
    }
}

/// The same for the statements of a block.
pub proof fn lemma_no_signal_block(
    body: Seq<ExprView>,
    index: int,
    last: ValueView,
    ctx: RefContext,
    world: World,
    fuel: u64,
    log: Seq<Exchange>,
)
    requires
        binds_no_signal(world.arena),
        host_binds_no_signal(log),
    ensures
        binds_no_signal(eval_block(body, index, last, ctx, world, fuel, log).world.arena),
    decreases fuel, body, body.len() - index,
{
    if 0 <= index < body.len() {
        law_no_signal_is_bound(body[index], ctx, world, fuel, log);
        let line = eval_spec(body[index], ctx, world, fuel, log);
        match line.result {
            Ok(ValueView::Signal(_)) => {},
            Ok(value) => {
                lemma_no_signal_block(body, index + 1, value, ctx, line.world, fuel, log);
            },
            Err(_) => {},
        }
    }
}

/// The same for the rounds of a loop.
pub proof fn lemma_no_signal_rounds(
    body: Seq<ExprView>,
    index: int,
    last: ValueView,
    ctx: RefContext,
    world: World,
    fuel: u64,
    log: Seq<Exchange>,
)
    requires
        binds_no_signal(world.arena),
        host_binds_no_signal(log),
    ensures
        binds_no_signal(eval_rounds(body, index, last, ctx, world, fuel, log).world.arena),
    decreases fuel, body, body.len() - index,
{
    if 0 <= index < body.len() {
        law_no_signal_is_bound(body[index], ctx, world, fuel, log);
        let line = eval_spec(body[index], ctx, world, fuel, log);
        match line.result {
            Ok(ValueView::Signal(_)) => {},
            Ok(value) => {
                lemma_no_signal_rounds(body, index + 1, value, ctx, line.world, fuel, log);
            },
            Err(_) => {},
        }
    } else if fuel > 0 {
        lemma_no_signal_rounds(body, 0, last, ctx, world, (fuel - 1) as u64, log);
    }
}

/// The same for a list of expressions.
pub proof fn lemma_no_signal_list(
    list: Seq<ExprView>,
    index: int,
    values: Seq<ValueView>,
    ctx: RefContext,
    world: World,
    fuel: u64,
    log: Seq<Exchange>,
)
    requires
        binds_no_signal(world.arena),
        host_binds_no_signal(log),
    ensures
        binds_no_signal(eval_list(list, index, values, ctx, world, fuel, log).world.arena),
    decreases fuel, list, list.len() - index,
{
    if 0 <= index < list.len() {
        law_no_signal_is_bound(list[index], ctx, world, fuel, log);
        let item = eval_spec(list[index], ctx, world, fuel, log);
        match item.result {
            Ok(value) => {
                lemma_no_signal_list(
                    list,
                    index + 1,
                    values.push(value),
                    ctx,
                    item.world,
                    fuel,
                    log,
                );
            },
            Err(_) => {},
        }
    }
}

/// The same for the properties of an object literal.
pub proof fn lemma_no_signal_props(
    props: Seq<PropertyView>,
    index: int,
    fields: Map<Seq<char>, ValueView>,
    ctx: RefContext,
    world: World,
    fuel: u64,
    log: Seq<Exchange>,
)
    requires
        binds_no_signal(world.arena),
        host_binds_no_signal(log),
    ensures
        binds_no_signal(eval_props(props, index, fields, ctx, world, fuel, log).world.arena),
    decreases fuel, props, props.len() - index,
{
    if 0 <= index < props.len() {
        let name = props[index].identifier;
        match props[index].value {
            Some(e) => {
                law_no_signal_is_bound(e, ctx, world, fuel, log);
                let item = eval_spec(e, ctx, world, fuel, log);
                match item.result {
                    Ok(value) => {
                        lemma_no_signal_props(
                            props,
                            index + 1,
                            fields.insert(name, value),
                            ctx,
                            item.world,
                            fuel,
                            log,
                        );
                    },
                    Err(_) => {},
                }
            },
            None => {
                lemma_no_signal_props(
                    props,
                    index + 1,
                    fields.insert(name, identifier_value(world.arena, ctx, name)),
                    ctx,
                    world,
                    fuel,
                    log,
                );
            },
        }
    }
}

/// The same for the application of a callee.
pub proof fn lemma_no_signal_apply(
    callee: ValueView,
    args: Seq<ValueView>,
    caller: ExprView,
    ctx: RefContext,
    world: World,
    fuel: u64,
    log: Seq<Exchange>,
)
    requires
        binds_no_signal(world.arena),
        host_binds_no_signal(log),
    ensures
        binds_no_signal(apply_spec(callee, args, caller, ctx, world, fuel, log).world.arena),
    decreases fuel, caller, 0int,
{
    match callee {
        ValueView::Fn { identifier, params, body, decl_ctx } => {
            if args.len() >= params.len() && first_signal(args, params.len()) is None && decl_ctx
                < world.arena.len() && fuel > 0 {
                let inner = world.arena.len() as usize;
                let scope = ContextView {
                    parent: Some(decl_ctx),
                    variables: bound_parameters(params, args, params.len()),
                };
                let entered = World { arena: world.arena.push(scope), asked: world.asked };
                assert forall|at: int, name: Seq<char>|
                    0 <= at < entered.arena.len() && #[trigger] entered.arena[at].variables.contains_key(
                        name,
                    ) implies !(entered.arena[at].variables[name] is Signal) by {
                    if at == world.arena.len() {
                        lemma_bound_parameters_no_signal(params, args, params.len(), name);
                    } else {
                        assert(world.arena[at].variables.contains_key(name));
                    }
                }
                law_no_signal_is_bound(*body, inner, entered, (fuel - 1) as u64, log);
            }
        },
        _ => {},
    }
}

/// Whether the function that a value hands on, if it hands one on, was
/// declared in a scope below `limit`.
pub open spec fn scopes_below(value: ValueView, limit: nat) -> bool
    decreases value,
{
    match value {
        ValueView::Fn { decl_ctx, .. } => decl_ctx < limit,
        ValueView::Signal(SignalView::Return(inner)) => scopes_below(*inner, limit),
        _ => true,
    }
}

/// Whether the scopes are sound: every function that a scope binds was
/// declared in a scope of the arena, and every parent link points to an older
/// scope.
pub open spec fn sound(arena: Seq<ContextView>) -> bool {
    &&& ordered(arena)
    &&& forall|ctx: int, name: Seq<char>|
        0 <= ctx < arena.len() && #[trigger] arena[ctx].variables.contains_key(name)
            ==> scopes_below(arena[ctx].variables[name], arena.len())
}

/// Whether the host keeps the scopes sound: a function of the host removes no
/// scope, leaves the scopes sound, and hands back no function that was
/// declared outside them.
pub open spec fn host_sound(log: Seq<Exchange>) -> bool {
    forall|i: int|
        0 <= i < log.len() ==> ((#[trigger] log[i]).reply matches Reply::Returned { value, arena }
            ==> {
            &&& sound(arena)
            &&& scopes_below(value, arena.len())
            &&& (log[i].request matches Request::CallExtern { arena: before, .. }
                ==> before.len() <= arena.len())
        })
}

/// What an evaluation leaves behind where it started from sound scopes: no
/// handle was found dangling, the scopes are sound and none was removed, and
/// a function that comes out was declared in one of them.
pub open spec fn settled(before: World, after: World, result: Result<ValueView, Halt>) -> bool {
    &&& result != Err::<ValueView, Halt>(Halt::Fault(Fault::DanglingContext))
    &&& sound(after.arena)
    &&& before.arena.len() <= after.arena.len()
    &&& (result matches Ok(value) ==> scopes_below(value, after.arena.len()))
}

/// Handles never dangle: where the scopes are sound, the host keeps them so,
/// and the current scope is one of the arena, an evaluation never finds a
/// handle that points outside the arena, and leaves the scopes sound: every
/// function was declared in a scope of the arena, and every parent link,
/// those of the scopes of its calls too, points to an older scope.
pub proof fn law_handles_never_dangle(
    node: ExprView,
    ctx: RefContext,
    world: World,
    fuel: u64,
    log: Seq<Exchange>,
)
    requires
        sound(world.arena),
        ctx < world.arena.len(),
        host_sound(log),
    ensures
        settled(
            world,
            eval_spec(node, ctx, world, fuel, log).world,
            eval_spec(node, ctx, world, fuel, log).result,
        ),
    decreases fuel, node, 1int,
{
    match node {
        ExprView::Program(body) => {
            lemma_sound_block(body, 0, ValueView::Never, ctx, world, fuel, log);
        },
        ExprView::Body { body } => {
            lemma_sound_block(body, 0, ValueView::Never, ctx, world, fuel, log);
        },
        ExprView::Loop { body } => {
            lemma_sound_rounds(body, 0, ValueView::Never, ctx, world, fuel, log);
        },
        ExprView::Identifier(name) => {
            lemma_holder(world.arena, ctx, name);
        },
        ExprView::Return { expr } => {
            law_handles_never_dangle(*expr, ctx, world, fuel, log);
        },
        ExprView::BinaryExpr { left, right, op } => {
            lemma_sound_pair(*left, *right, ctx, world, fuel, log, node);
        },
        ExprView::Eq { left, right } => {
            lemma_sound_pair(*left, *right, ctx, world, fuel, log, node);
        },
        ExprView::NotEq { left, right } => {
            lemma_sound_pair(*left, *right, ctx, world, fuel, log, node);
        },
        ExprView::VarDecl { constant, identifier, value } => {
            lemma_sound_declaration(identifier, *value, ctx, world, fuel, log);
        },
        ExprView::AssignExpr { target, value } => {
            match *target {
                ExprView::Identifier(name) => {
                    lemma_sound_declaration(name, *value, ctx, world, fuel, log);
                },
                _ => {},
            }
        },
        ExprView::FnDecl { identifier, params, body } => {
            let function = ValueView::Fn { identifier, params, body, decl_ctx: ctx };
            lemma_declare_sound(world.arena, ctx, identifier, function);
        },
        ExprView::IfExpr { when, then_branch, other } => {
            law_handles_never_dangle(*when, ctx, world, fuel, log);
            let condition = eval_spec(*when, ctx, world, fuel, log);
            match condition.result {
                Ok(ValueView::Bool(true)) => {
                    law_handles_never_dangle(*then_branch, ctx, condition.world, fuel, log);
                },
                Ok(ValueView::Bool(false)) => {
                    match other {
                        Some(e) => {
                            law_handles_never_dangle(*e, ctx, condition.world, fuel, log);
                        },
                        None => {},
                    }
                },
                _ => {},
            }
        },
        ExprView::Object { props } => {
            lemma_sound_props(props, 0, Map::empty(), ctx, world, fuel, log);
        },
        ExprView::CallExpr { caller, args } => {
            lemma_sound_list(args, 0, Seq::empty(), ctx, world, fuel, log);
            let evaluated = eval_list(args, 0, Seq::empty(), ctx, world, fuel, log);
            match evaluated.result {
                Ok(values) => {
                    law_handles_never_dangle(*caller, ctx, evaluated.world, fuel, log);
                    let callee = eval_spec(*caller, ctx, evaluated.world, fuel, log);
                    match callee.result {
                        Ok(f) => {
                            assert forall|i: int| 0 <= i < values.len() implies scopes_below(
                                #[trigger] values[i],
                                callee.world.arena.len(),
                            ) by {
                                lemma_scopes_below_monotone(
                                    values[i],
                                    evaluated.world.arena.len(),
                                    callee.world.arena.len(),
                                );
                            }
                            lemma_sound_apply(f, values, *caller, ctx, callee.world, fuel, log);
                        },
                        Err(_) => {},
                    }
                },
                Err(_) => {},
            }
        },
        _ => {},
    }
}

/// A function declared below a limit is declared below any greater limit.
pub proof fn lemma_scopes_below_monotone(value: ValueView, limit: nat, greater: nat)
    requires
        limit <= greater,
        scopes_below(value, limit),
    ensures
        scopes_below(value, greater),
    decreases value,
{
    match value {
        ValueView::Signal(SignalView::Return(inner)) => {
            lemma_scopes_below_monotone(*inner, limit, greater);
        },
        _ => {},
    }
}

/// Binding a sound value keeps the scopes sound.
pub proof fn lemma_declare_sound(
    arena: Seq<ContextView>,
    ctx: RefContext,
    name: Seq<char>,
    value: ValueView,
)
    requires
        sound(arena),
        ctx < arena.len(),
        scopes_below(value, arena.len()),
    ensures
        sound(declare(arena, ctx, name, value)),
{
    let after = declare(arena, ctx, name, value);
    assert forall|at: int, other: Seq<char>|
        0 <= at < after.len() && #[trigger] after[at].variables.contains_key(
            other,
        ) implies scopes_below(after[at].variables[other], after.len()) by {
        if at == ctx && other == name {
        } else {
            assert(arena[at].variables.contains_key(other));
        }
    }
}

/// The scope of a call on sound arguments is sound, and so is the arena with
/// it.
pub proof fn lemma_enter_sound(
    arena: Seq<ContextView>,
    decl_ctx: RefContext,
    params: Seq<Seq<char>>,
    args: Seq<ValueView>,
)
    requires
        sound(arena),
        decl_ctx < arena.len(),
        params.len() <= args.len(),
        forall|i: int| 0 <= i < args.len() ==> scopes_below(#[trigger] args[i], arena.len()),
    ensures
        sound(
            arena.push(
                ContextView {
                    parent: Some(decl_ctx),
                    variables: bound_parameters(params, args, params.len()),
                },
            ),
        ),
{
    let scope = ContextView {
        parent: Some(decl_ctx),
        variables: bound_parameters(params, args, params.len()),
    };
    let after = arena.push(scope);
    assert forall|at: int, name: Seq<char>|
        0 <= at < after.len() && #[trigger] after[at].variables.contains_key(
            name,
        ) implies scopes_below(after[at].variables[name], after.len()) by {
        if at == arena.len() {
            lemma_bound_parameters_among(params, args, params.len(), name);
            let i = choose|i: int|
                0 <= i < params.len() && bound_parameters(params, args, params.len())[name]
                    == args[i];
            lemma_scopes_below_monotone(args[i], arena.len(), after.len());
        } else {
            assert(arena[at].variables.contains_key(name));
            lemma_scopes_below_monotone(arena[at].variables[name], arena.len(), after.len());
        }
    }
}

/// What a parameter is bound to is one of the arguments that were to be
/// bound.
pub proof fn lemma_bound_parameters_among(
    params: Seq<Seq<char>>,
    args: Seq<ValueView>,
    count: nat,
    name: Seq<char>,
)
    requires
        bound_parameters(params, args, count).contains_key(name),
    ensures
        exists|i: int| 0 <= i < count && bound_parameters(params, args, count)[name] == args[i],
    decreases count,
{
    if count > 0 {
        if name == params[count - 1] {
            assert(bound_parameters(params, args, count)[name] == args[count - 1]);
        } else {
            lemma_bound_parameters_among(params, args, (count - 1) as nat, name);
            let i = choose|i: int|
                0 <= i < count - 1 && bound_parameters(params, args, (count - 1) as nat)[name]
                    == args[i];
            assert(bound_parameters(params, args, count)[name] == args[i]);
        }
    }
}

proof fn lemma_sound_pair(
    left: ExprView,
    right: ExprView,
    ctx: RefContext,
    world: World,
    fuel: u64,
    log: Seq<Exchange>,
    whole: ExprView,
)
    requires
        sound(world.arena),
        ctx < world.arena.len(),
        host_sound(log),
        decreases_to!(whole => left),
        decreases_to!(whole => right),
    ensures
        settled(
            world,
            eval_spec(left, ctx, world, fuel, log).world,
            eval_spec(left, ctx, world, fuel, log).result,
        ),
        settled(
            world,
            eval_spec(right, ctx, eval_spec(left, ctx, world, fuel, log).world, fuel, log).world,
            eval_spec(right, ctx, eval_spec(left, ctx, world, fuel, log).world, fuel, log).result,
        ),
    decreases fuel, whole, 0int,
{
    law_handles_never_dangle(left, ctx, world, fuel, log);
    let lhs = eval_spec(left, ctx, world, fuel, log);
    law_handles_never_dangle(right, ctx, lhs.world, fuel, log);
}

/// The same for a declaration.
pub proof fn lemma_sound_declaration(
    name: Seq<char>,
    value: ExprView,
    ctx: RefContext,
    world: World,
    fuel: u64,
    log: Seq<Exchange>,
)
    requires
        sound(world.arena),
        ctx < world.arena.len(),
        host_sound(log),
    ensures
        settled(
            world,
            eval_declaration(name, value, ctx, world, fuel, log).world,
            eval_declaration(name, value, ctx, world, fuel, log).result,
        ),
    decreases fuel, value, 2int,
{
    law_handles_never_dangle(value, ctx, world, fuel, log);
    let bound = eval_spec(value, ctx, world, fuel, log);
    match bound.result {
        Ok(v) => {
            if !(v is Signal) {
                lemma_declare_sound(bound.world.arena, ctx, name, v);
            }
        },
        Err(_) => {},
    }
}

/// The same for the statements of a block.
pub proof fn lemma_sound_block(
    body: Seq<ExprView>,
    index: int,
    last: ValueView,
    ctx: RefContext,
    world: World,
    fuel: u64,
    log: Seq<Exchange>,
)
    requires
        sound(world.arena),
        ctx < world.arena.len(),
        host_sound(log),
        scopes_below(last, world.arena.len()),
    ensures
        settled(
            world,
            eval_block(body, index, last, ctx, world, fuel, log).world,
            eval_block(body, index, last, ctx, world, fuel, log).result,
        ),
    decreases fuel, body, body.len() - index,
{
    if 0 <= index < body.len() {
        law_handles_never_dangle(body[index], ctx, world, fuel, log);
        let line = eval_spec(body[index], ctx, world, fuel, log);
        match line.result {
            Ok(ValueView::Signal(_)) => {},
            Ok(value) => {
                lemma_sound_block(body, index + 1, value, ctx, line.world, fuel, log);
            },
            Err(_) => {},
        }
    }
}

/// The same for the rounds of a loop.
pub proof fn lemma_sound_rounds(
    body: Seq<ExprView>,
    index: int,
    last: ValueView,
    ctx: RefContext,
    world: World,
    fuel: u64,
    log: Seq<Exchange>,
)
    requires
        sound(world.arena),
        ctx < world.arena.len(),
        host_sound(log),
        scopes_below(last, world.arena.len()),
    ensures
        settled(
            world,
            eval_rounds(body, index, last, ctx, world, fuel, log).world,
            eval_rounds(body, index, last, ctx, world, fuel, log).result,
        ),
    decreases fuel, body, body.len() - index,
{
    if 0 <= index < body.len() {
        law_handles_never_dangle(body[index], ctx, world, fuel, log);
        let line = eval_spec(body[index], ctx, world, fuel, log);
        lemma_scopes_below_monotone(last, world.arena.len(), line.world.arena.len());
        match line.result {
            Ok(ValueView::Signal(_)) => {},
            Ok(value) => {
                lemma_sound_rounds(body, index + 1, value, ctx, line.world, fuel, log);
            },
            Err(_) => {},
        }
    } else if fuel > 0 {
        lemma_sound_rounds(body, 0, last, ctx, world, (fuel - 1) as u64, log);
    }
}

/// The same for a list of expressions: every value that comes out is sound.
pub proof fn lemma_sound_list(
    list: Seq<ExprView>,
    index: int,
    values: Seq<ValueView>,
    ctx: RefContext,
    world: World,
    fuel: u64,
    log: Seq<Exchange>,
)
    requires
        sound(world.arena),
        ctx < world.arena.len(),
        host_sound(log),
        forall|i: int| 0 <= i < values.len() ==> scopes_below(
            #[trigger] values[i],
            world.arena.len(),
        ),
    ensures
        ({
            let out = eval_list(list, index, values, ctx, world, fuel, log);
            &&& out.result != Err::<Seq<ValueView>, Halt>(Halt::Fault(Fault::DanglingContext))
            &&& sound(out.world.arena)
            &&& world.arena.len() <= out.world.arena.len()
            &&& (out.result matches Ok(all) ==> forall|i: int|
                0 <= i < all.len() ==> scopes_below(#[trigger] all[i], out.world.arena.len()))
        }),
    decreases fuel, list, list.len() - index,
{
    if 0 <= index < list.len() {
        law_handles_never_dangle(list[index], ctx, world, fuel, log);
        let item = eval_spec(list[index], ctx, world, fuel, log);
        match item.result {
            Ok(value) => {
                let longer = values.push(value);
                assert forall|i: int| 0 <= i < longer.len() implies scopes_below(
                    #[trigger] longer[i],
                    item.world.arena.len(),
                ) by {
                    if i < values.len() {
                        lemma_scopes_below_monotone(
                            values[i],
                            world.arena.len(),
                            item.world.arena.len(),
                        );
                    }
                }
                lemma_sound_list(list, index + 1, longer, ctx, item.world, fuel, log);
            },
            Err(_) => {},
        }
    }
}

/// The same for the properties of an object literal.
pub proof fn lemma_sound_props(
    props: Seq<PropertyView>,
    index: int,
    fields: Map<Seq<char>, ValueView>,
    ctx: RefContext,
    world: World,
    fuel: u64,
    log: Seq<Exchange>,
)
    requires
        sound(world.arena),
        ctx < world.arena.len(),
        host_sound(log),
    ensures
        settled(
            world,
            eval_props(props, index, fields, ctx, world, fuel, log).world,
            eval_props(props, index, fields, ctx, world, fuel, log).result,
        ),
    decreases fuel, props, props.len() - index,
{
    if 0 <= index < props.len() {
        let name = props[index].identifier;
        match props[index].value {
            Some(e) => {
                law_handles_never_dangle(e, ctx, world, fuel, log);
                let item = eval_spec(e, ctx, world, fuel, log);
                match item.result {
                    Ok(value) => {
                        lemma_sound_props(
                            props,
                            index + 1,
                            fields.insert(name, value),
                            ctx,
                            item.world,
                            fuel,
                            log,
                        );
                    },
                    Err(_) => {},
                }
            },
            None => {
                lemma_sound_props(
                    props,
                    index + 1,
                    fields.insert(name, identifier_value(world.arena, ctx, name)),
                    ctx,
                    world,
                    fuel,
                    log,
                );
            },
        }
    }
}

/// The same for the application of a sound callee to sound arguments.
pub proof fn lemma_sound_apply(
    callee: ValueView,
    args: Seq<ValueView>,
    caller: ExprView,
    ctx: RefContext,
    world: World,
    fuel: u64,
    log: Seq<Exchange>,
)
    requires
        sound(world.arena),
        ctx < world.arena.len(),
        host_sound(log),
        scopes_below(callee, world.arena.len()),
        forall|i: int| 0 <= i < args.len() ==> scopes_below(#[trigger] args[i], world.arena.len()),
    ensures
        settled(
            world,
            apply_spec(callee, args, caller, ctx, world, fuel, log).world,
            apply_spec(callee, args, caller, ctx, world, fuel, log).result,
        ),
    decreases fuel, caller, 0int,
{
    match callee {
        ValueView::Fn { identifier, params, body, decl_ctx } => {
            if args.len() >= params.len() {
                if first_signal(args, params.len()) is Some {
                    lemma_first_signal_among(args, params.len());
                } else if fuel > 0 {
                    let inner = world.arena.len() as usize;
                    let scope = ContextView {
                        parent: Some(decl_ctx),
                        variables: bound_parameters(params, args, params.len()),
                    };
                    let entered = World { arena: world.arena.push(scope), asked: world.asked };
                    lemma_enter_sound(world.arena, decl_ctx, params, args);
                    law_handles_never_dangle(*body, inner, entered, (fuel - 1) as u64, log);
                }
            }
        },
        _ => {},
    }
}

/// The first signal among arguments is one of them.
pub proof fn lemma_first_signal_among(args: Seq<ValueView>, count: nat)
    requires
        first_signal(args, count) is Some,
    ensures
        exists|i: int| 0 <= i < count && first_signal(args, count) == Some(args[i]),
    decreases count,
{
    if count > 0 {
        if first_signal(args, (count - 1) as nat) is Some {
            lemma_first_signal_among(args, (count - 1) as nat);
            let i = choose|i: int|
                0 <= i < count - 1 && first_signal(args, (count - 1) as nat) == Some(args[i]);
            assert(first_signal(args, count) == Some(args[i]));
        } else {
            assert(first_signal(args, count) == Some(args[count - 1]));
        }
    }
}

} // verus!
