use rune::io::ast::{BinaryOp, Expr, Property, Symbol};
use rune::io::eval::{
    apply, binary_values, checked_number_binary_operation, equality_values, eval,
    eval_identifier, eval_number, eval_number_binary_operation, evaluate, int_arithmetic,
    parse_int, parse_operator,
};
use rune::io::host::{Host, Recorder};
use rune::io::lexer::tokenize;
use rune::io::parser::parse;
use rune::io::render::{render, render_int};
use rune::query::parse_query;
use rune::io::runtime::{Arena, ExternFn, Fault, RefContext, RuntimeValue, Signal};

/// A host with native floats and three functions: 0 gives the number of its
/// arguments, 1 gives the value of `x` as the caller sees it, 2 binds `made`
/// to the number of its arguments in the scope of the caller.
struct Native {
    calls: Vec<(ExternFn, usize)>,
}

impl Host for Native {
    fn float_parse(&mut self, text: &str) -> Option<u64> {
        text.parse::<f64>().ok().map(f64::to_bits)
    }

    fn float_from_int(&mut self, value: i64) -> u64 {
        (value as f64).to_bits()
    }

    fn float_binary(&mut self, lhs: u64, rhs: u64, op: BinaryOp) -> u64 {
        let (l, r) = (f64::from_bits(lhs), f64::from_bits(rhs));
        let out = match op {
            BinaryOp::Add => l + r,
            BinaryOp::Sub => l - r,
            BinaryOp::Mul => l * r,
            BinaryOp::Div => l / r,
            BinaryOp::Mod => l % r,
        };
        out.to_bits()
    }

    fn float_equal(&mut self, lhs: u64, rhs: u64) -> bool {
        f64::from_bits(lhs) == f64::from_bits(rhs)
    }

    fn float_text(&mut self, value: u64) -> String {
        format!("{:?}", f64::from_bits(value))
    }

    fn call_extern(
        &mut self,
        function: ExternFn,
        args: Vec<RuntimeValue>,
        arena: &mut Arena,
        ctx: RefContext,
    ) -> RuntimeValue {
        self.calls.push((function, args.len()));
        match function {
            0 => RuntimeValue::Int(args.len() as i64),
            1 => arena.get_variable(ctx, "x").unwrap_or(RuntimeValue::Never),
            2 => {
                let count = RuntimeValue::Int(args.len() as i64);
                arena.let_variable(ctx, "made", count).unwrap_or(RuntimeValue::Never)
            }
            _ => RuntimeValue::Error("no such function".to_string()),
        }
    }
}

const FUEL: u64 = 10_000;

struct Session {
    arena: Arena,
    host: Recorder<Native>,
    root: RefContext,
}

fn session() -> Session {
    let mut arena = Arena::new();
    let root = arena.new_context(None);
    arena.let_variable(root, "true", RuntimeValue::Bool(true)).unwrap();
    arena.let_variable(root, "false", RuntimeValue::Bool(false)).unwrap();
    arena.let_variable(root, "count", RuntimeValue::ExternFn(0)).unwrap();
    arena.let_variable(root, "peek", RuntimeValue::ExternFn(1)).unwrap();
    arena.let_variable(root, "make", RuntimeValue::ExternFn(2)).unwrap();
    Session { arena, host: Recorder::new(Native { calls: vec![] }), root }
}

impl Session {
    fn run(&mut self, source: &str) -> Result<RuntimeValue, Fault> {
        let program = match parse(tokenize(source)) {
            Ok(program) => program,
            Err(error) => panic!("no tree: {}", error.message),
        };
        eval(program, self.root, &mut self.arena, &mut self.host, FUEL)
    }

    fn value(&mut self, source: &str) -> RuntimeValue {
        self.run(source).unwrap()
    }
}

fn value_of(source: &str) -> RuntimeValue {
    session().value(source)
}

fn int_of(source: &str) -> i64 {
    match value_of(source) {
        RuntimeValue::Int(i) => i,
        other => panic!("no integer: {:?}", other),
    }
}

fn float_of(source: &str) -> f64 {
    match value_of(source) {
        RuntimeValue::Float(bits) => f64::from_bits(bits),
        other => panic!("no float: {:?}", other),
    }
}

fn bool_of(source: &str) -> bool {
    match value_of(source) {
        RuntimeValue::Bool(b) => b,
        other => panic!("no boolean: {:?}", other),
    }
}

fn error_of(source: &str) -> String {
    match value_of(source) {
        RuntimeValue::Error(message) => message,
        other => panic!("no error value: {:?}", other),
    }
}

fn number(text: &str) -> Expr {
    Expr::Number(text.to_string())
}

fn name(text: &str) -> Expr {
    Expr::Identifier(Symbol { name: text.to_string() })
}

fn binary(left: Expr, op: &str, right: Expr) -> Expr {
    Expr::BinaryExpr { left: Box::new(left), right: Box::new(right), op: op.to_string() }
}

fn eval_tree(node: Expr) -> Result<RuntimeValue, Fault> {
    let mut s = session();
    eval(node, s.root, &mut s.arena, &mut s.host, FUEL)
}

#[test]
fn integer_arithmetic_on_literals() {
    assert_eq!(int_of("1 + 2"), 3);
    assert_eq!(int_of("7 - 10"), -3);
    assert_eq!(int_of("6 * 7"), 42);
    assert_eq!(int_of("7 / 2"), 3);
    assert_eq!(int_of("7 % 3"), 1);
    assert_eq!(int_of("1 + 2 * 3"), 7);
    assert_eq!(int_of("(1 + 2) * 3"), 9);
    assert_eq!(int_of("10 - 4 - 3"), 3);
}

#[test]
fn integer_operations_match_native_results() {
    let samples: [i64; 9] = [0, 1, -1, 2, -7, 13, 1 << 40, i64::MAX, i64::MIN];
    for &a in samples.iter() {
        for &b in samples.iter() {
            assert_eq!(int_arithmetic(a, b, BinaryOp::Add), Ok(a.wrapping_add(b)));
            assert_eq!(int_arithmetic(a, b, BinaryOp::Sub), Ok(a.wrapping_sub(b)));
            assert_eq!(int_arithmetic(a, b, BinaryOp::Mul), Ok(a.wrapping_mul(b)));
            if b != 0 && !(a == i64::MIN && b == -1) {
                assert_eq!(int_arithmetic(a, b, BinaryOp::Div), Ok(a / b));
                assert_eq!(int_arithmetic(a, b, BinaryOp::Mod), Ok(a % b));
            }
        }
    }
}

#[test]
fn binary_expression_on_two_integers_is_an_integer() {
    for (op, expected) in [("+", 5i64), ("-", -9), ("*", -14), ("%", -2)] {
        let node = binary(number("-2"), op, number("7"));
        let out = eval_tree(node).unwrap();
        assert!(matches!(out, RuntimeValue::Int(v) if v == expected), "{} gave {:?}", op, out);
    }
}

#[test]
fn division_truncates_toward_zero() {
    assert_eq!(int_arithmetic(-7, 2, BinaryOp::Div), Ok(-3));
    assert_eq!(int_arithmetic(7, -2, BinaryOp::Div), Ok(-3));
    assert_eq!(int_arithmetic(-7, -2, BinaryOp::Div), Ok(3));
    assert_eq!(int_arithmetic(-7, 2, BinaryOp::Mod), Ok(-1));
    assert_eq!(int_arithmetic(7, -2, BinaryOp::Mod), Ok(1));
    assert_eq!(int_arithmetic(-7, -2, BinaryOp::Mod), Ok(-1));
}

#[test]
fn integer_faults() {
    assert_eq!(int_arithmetic(1, 0, BinaryOp::Div), Err(Fault::DivisionByZero));
    assert_eq!(int_arithmetic(1, 0, BinaryOp::Mod), Err(Fault::DivisionByZero));
    assert_eq!(int_arithmetic(i64::MIN, -1, BinaryOp::Div), Err(Fault::Overflow));
    assert_eq!(int_arithmetic(i64::MIN, -1, BinaryOp::Mod), Err(Fault::Overflow));
    assert!(matches!(session().run("1 / 0"), Err(Fault::DivisionByZero)));
    assert!(matches!(session().run("1 % (2 - 2)"), Err(Fault::DivisionByZero)));
}

#[test]
fn sums_wrap_around() {
    assert_eq!(int_arithmetic(i64::MAX, 1, BinaryOp::Add), Ok(i64::MIN));
    assert_eq!(int_arithmetic(i64::MIN, 1, BinaryOp::Sub), Ok(i64::MAX));
    assert_eq!(int_arithmetic(i64::MAX, 2, BinaryOp::Mul), Ok(-2));
    assert_eq!(int_of("9223372036854775807 + 1"), i64::MIN);
}

#[test]
fn operator_symbols() {
    assert_eq!(parse_operator("+"), Some(BinaryOp::Add));
    assert_eq!(parse_operator("-"), Some(BinaryOp::Sub));
    assert_eq!(parse_operator("*"), Some(BinaryOp::Mul));
    assert_eq!(parse_operator("/"), Some(BinaryOp::Div));
    assert_eq!(parse_operator("%"), Some(BinaryOp::Mod));
    assert_eq!(parse_operator("^"), None);
    assert_eq!(parse_operator(""), None);
    assert_eq!(parse_operator("++"), None);
}

#[test]
fn number_binary_operation_by_symbol() {
    assert_eq!(eval_number_binary_operation(6, 3, "+"), 9);
    assert_eq!(eval_number_binary_operation(6, 3, "-"), 3);
    assert_eq!(eval_number_binary_operation(6, 3, "*"), 18);
    assert_eq!(eval_number_binary_operation(6, 3, "/"), 2);
    assert_eq!(eval_number_binary_operation(6, 4, "%"), 2);
    assert_eq!(checked_number_binary_operation(6, 3, "*"), Ok(18));
    assert_eq!(checked_number_binary_operation(6, 3, "^"), Err(Fault::UnknownOperator));
    assert_eq!(checked_number_binary_operation(6, 0, "/"), Err(Fault::DivisionByZero));
}

#[test]
fn unknown_operator_is_a_fault_on_numbers_only() {
    assert!(matches!(
        eval_tree(binary(number("1"), "^", number("2"))),
        Err(Fault::UnknownOperator)
    ));
    assert!(matches!(
        eval_tree(binary(number("1.5"), "^", number("2"))),
        Err(Fault::UnknownOperator)
    ));
    let out = eval_tree(binary(Expr::String("a".to_string()), "^", number("2"))).unwrap();
    assert!(matches!(out, RuntimeValue::Never));
}

#[test]
fn mixed_arithmetic_promotes_to_float() {
    let out = eval_tree(binary(number("3"), "+", number("2.0"))).unwrap();
    assert!(matches!(out, RuntimeValue::Float(bits) if f64::from_bits(bits) == 5.0));
    assert_eq!(float_of("3 + 2.0"), 5.0);
    assert_eq!(float_of("2.0 + 3"), 5.0);
    assert_eq!(float_of("1.5 * 4"), 6.0);
    assert_eq!(float_of("7 / 2.0"), 3.5);
    assert_eq!(float_of("1 - 0.5"), 0.5);
}

#[test]
fn float_arithmetic() {
    assert_eq!(float_of("1.5 + 2.25"), 3.75);
    assert_eq!(float_of("1.5 - 2.25"), -0.75);
    assert_eq!(float_of("1.5 * 2.0"), 3.0);
    assert_eq!(float_of("7.5 / 2.5"), 3.0);
    assert_eq!(float_of("7.5 % 2.0"), 1.5);
    assert!(float_of("1.0 / 0.0").is_infinite());
}

#[test]
fn the_host_is_asked_once_for_each_float_step() {
    let mut host = Recorder::new(Native { calls: vec![] });
    let out = binary_values(RuntimeValue::Int(3), RuntimeValue::Float(2.0f64.to_bits()), "+", &mut host);
    assert!(matches!(out, Ok(RuntimeValue::Float(bits)) if f64::from_bits(bits) == 5.0));
    let out = binary_values(RuntimeValue::Int(3), RuntimeValue::Int(2), "*", &mut host);
    assert!(matches!(out, Ok(RuntimeValue::Int(6))));
}

#[test]
fn errors_propagate_through_arithmetic() {
    assert_eq!(error_of("missing + 1"), "undefined Symbol { name: \"missing\" }");
    assert_eq!(error_of("1 + missing"), "undefined Symbol { name: \"missing\" }");
    assert_eq!(error_of("first + second"), "undefined Symbol { name: \"first\" }");
    assert_eq!(error_of("true + missing"), "undefined Symbol { name: \"missing\" }");
}

#[test]
fn other_operands_give_never() {
    assert!(matches!(value_of("true + 1"), RuntimeValue::Never));
    assert!(matches!(value_of("1 + true"), RuntimeValue::Never));
    assert!(matches!(value_of("true * false"), RuntimeValue::Never));
}

#[test]
fn number_literals() {
    let mut host = Recorder::new(Native { calls: vec![] });
    assert!(matches!(eval_number("42", &mut host), Ok(RuntimeValue::Int(42))));
    assert!(matches!(eval_number("007", &mut host), Ok(RuntimeValue::Int(7))));
    assert!(matches!(
        eval_number("2.5", &mut host),
        Ok(RuntimeValue::Float(bits)) if f64::from_bits(bits) == 2.5
    ));
    assert!(matches!(
        eval_number("7.", &mut host),
        Ok(RuntimeValue::Float(bits)) if f64::from_bits(bits) == 7.0
    ));
    assert!(matches!(eval_number("1.2.3", &mut host), Err(Fault::MalformedNumber)));
    assert!(matches!(eval_number("", &mut host), Err(Fault::MalformedNumber)));
    assert!(matches!(eval_number("12a", &mut host), Err(Fault::MalformedNumber)));
    assert!(matches!(eval_number("99999999999999999999", &mut host), Err(Fault::MalformedNumber)));
}

#[test]
fn integer_literals() {
    assert_eq!(parse_int("0"), Some(0));
    assert_eq!(parse_int("120"), Some(120));
    assert_eq!(parse_int("-120"), Some(-120));
    assert_eq!(parse_int("+120"), Some(120));
    assert_eq!(parse_int("0000000000000000000000012"), Some(12));
    assert_eq!(parse_int("9223372036854775807"), Some(i64::MAX));
    assert_eq!(parse_int("9223372036854775808"), None);
    assert_eq!(parse_int("-9223372036854775808"), Some(i64::MIN));
    assert_eq!(parse_int("-9223372036854775809"), None);
    assert_eq!(parse_int("18446744073709551616"), None);
    assert_eq!(parse_int(""), None);
    assert_eq!(parse_int("-"), None);
    assert_eq!(parse_int("+"), None);
    assert_eq!(parse_int("1 "), None);
    assert_eq!(parse_int("1_000"), None);
    assert_eq!(parse_int("--1"), None);
    assert_eq!(parse_int("\u{663}"), None);
}

#[test]
fn integer_literals_agree_with_the_standard_library() {
    for text in ["5", "-5", "+5", "05", "", "-", "a", "5a", "9223372036854775807", "9223372036854775808", "-9223372036854775808", "-9223372036854775809", "123456789012345678901234567890"] {
        assert_eq!(parse_int(text), text.parse::<i64>().ok(), "{:?}", text);
    }
}

#[test]
fn equality_of_like_values() {
    assert!(bool_of("1 == 1"));
    assert!(!bool_of("1 == 2"));
    assert!(bool_of("1 != 2"));
    assert!(!bool_of("2 != 2"));
    assert!(bool_of("true == true"));
    assert!(!bool_of("true == false"));
    assert!(bool_of("true != false"));
    assert!(bool_of("1.5 == 1.5"));
    assert!(bool_of("1.5 != 2.5"));
    assert!(bool_of("1 + 1 == 2"));
}

#[test]
fn equality_of_unlike_values_is_an_error() {
    assert_eq!(error_of("1 == true"), "not the same types");
    assert_eq!(error_of("1 == 1.0"), "not the same types");
    assert_eq!(error_of("1 != 1.0"), "not the same types");
    assert_eq!(error_of("missing == missing"), "not the same types");
    let strings = Expr::Eq {
        left: Box::new(Expr::String("a".to_string())),
        right: Box::new(Expr::String("a".to_string())),
    };
    assert!(matches!(eval_tree(strings), Ok(RuntimeValue::Error(m)) if m == "not the same types"));
}

#[test]
fn float_equality_is_numeric() {
    let mut host = Recorder::new(Native { calls: vec![] });
    let zero = RuntimeValue::Float(0.0f64.to_bits());
    let minus_zero = RuntimeValue::Float((-0.0f64).to_bits());
    let nan = RuntimeValue::Float(f64::NAN.to_bits());
    assert!(matches!(equality_values(&zero, &minus_zero, false, &mut host), RuntimeValue::Bool(true)));
    assert!(matches!(equality_values(&nan, &nan, false, &mut host), RuntimeValue::Bool(false)));
    assert!(matches!(equality_values(&nan, &nan, true, &mut host), RuntimeValue::Bool(true)));
}

#[test]
fn undeclared_identifier_is_an_error_value() {
    assert_eq!(error_of("nothing"), "undefined Symbol { name: \"nothing\" }");
    let arena = Arena::new();
    let out = eval_identifier(&Symbol { name: "x".to_string() }, 0, &arena);
    assert!(matches!(out, RuntimeValue::Error(m) if m == "undefined Symbol { name: \"x\" }"));
    let out = eval_identifier(&Symbol { name: "a\"b".to_string() }, 7, &arena);
    assert!(matches!(out, RuntimeValue::Error(m) if m == "undefined Symbol { name: \"a\\\"b\" }"));
}

#[test]
fn declarations_bind_in_the_current_scope() {
    let mut s = session();
    assert!(matches!(s.value("let x = 4;"), RuntimeValue::Int(4)));
    assert!(matches!(s.value("x * x"), RuntimeValue::Int(16)));
    assert!(matches!(s.value("let x = 5; x"), RuntimeValue::Int(5)));
    assert!(matches!(s.value("x = x + 1"), RuntimeValue::Int(6)));
    assert!(matches!(s.value("x"), RuntimeValue::Int(6)));
    assert!(matches!(s.value("const c = true; c"), RuntimeValue::Bool(true)));
    assert!(matches!(s.value("c = false; c"), RuntimeValue::Bool(false)));
}

#[test]
fn assignment_to_something_else_is_an_error_value() {
    assert_eq!(
        error_of("1 = 2"),
        "only Expr::Identifier supported, found Number(\"1\")"
    );
}

#[test]
fn inner_declaration_does_not_leak() {
    let mut s = session();
    s.value("let x = 1;");
    assert!(matches!(s.value("fn inner() { let x = 2; return x; }; inner()"), RuntimeValue::Int(2)));
    assert!(matches!(s.value("x"), RuntimeValue::Int(1)));
}

#[test]
fn assignment_in_a_call_shadows_the_outer_binding() {
    let mut s = session();
    s.value("let x = 1;");
    assert!(matches!(s.value("fn set() { x = 5; return x; }; set()"), RuntimeValue::Int(5)));
    assert!(matches!(s.value("x"), RuntimeValue::Int(1)));
}

#[test]
fn blocks_share_the_scope_around_them() {
    let mut s = session();
    assert!(matches!(s.value("{ let y = 3; }"), RuntimeValue::Int(3)));
    assert!(matches!(s.value("y"), RuntimeValue::Int(3)));
    assert!(matches!(s.value("loop { let z = 9; break; }"), RuntimeValue::Int(9)));
    assert!(matches!(s.value("z"), RuntimeValue::Int(9)));
}

#[test]
fn closures_see_the_scope_they_were_declared_in() {
    let mut s = session();
    s.value("fn make(){ let n = 0; fn inc(){ n = n + 1; return n; }; return inc; }");
    s.value("let a = make(); let b = make();");
    assert!(matches!(s.value("a()"), RuntimeValue::Int(1)));
    assert!(matches!(s.value("b()"), RuntimeValue::Int(1)));
    // An assignment binds in the scope of the call, so the captured `n` stays 0.
    assert!(matches!(s.value("a()"), RuntimeValue::Int(1)));
    assert!(matches!(s.value("a()"), RuntimeValue::Int(1)));
}

#[test]
fn closures_read_later_changes_of_their_scope() {
    let mut s = session();
    s.value("let n = 1; fn get() { return n; }");
    assert!(matches!(s.value("get()"), RuntimeValue::Int(1)));
    s.value("n = 2;");
    assert!(matches!(s.value("get()"), RuntimeValue::Int(2)));
}

#[test]
fn functions_use_the_scope_of_their_declaration_not_of_the_call() {
    let mut s = session();
    s.value("let v = 1; fn read() { return v; }; fn other() { let v = 2; return read(); }");
    assert!(matches!(s.value("other()"), RuntimeValue::Int(1)));
}

#[test]
fn loop_with_immediate_break_gives_never() {
    assert!(matches!(value_of("loop { break; }"), RuntimeValue::Never));
}

#[test]
fn break_gives_the_value_of_the_statement_before() {
    assert!(matches!(value_of("loop { let x = 1; break; }"), RuntimeValue::Int(1)));
    assert!(matches!(value_of("loop { 1; 2; break; 3 }"), RuntimeValue::Int(2)));
}

#[test]
fn loop_counts_until_break() {
    let source = "let i = 0; loop { if i == 5 { break; }; i = i + 1; }";
    assert!(matches!(value_of(source), RuntimeValue::Int(5)));
    let mut s = session();
    s.value(source);
    assert!(matches!(s.value("i"), RuntimeValue::Int(5)));
}

#[test]
fn return_leaves_a_loop_and_its_function() {
    let source = "fn first() { let i = 0; loop { i = i + 1; if i == 3 { return i * 10; }; }; return 0; }; first()";
    assert!(matches!(value_of(source), RuntimeValue::Int(30)));
}

#[test]
fn loop_without_exit_uses_up_the_fuel() {
    assert!(matches!(session().run("loop { }"), Err(Fault::OutOfFuel)));
    assert!(matches!(session().run("loop { 1 }"), Err(Fault::OutOfFuel)));
}

#[test]
fn endless_recursion_uses_up_the_fuel() {
    let mut s = session();
    let program = parse(tokenize("fn f() { return f(); }; f()")).ok().unwrap();
    let out = evaluate(&program, s.root, &mut s.arena, &mut s.host, 50);
    assert!(matches!(out, Err(Fault::OutOfFuel)));
    assert_eq!(s.arena.len(), 51);
}

#[test]
fn fuel_counts_rounds_and_calls() {
    let mut s = session();
    let program = parse(tokenize("let i = 0; loop { if i == 3 { break; }; i = i + 1; }")).ok().unwrap();
    let out = evaluate(&program, s.root, &mut s.arena, &mut s.host, 3);
    assert!(matches!(out, Ok(RuntimeValue::Int(3))));
    let mut s = session();
    let out = evaluate(&program, s.root, &mut s.arena, &mut s.host, 2);
    assert!(matches!(out, Err(Fault::OutOfFuel)));
    let mut s = session();
    let call = parse(tokenize("fn f() { return 1; }; f()")).ok().unwrap();
    assert!(matches!(evaluate(&call, s.root, &mut s.arena, &mut s.host, 0), Err(Fault::OutOfFuel)));
    assert!(matches!(evaluate(&call, s.root, &mut s.arena, &mut s.host, 1), Ok(RuntimeValue::Int(1))));
}

#[test]
fn recursive_factorial() {
    let source = "fn fact(n){ if n == 0 { return 1; }; return n * fact(n - 1); }; fact(5)";
    assert!(matches!(value_of(source), RuntimeValue::Int(120)));
}

#[test]
fn function_declaration_gives_the_function() {
    let mut s = session();
    let out = s.value("fn f(a) { return a; }");
    match out {
        RuntimeValue::Fn { identifier, params, decl_ctx, .. } => {
            assert_eq!(identifier.name, "f");
            assert_eq!(params.len(), 1);
            assert_eq!(params[0].name, "a");
            assert_eq!(decl_ctx, s.root);
        }
        other => panic!("no function: {:?}", other),
    }
    assert!(matches!(s.value("f"), RuntimeValue::Fn { .. }));
}

#[test]
fn call_results() {
    assert!(matches!(value_of("fn f() { 7 }; f()"), RuntimeValue::Int(7)));
    assert!(matches!(value_of("fn f() { return 7; 8 }; f()"), RuntimeValue::Int(7)));
    assert!(matches!(value_of("fn f() { break; 8 }; f()"), RuntimeValue::Never));
    assert!(matches!(value_of("fn f() { }; f()"), RuntimeValue::Never));
    assert!(matches!(value_of("fn f() { return missing; }; f()"), RuntimeValue::Error(_)));
}

#[test]
fn arguments_bind_by_position() {
    assert!(matches!(value_of("fn sub(a, b) { return a - b; }; sub(10, 4)"), RuntimeValue::Int(6)));
    assert!(matches!(value_of("fn sub(a, b) { return a - b; }; sub(10, 4, 99)"), RuntimeValue::Int(6)));
    assert_eq!(error_of("fn sub(a, b) { return a - b; }; sub(10)"), "invalid args");
    assert!(matches!(value_of("fn twice(a, a) { return a; }; twice(1, 2)"), RuntimeValue::Int(2)));
}

#[test]
fn arguments_are_evaluated_before_the_callee() {
    let mut s = session();
    assert_eq!(error_of("nothing(1)"), "Identifier(Symbol { name: \"nothing\" }) not a function ");
    assert!(matches!(s.value("fn g() { return 2; }; g(h = 3)"), RuntimeValue::Int(2)));
    assert!(matches!(s.value("h"), RuntimeValue::Int(3)));
}

#[test]
fn calling_a_value_that_is_no_function_is_an_error_value() {
    assert_eq!(
        error_of("let x = 1; x()"),
        "Identifier(Symbol { name: \"x\" }) not a function "
    );
    assert_eq!(error_of("true(1, 2)"), "Identifier(Symbol { name: \"true\" }) not a function ");
    let mut s = session();
    let out = apply(RuntimeValue::Int(3), vec![], &number("3"), s.root, &mut s.arena, &mut s.host, FUEL);
    assert!(matches!(out, Ok(RuntimeValue::Error(m)) if m == "Number(\"3\") not a function "));
    let out = apply(RuntimeValue::Never, vec![RuntimeValue::Int(1)], &name("f"), s.root, &mut s.arena, &mut s.host, 0);
    assert!(matches!(out, Ok(RuntimeValue::Error(_))));
}

#[test]
fn functions_of_the_host_are_called_with_the_arguments() {
    let mut s = session();
    assert!(matches!(s.value("count()"), RuntimeValue::Int(0)));
    assert!(matches!(s.value("count(1, 2 + 3, true)"), RuntimeValue::Int(3)));
    assert_eq!(s.host.host().calls, vec![(0, 0), (0, 3)]);
    s.value("let x = 8;");
    assert!(matches!(s.value("peek()"), RuntimeValue::Int(8)));
    assert!(matches!(s.value("fn f() { let x = 9; return peek(); }; f()"), RuntimeValue::Int(9)));
}

#[test]
fn a_function_with_a_missing_scope_is_a_fault() {
    let mut s = session();
    let stray = RuntimeValue::Fn {
        identifier: Symbol { name: "f".to_string() },
        params: vec![],
        body: Box::new(Expr::Body { body: vec![] }),
        decl_ctx: 99,
    };
    let out = apply(stray, vec![], &name("f"), s.root, &mut s.arena, &mut s.host, FUEL);
    assert!(matches!(out, Err(Fault::DanglingContext)));
    let out = eval(Expr::VarDecl { constant: false, identifier: Symbol { name: "x".to_string() }, value: Box::new(number("1")) }, 99, &mut s.arena, &mut s.host, FUEL);
    assert!(matches!(out, Err(Fault::DanglingContext)));
}

#[test]
fn conditionals() {
    assert!(matches!(value_of("if true { 1 } else { 2 }"), RuntimeValue::Int(1)));
    assert!(matches!(value_of("if false { 1 } else { 2 }"), RuntimeValue::Int(2)));
    assert!(matches!(value_of("if false { 1 }"), RuntimeValue::Never));
    assert!(matches!(value_of("if 1 == 2 { 1 } else if 2 == 2 { 3 } else { 4 }"), RuntimeValue::Int(3)));
    assert_eq!(error_of("if 1 { 2 }"), "invalid condition");
    assert_eq!(error_of("if missing { 2 }"), "invalid condition");
}

#[test]
fn blocks_stop_at_a_signal() {
    let mut s = session();
    let out = s.value("{ let a = 1; break; let a = 2; }");
    assert!(matches!(out, RuntimeValue::Signal(Signal::Break)));
    assert!(matches!(s.value("a"), RuntimeValue::Int(1)));
    let out = s.value("let b = 1; return 5; let b = 2;");
    assert!(matches!(out, RuntimeValue::Signal(Signal::Return(v)) if matches!(*v, RuntimeValue::Int(5))));
    assert!(matches!(s.value("b"), RuntimeValue::Int(1)));
}

#[test]
fn an_error_value_does_not_stop_the_program() {
    assert!(matches!(value_of("missing; 1 == true; 7"), RuntimeValue::Int(7)));
}

#[test]
fn empty_program_gives_never() {
    assert!(matches!(value_of(""), RuntimeValue::Never));
    assert!(matches!(eval_tree(Expr::Never), Ok(RuntimeValue::Never)));
    assert!(matches!(eval_tree(Expr::Error("e".to_string())), Ok(RuntimeValue::Error(m)) if m == "e"));
    assert!(matches!(eval_tree(Expr::String("s".to_string())), Ok(RuntimeValue::String(m)) if m == "s"));
}

#[test]
fn object_literals() {
    let mut s = session();
    s.value("let a = 1;");
    match s.value("let o = { a, b: a + 1, a: 5, c };") {
        RuntimeValue::Object(fields) => {
            assert_eq!(fields.len(), 3);
            let field = |name: &str| fields.iter().find(|f| f.name == name).map(|f| &f.value);
            assert!(matches!(field("a"), Some(RuntimeValue::Int(5))));
            assert!(matches!(field("b"), Some(RuntimeValue::Int(2))));
            assert!(matches!(field("c"), Some(RuntimeValue::Error(m)) if m == "undefined Symbol { name: \"c\" }"));
        }
        other => panic!("no object: {:?}", other),
    }
    assert!(matches!(s.value("o"), RuntimeValue::Object(_)));
}

#[test]
fn nodes_without_evaluation_are_error_values() {
    assert_eq!(
        error_of("a.b"),
        "MemberExpr { object: Identifier(Symbol { name: \"a\" }), property: Identifier(Symbol { name: \"b\" }), computed: false } doesn't implement [eval]"
    );
    let property = Expr::Property(Box::new(Property {
        identifier: Symbol { name: "p".to_string() },
        value: None,
    }));
    assert!(matches!(eval_tree(property), Ok(RuntimeValue::Error(m)) if m.ends_with("doesn't implement [eval]")));
}

#[test]
fn scopes_of_the_arena() {
    let mut arena = Arena::new();
    assert_eq!(arena.len(), 0);
    let outer = arena.new_context(None);
    let inner = arena.new_context(Some(outer));
    assert_eq!((outer, inner, arena.len()), (0, 1, 2));
    assert!(arena.get_variable(inner, "x").is_none());
    assert!(matches!(arena.let_variable(outer, "x", RuntimeValue::Int(1)), Ok(RuntimeValue::Int(1))));
    assert!(matches!(arena.get_variable(inner, "x"), Some(RuntimeValue::Int(1))));
    assert_eq!(arena.get_variable_context(inner, "x"), Some(outer));
    arena.let_variable(inner, "x", RuntimeValue::Int(2)).unwrap();
    assert!(matches!(arena.get_variable(inner, "x"), Some(RuntimeValue::Int(2))));
    assert!(matches!(arena.get_variable(outer, "x"), Some(RuntimeValue::Int(1))));
    assert_eq!(arena.get_variable_context(inner, "x"), Some(inner));
    arena.let_variable(inner, "x", RuntimeValue::Bool(true)).unwrap();
    assert!(matches!(arena.get_variable(inner, "x"), Some(RuntimeValue::Bool(true))));
    assert_eq!(arena.contexts[inner].variables.len(), 1);
    assert!(matches!(arena.let_variable(5, "x", RuntimeValue::Int(1)), Err(Fault::DanglingContext)));
    assert!(arena.get_variable(5, "x").is_none());
    assert_eq!(arena.get_variable_context(outer, "y"), None);
}

#[test]
fn a_parent_link_is_followed_wherever_it_points() {
    let mut arena = Arena::new();
    let first = arena.new_context(Some(1));
    let second = arena.new_context(None);
    arena.let_variable(second, "x", RuntimeValue::Int(1)).unwrap();
    assert!(matches!(arena.get_variable(first, "x"), Some(RuntimeValue::Int(1))));
    assert_eq!(arena.get_variable_context(first, "x"), Some(second));
    let third = arena.new_context(Some(first));
    assert!(matches!(arena.get_variable(third, "x"), Some(RuntimeValue::Int(1))));
    let local = rune::io::runtime::Context::new(Some(first));
    assert!(matches!(local.get_variable("x", &arena), Some(RuntimeValue::Int(1))));
    assert!(local.get_variable("y", &arena).is_none());
    arena.let_variable(first, "x", RuntimeValue::Int(2)).unwrap();
    assert!(matches!(arena.get_variable(third, "x"), Some(RuntimeValue::Int(2))));
    assert!(matches!(arena.get_variable(second, "x"), Some(RuntimeValue::Int(1))));
}

#[test]
fn a_walk_in_a_circle_ends() {
    let mut arena = Arena::new();
    let first = arena.new_context(Some(1));
    let second = arena.new_context(Some(0));
    arena.let_variable(second, "x", RuntimeValue::Int(1)).unwrap();
    assert!(matches!(arena.get_variable(first, "x"), Some(RuntimeValue::Int(1))));
    assert!(arena.get_variable(first, "y").is_none());
    assert!(arena.get_variable(second, "y").is_none());
    let own = arena.new_context(Some(2));
    assert!(arena.get_variable(own, "x").is_none());
    let dangling = arena.new_context(Some(77));
    assert!(arena.get_variable(dangling, "x").is_none());
}

#[test]
fn chained_comparison_compares_a_boolean() {
    assert_eq!(error_of("1 == 1 == 2"), "not the same types");
    assert!(bool_of("1 == 1 == true"));
    assert!(bool_of("1 == 2 != true"));
}

#[test]
fn integers_in_decimal() {
    assert_eq!(render_int(0), "0");
    assert_eq!(render_int(7), "7");
    assert_eq!(render_int(10), "10");
    assert_eq!(render_int(-1), "-1");
    assert_eq!(render_int(1234567890), "1234567890");
    assert_eq!(render_int(i64::MAX), "9223372036854775807");
    assert_eq!(render_int(i64::MIN), "-9223372036854775808");
    for v in [0i64, 9, 10, 99, 100, -100, 4096, -65535, i64::MIN + 1] {
        assert_eq!(render_int(v), v.to_string());
        assert_eq!(parse_int(&render_int(v)), Some(v));
    }
}

#[test]
fn textual_forms() {
    let mut s = session();
    let mut text = |source: &str| {
        let value = s.value(source);
        render(&value, &mut s.host)
    };
    assert_eq!(text(""), "never");
    assert_eq!(text("true"), "true");
    assert_eq!(text("1 == 2"), "false");
    assert_eq!(text("6 * 7"), "42");
    assert_eq!(text("0 - 42"), "-42");
    assert_eq!(text("1.5 + 1"), "2.5");
    assert_eq!(text("let o = { };"), "object");
    assert_eq!(text("missing"), "undefined Symbol { name: \"missing\" }");
    assert_eq!(text("count"), "external_fn");
    assert_eq!(text("fn named() { }"), "named");
    assert_eq!(text("{ break; }"), "signal::Break");
    assert_eq!(text("return 1"), "signal::Return");
    let mut host = Recorder::new(Native { calls: vec![] });
    assert_eq!(render(&RuntimeValue::String("a\"b".to_string()), &mut host), "\"a\\\"b\"");
}

#[test]
fn query_of_the_command_line() {
    assert!(parse_query(&[]).is_none());
    assert!(parse_query(&["rune".to_string()]).is_none());
    let query = parse_query(&["rune".to_string(), "main.io".to_string()]).unwrap();
    assert_eq!(query.filename, "main.io");
    let query =
        parse_query(&["rune".to_string(), "a".to_string(), "b".to_string()]).unwrap();
    assert_eq!(query.filename, "a");
}

#[test]
fn a_signal_is_never_bound() {
    let mut s = session();
    let declaration = Expr::VarDecl {
        constant: false,
        identifier: Symbol { name: "kept".to_string() },
        value: Box::new(Expr::Return { expr: Box::new(number("1")) }),
    };
    let out = eval(declaration, s.root, &mut s.arena, &mut s.host, FUEL).unwrap();
    assert!(matches!(out, RuntimeValue::Signal(Signal::Return(_))));
    assert!(s.arena.get_variable(s.root, "kept").is_none());
    let assignment = Expr::AssignExpr {
        target: Box::new(name("kept")),
        value: Box::new(Expr::Break),
    };
    let out = eval(assignment, s.root, &mut s.arena, &mut s.host, FUEL).unwrap();
    assert!(matches!(out, RuntimeValue::Signal(Signal::Break)));
    assert!(s.arena.get_variable(s.root, "kept").is_none());
    // Not even where the scope is missing: the signal goes on, nothing is stored.
    let declaration = Expr::VarDecl {
        constant: false,
        identifier: Symbol { name: "kept".to_string() },
        value: Box::new(Expr::Break),
    };
    let out = eval(declaration, 99, &mut s.arena, &mut s.host, FUEL).unwrap();
    assert!(matches!(out, RuntimeValue::Signal(Signal::Break)));
}

#[test]
fn a_signal_is_never_bound_to_a_parameter() {
    let mut s = session();
    s.value("fn first(a, b) { return a; }");
    let call = Expr::CallExpr {
        caller: Box::new(name("first")),
        args: vec![number("1"), Expr::Break, Expr::Return { expr: Box::new(number("2")) }],
    };
    let scopes = s.arena.len();
    let out = eval(call, s.root, &mut s.arena, &mut s.host, FUEL).unwrap();
    assert!(matches!(out, RuntimeValue::Signal(Signal::Break)));
    assert_eq!(s.arena.len(), scopes);
    // An argument that no parameter takes is dropped, whatever it is.
    let call = Expr::CallExpr {
        caller: Box::new(name("first")),
        args: vec![number("1"), number("2"), Expr::Break],
    };
    let out = eval(call, s.root, &mut s.arena, &mut s.host, FUEL).unwrap();
    assert!(matches!(out, RuntimeValue::Int(1)));
    // The host sees its arguments as they are.
    let call = Expr::CallExpr { caller: Box::new(name("count")), args: vec![Expr::Break] };
    let out = eval(call, s.root, &mut s.arena, &mut s.host, FUEL).unwrap();
    assert!(matches!(out, RuntimeValue::Int(1)));
}

#[test]
fn spare_fuel_changes_nothing() {
    let source = "fn fact(n){ if n == 0 { return 1; }; return n * fact(n - 1); }; \
                  let i = 0; loop { if i == 4 { break; }; i = i + 1; }; fact(i)";
    let program = parse(tokenize(source)).ok().unwrap();
    let mut shown = Vec::new();
    for fuel in [5u64, 6, 50, 5000, u64::MAX] {
        let mut s = session();
        let out = evaluate(&program, s.root, &mut s.arena, &mut s.host, fuel).unwrap();
        shown.push((format!("{:?}", out), format!("{:?}", s.arena)));
    }
    assert!(shown[0].0 == "Int(24)");
    assert!(shown.iter().all(|other| *other == shown[0]));
    let mut s = session();
    assert!(matches!(
        evaluate(&program, s.root, &mut s.arena, &mut s.host, 4),
        Err(Fault::OutOfFuel)
    ));
}

#[test]
fn a_function_of_the_host_binds_in_the_live_scopes() {
    let mut s = session();
    assert!(matches!(s.value("made"), RuntimeValue::Error(_)));
    assert!(matches!(s.value("make(1, 2, 3)"), RuntimeValue::Int(3)));
    assert!(matches!(s.value("made"), RuntimeValue::Int(3)));
    assert!(matches!(s.value("made + make()"), RuntimeValue::Int(3)));
    assert!(matches!(s.value("made"), RuntimeValue::Int(0)));
    // In the scope of the caller, not in that of the declaration.
    assert!(matches!(
        s.value("fn inside() { make(7); return made; }; inside()"),
        RuntimeValue::Int(1)
    ));
    assert!(matches!(s.value("made"), RuntimeValue::Int(0)));
}
