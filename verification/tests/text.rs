use rune::io::ast::{clone_expr, Expr, Symbol};
use rune::io::host::{Host, Recorder};
use rune::io::runtime::{
    bind, clone_value, find_binding, Arena, Binding, Context, ExternFn, RefContext, RuntimeValue,
};
use rune::io::text::{characters, single, text_eq};

#[test]
fn texts_compare_by_their_characters() {
    assert!(text_eq("", ""));
    assert!(text_eq("abc", "abc"));
    assert!(!text_eq("abc", "abd"));
    assert!(!text_eq("abc", "ab"));
    assert!(!text_eq("ab", "abc"));
    assert!(!text_eq("", "a"));
    assert!(text_eq("\u{e9}t\u{e9}", "\u{e9}t\u{e9}"));
    assert!(!text_eq("\u{e9}", "e"));
}

#[test]
fn characters_of_a_text() {
    assert_eq!(characters(""), Vec::<char>::new());
    assert_eq!(characters("a+b"), vec!['a', '+', 'b']);
    assert_eq!(characters("\u{e9}!"), vec!['\u{e9}', '!']);
    assert_eq!(single('x'), "x");
    assert_eq!(single('\u{e9}'), "\u{e9}");
}

#[test]
fn symbols_compare_by_name() {
    assert_eq!(Symbol { name: "a".to_string() }, Symbol { name: "a".to_string() });
    assert_ne!(Symbol { name: "a".to_string() }, Symbol { name: "b".to_string() });
}

#[test]
fn copies_are_equal_to_what_they_copy() {
    let tree = Expr::IfExpr {
        when: Box::new(Expr::Identifier(Symbol { name: "c".to_string() })),
        then_branch: Box::new(Expr::Body { body: vec![Expr::Number("1".to_string()), Expr::Break] }),
        other: Some(Box::new(Expr::Loop { body: vec![] })),
    };
    assert_eq!(format!("{:?}", clone_expr(&tree)), format!("{:?}", tree));
    assert_eq!(format!("{:?}", tree.clone()), format!("{:?}", tree));
    let value = RuntimeValue::Object(vec![
        Binding { name: "a".to_string(), value: RuntimeValue::Int(1) },
        Binding {
            name: "f".to_string(),
            value: RuntimeValue::Fn {
                identifier: Symbol { name: "f".to_string() },
                params: vec![],
                body: Box::new(tree),
                decl_ctx: 3,
            },
        },
    ]);
    assert_eq!(format!("{:?}", clone_value(&value)), format!("{:?}", value));
    assert_eq!(format!("{:?}", value.clone()), format!("{:?}", value));
}

#[test]
fn bindings_are_replaced_in_place() {
    let mut entries: Vec<Binding> = Vec::new();
    assert_eq!(find_binding(&entries, "a"), None);
    bind(&mut entries, "a", RuntimeValue::Int(1));
    bind(&mut entries, "b", RuntimeValue::Int(2));
    assert_eq!(find_binding(&entries, "a"), Some(0));
    assert_eq!(find_binding(&entries, "b"), Some(1));
    assert_eq!(find_binding(&entries, "c"), None);
    bind(&mut entries, "a", RuntimeValue::Int(3));
    assert_eq!(entries.len(), 2);
    assert!(matches!(entries[0].value, RuntimeValue::Int(3)));
    entries.push(Binding { name: "b".to_string(), value: RuntimeValue::Int(9) });
    assert_eq!(find_binding(&entries, "b"), Some(2));
    bind(&mut entries, "b", RuntimeValue::Int(10));
    assert!(matches!(entries[1].value, RuntimeValue::Int(2)));
    assert!(matches!(entries[2].value, RuntimeValue::Int(10)));
}

#[test]
fn a_scope_sees_its_own_bindings_first() {
    let mut arena = Arena::new();
    let root = arena.new_context(None);
    arena.let_variable(root, "x", RuntimeValue::Int(1)).unwrap();
    arena.let_variable(root, "y", RuntimeValue::Int(2)).unwrap();
    let mut local = Context::new(Some(root));
    assert!(matches!(local.let_variable("x", RuntimeValue::Int(5)), RuntimeValue::Int(5)));
    assert!(matches!(local.get_variable("x", &arena), Some(RuntimeValue::Int(5))));
    assert!(matches!(local.get_variable("y", &arena), Some(RuntimeValue::Int(2))));
    assert!(local.get_variable("z", &arena).is_none());
    assert!(matches!(local.own_variable("x"), Some(RuntimeValue::Int(5))));
    assert!(local.own_variable("y").is_none());
    let adopted = arena.adopt(local);
    assert_eq!(adopted, 1);
    assert!(matches!(arena.get_variable(adopted, "x"), Some(RuntimeValue::Int(5))));
    let orphan = Context::new(None);
    assert!(orphan.get_variable("x", &arena).is_none());
}

struct Fixed;

impl Host for Fixed {
    fn float_parse(&mut self, _text: &str) -> Option<u64> {
        Some(11)
    }

    fn float_from_int(&mut self, _value: i64) -> u64 {
        12
    }

    fn float_binary(&mut self, _lhs: u64, _rhs: u64, _op: rune::io::ast::BinaryOp) -> u64 {
        13
    }

    fn float_equal(&mut self, _lhs: u64, _rhs: u64) -> bool {
        true
    }

    fn float_text(&mut self, _bits: u64) -> String {
        "text".to_string()
    }

    fn call_extern(
        &mut self,
        _function: ExternFn,
        _args: Vec<RuntimeValue>,
        _arena: &mut Arena,
        _ctx: RefContext,
    ) -> RuntimeValue {
        RuntimeValue::Int(14)
    }
}

#[test]
fn the_recorder_hands_the_answers_of_the_host_on() {
    let mut host = Recorder::new(Fixed);
    assert_eq!(host.float_parse("1.0"), Some(11));
    assert_eq!(host.float_from_int(1), 12);
    assert_eq!(host.float_binary(1, 2, rune::io::ast::BinaryOp::Add), 13);
    assert!(host.float_equal(1, 2));
    assert_eq!(host.float_text(1), "text");
    let mut arena = Arena::new();
    assert!(matches!(host.call_extern(0, vec![], &mut arena, 0), RuntimeValue::Int(14)));
    let _inner: &Fixed = host.host();
    let _back: Fixed = host.into_host();
}
