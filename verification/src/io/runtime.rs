//! Runtime values and the scopes that hold them.

use vstd::prelude::*;
use crate::io::ast::{
    clone_expr, clone_parameters, parameter_views, Expr, ExprView, Parameter, Symbol,
};
use crate::io::text::text_eq;

verus! {

/// A handle on a scope: its index in the arena.
pub type RefContext = usize;

/// A handle on a function that the host provides.
pub type ExternFn = usize;

#[derive(Debug)]
pub enum RuntimeValue {
    Never,
    Bool(bool),
    /// A 64-bit float, held as its bit pattern.
    Float(u64),
    Int(i64),
    String(String),
    Object(Vec<Binding>),
    Error(String),
    ExternFn(ExternFn),
    Fn { identifier: Symbol, params: Vec<Parameter>, body: Box<Expr>, decl_ctx: RefContext },
    Signal(Signal),
}

#[derive(Debug)]
pub enum Signal {
    Break,
    Return(Box<RuntimeValue>),
}

/// A name and the value bound to it.
#[derive(Debug)]
pub struct Binding {
    pub name: String,
    pub value: RuntimeValue,
}

/// One scope: its own bindings and the scope around it. Where a name occurs
/// more than once in `variables`, the last occurrence counts.
#[derive(Debug)]
pub struct Context {
    pub parent: Option<RefContext>,
    pub variables: Vec<Binding>,
}

pub ghost enum ValueView {
    Never,
    Bool(bool),
    Float(u64),
    Int(i64),
    String(Seq<char>),
    Object(Map<Seq<char>, ValueView>),
    Error(Seq<char>),
    ExternFn(ExternFn),
    Fn { identifier: Seq<char>, params: Seq<Seq<char>>, body: Box<ExprView>, decl_ctx: RefContext },
    Signal(SignalView),
}

pub ghost enum SignalView {
    Break,
    Return(Box<ValueView>),
}

pub ghost struct ContextView {
    pub parent: Option<RefContext>,
    pub variables: Map<Seq<char>, ValueView>,
}

pub open spec fn value_view(v: RuntimeValue) -> ValueView
    decreases v,
{
    match v {
        RuntimeValue::Never => ValueView::Never,
        RuntimeValue::Bool(b) => ValueView::Bool(b),
        RuntimeValue::Float(bits) => ValueView::Float(bits),
        RuntimeValue::Int(i) => ValueView::Int(i),
        RuntimeValue::String(text) => ValueView::String(text@),
        RuntimeValue::Object(entries) => ValueView::Object(bindings_view(entries@)),
        RuntimeValue::Error(message) => ValueView::Error(message@),
        RuntimeValue::ExternFn(handle) => ValueView::ExternFn(handle),
        RuntimeValue::Fn { identifier, params, body, decl_ctx } => ValueView::Fn {
            identifier: identifier@,
            params: parameter_views(params@),
            body: Box::new(body@),
            decl_ctx,
        },
        RuntimeValue::Signal(signal) => ValueView::Signal(
            match signal {
                Signal::Break => SignalView::Break,
                Signal::Return(value) => SignalView::Return(Box::new(value_view(*value))),
            },
        ),
    }
}

/// The mapping that a list of bindings stands for: later bindings win.
pub open spec fn bindings_view(entries: Seq<Binding>) -> Map<Seq<char>, ValueView>
    decreases entries,
{
    if entries.len() == 0 {
        Map::empty()
    } else {
        bindings_view(entries.drop_last()).insert(
            entries.last().name@,
            value_view(entries.last().value),
        )
    }
}

impl View for RuntimeValue {
    type V = ValueView;

    open spec fn view(&self) -> ValueView {
        value_view(*self)
    }
}

impl View for Context {
    type V = ContextView;

    open spec fn view(&self) -> ContextView {
        ContextView { parent: self.parent, variables: bindings_view(self.variables@) }
    }
}

/// The views of a list of values.
pub open spec fn value_views(values: Seq<RuntimeValue>) -> Seq<ValueView> {
    values.map_values(|v: RuntimeValue| v@)
}

/// The views of a list of scopes.
pub open spec fn context_views(contexts: Seq<Context>) -> Seq<ContextView> {
    contexts.map_values(|c: Context| c@)
}

/// What can stop an evaluation for good. The evaluator reports these in place
/// of going on with a value.
#[derive(Debug, PartialEq, Eq, Clone, Copy, Structural)]
pub enum Fault {
    /// A binary expression carries a symbol that is no arithmetic operator.
    UnknownOperator,
    /// The text of a number literal denotes no number of its type.
    MalformedNumber,
    /// An integer division or remainder by zero.
    DivisionByZero,
    /// An integer division whose quotient does not fit in 64 bits.
    Overflow,
    /// A scope handle points outside the arena.
    DanglingContext,
    /// The budget of calls and loop rounds is used up.
    OutOfFuel,
}

/// Two binding lists that agree entry by entry.
pub open spec fn same_bindings(a: Seq<Binding>, b: Seq<Binding>) -> bool {
    &&& a.len() == b.len()
    &&& forall|k: int|
        0 <= k < a.len() ==> (#[trigger] a[k]).name@ == b[k].name@ && a[k].value@ == b[k].value@
}

/// Lists that agree entry by entry stand for the same mapping.
pub proof fn lemma_same_bindings(a: Seq<Binding>, b: Seq<Binding>)
    requires
        same_bindings(a, b),
    ensures
        bindings_view(a) == bindings_view(b),
    decreases a.len(),
{
    if a.len() > 0 {
        assert(a.last().name@ == b.last().name@ && a.last().value@ == b.last().value@) by {
            assert(a[a.len() - 1].name@ == b[a.len() - 1].name@);
        }
        assert(same_bindings(a.drop_last(), b.drop_last())) by {
            assert forall|k: int| 0 <= k < a.drop_last().len() implies (
            #[trigger] a.drop_last()[k]).name@ == b.drop_last()[k].name@ && a.drop_last()[k].value@
                == b.drop_last()[k].value@ by {
                assert(a[k].name@ == b[k].name@);
            }
        }
        lemma_same_bindings(a.drop_last(), b.drop_last());
    }
}

/// Whether no binding from position `from` on carries the name.
pub open spec fn absent_from(entries: Seq<Binding>, from: int, name: Seq<char>) -> bool {
    forall|k: int| from <= k < entries.len() ==> (#[trigger] entries[k]).name@ != name
}

/// A name that no binding carries is not in the mapping.
pub proof fn lemma_bindings_absent(entries: Seq<Binding>, name: Seq<char>)
    requires
        absent_from(entries, 0, name),
    ensures
        !bindings_view(entries).contains_key(name),
    decreases entries.len(),
{
    if entries.len() > 0 {
        assert(entries[entries.len() - 1].name@ != name);
        assert(absent_from(entries.drop_last(), 0, name)) by {
            assert forall|k: int| 0 <= k < entries.drop_last().len() implies (
            #[trigger] entries.drop_last()[k]).name@ != name by {
                assert(entries[k].name@ != name);
            }
        }
        lemma_bindings_absent(entries.drop_last(), name);
    }
}

/// The last binding that carries a name gives the name its value.
pub proof fn lemma_bindings_found(entries: Seq<Binding>, at: int, name: Seq<char>)
    requires
        0 <= at < entries.len(),
        entries[at].name@ == name,
        absent_from(entries, at + 1, name),
    ensures
        bindings_view(entries).contains_key(name),
        bindings_view(entries)[name] == entries[at].value@,
    decreases entries.len(),
{
    if at < entries.len() - 1 {
        assert(entries[entries.len() - 1].name@ != name);
        assert(absent_from(entries.drop_last(), at + 1, name)) by {
            assert forall|k: int| at + 1 <= k < entries.drop_last().len() implies (
            #[trigger] entries.drop_last()[k]).name@ != name by {
                assert(entries[k].name@ != name);
            }
        }
        lemma_bindings_found(entries.drop_last(), at, name);
    }
}

/// Replacing the last binding that carries a name rebinds the name.
pub proof fn lemma_bindings_update(entries: Seq<Binding>, at: int, binding: Binding)
    requires
        0 <= at < entries.len(),
        entries[at].name@ == binding.name@,
        absent_from(entries, at + 1, binding.name@),
    ensures
        bindings_view(entries.update(at, binding)) == bindings_view(entries).insert(
            binding.name@,
            binding.value@,
        ),
    decreases entries.len(),
{
    let updated = entries.update(at, binding);
    if at == entries.len() - 1 {
        assert(updated.drop_last() =~= entries.drop_last());
        assert(bindings_view(updated) =~= bindings_view(entries).insert(
            binding.name@,
            binding.value@,
        ));
    } else {
        assert(entries[entries.len() - 1].name@ != binding.name@);
        assert(absent_from(entries.drop_last(), at + 1, binding.name@)) by {
            assert forall|k: int| at + 1 <= k < entries.drop_last().len() implies (
            #[trigger] entries.drop_last()[k]).name@ != binding.name@ by {
                assert(entries[k].name@ != binding.name@);
            }
        }
        lemma_bindings_update(entries.drop_last(), at, binding);
        assert(updated.drop_last() =~= entries.drop_last().update(at, binding));
        assert(updated.last() == entries.last());
        assert(bindings_view(updated) =~= bindings_view(entries).insert(
            binding.name@,
            binding.value@,
        ));
    }
}

/// Appending a binding binds its name.
pub proof fn lemma_bindings_push(entries: Seq<Binding>, binding: Binding)
    ensures
        bindings_view(entries.push(binding)) == bindings_view(entries).insert(
            binding.name@,
            binding.value@,
        ),
{
    assert(entries.push(binding).drop_last() =~= entries);
}

/// A copy of a value.
pub fn clone_value(v: &RuntimeValue) -> (out: RuntimeValue)
    ensures
        out@ == v@,
    decreases v,
{
    match v {
        RuntimeValue::Never => RuntimeValue::Never,
        RuntimeValue::Bool(b) => RuntimeValue::Bool(*b),
        RuntimeValue::Float(bits) => RuntimeValue::Float(*bits),
        RuntimeValue::Int(i) => RuntimeValue::Int(*i),
        RuntimeValue::String(text) => RuntimeValue::String(text.clone()),
        RuntimeValue::Object(entries) => RuntimeValue::Object(clone_bindings(entries)),
        RuntimeValue::Error(message) => RuntimeValue::Error(message.clone()),
        RuntimeValue::ExternFn(handle) => RuntimeValue::ExternFn(*handle),
        RuntimeValue::Fn { identifier, params, body, decl_ctx } => RuntimeValue::Fn {
            identifier: identifier.clone(),
            params: clone_parameters(params),
            body: Box::new(clone_expr(body)),
            decl_ctx: *decl_ctx,
        },
        RuntimeValue::Signal(signal) => RuntimeValue::Signal(
            match signal {
                Signal::Break => Signal::Break,
                Signal::Return(value) => Signal::Return(Box::new(clone_value(value))),
            },
        ),
    }
}

/// A copy of a list of bindings.
pub fn clone_bindings(entries: &Vec<Binding>) -> (out: Vec<Binding>)
    ensures
        same_bindings(out@, entries@),
        bindings_view(out@) == bindings_view(entries@),
    decreases entries,
{
    let mut out: Vec<Binding> = Vec::new();
    let mut i: usize = 0;
    while i < entries.len()
        invariant
            i <= entries.len(),
            out.len() == i,
            forall|k: int|
                0 <= k < i ==> (#[trigger] out[k]).name@ == entries[k].name@ && out[k].value@
                    == entries[k].value@,
        decreases entries.len() - i,
    {
        let entry = &entries[i];
        out.push(Binding { name: entry.name.clone(), value: clone_value(&entry.value) });
        i += 1;
    }
    proof {
        lemma_same_bindings(out@, entries@);
    }
    out
}

impl Clone for RuntimeValue {
    fn clone(&self) -> (out: Self)
        ensures
            out@ == self@,
    {
        clone_value(self)
    }
}

/// The position of the last binding that carries the name.
pub fn find_binding(entries: &Vec<Binding>, name: &str) -> (found: Option<usize>)
    ensures
        match found {
            Some(at) => at < entries.len() && entries[at as int].name@ == name@ && absent_from(
                entries@,
                at + 1,
                name@,
            ),
            None => absent_from(entries@, 0, name@),
        },
{
    let mut i: usize = entries.len();
    while i > 0
        invariant
            i <= entries.len(),
            absent_from(entries@, i as int, name@),
        decreases i,
    {
        i -= 1;
        if text_eq(entries[i].name.as_str(), name) {
            return Some(i);
        }
    }
    None
}

/// Binds `name` to `value` in a list of bindings: the last binding of that
/// name is replaced or, where there is none, a binding is added.
pub fn bind(entries: &mut Vec<Binding>, name: &str, value: RuntimeValue)
    ensures
        bindings_view(final(entries)@) == bindings_view(old(entries)@).insert(name@, value@),
{
    let binding = Binding { name: String::from_str(name), value };
    match find_binding(entries, name) {
        Some(at) => {
            proof {
                lemma_bindings_update(entries@, at as int, binding);
            }
            entries.set(at, binding);
        },
        None => {
            proof {
                lemma_bindings_push(entries@, binding);
            }
            entries.push(binding);
        },
    }
}

impl Context {
    /// A scope without bindings.
    pub fn new(parent: Option<RefContext>) -> (out: Context)
        ensures
            out@ == (ContextView { parent, variables: Map::empty() }),
    {
        Context { parent, variables: Vec::new() }
    }

    /// Binds `name` to `value` in this scope, whether or not the name was bound
    /// here before, and hands the value back.
    pub fn let_variable(&mut self, name: &str, value: RuntimeValue) -> (out: RuntimeValue)
        ensures
            out@ == value@,
            final(self)@ == (ContextView {
                parent: old(self).parent,
                variables: old(self)@.variables.insert(name@, value@),
            }),
    {
        let out = clone_value(&value);
        bind(&mut self.variables, name, value);
        out
    }

    /// The value of `name` as seen from this scope: its own binding or, where
    /// it has none, what its parent sees in `arena`.
    pub fn get_variable(&self, name: &str, arena: &Arena) -> (out: Option<RuntimeValue>)
        ensures
            match out {
                Some(value) => seen_from(self@, arena@, name@) == Some(value@),
                None => seen_from(self@, arena@, name@) is None,
            },
    {
        match self.own_variable(name) {
            Some(value) => Some(value),
            None => match self.parent {
                Some(parent) => arena.get_variable(parent, name),
                None => None,
            },
        }
    }

    /// The value that this scope itself binds to `name`.
    pub fn own_variable(&self, name: &str) -> (out: Option<RuntimeValue>)
        ensures
            match out {
                Some(value) => self@.variables.contains_key(name@) && value@
                    == self@.variables[name@],
                None => !self@.variables.contains_key(name@),
            },
    {
        match find_binding(&self.variables, name) {
            Some(at) => {
                proof {
                    lemma_bindings_found(self.variables@, at as int, name@);
                }
                Some(clone_value(&self.variables[at].value))
            },
            None => {
                proof {
                    lemma_bindings_absent(self.variables@, name@);
                }
                None
            },
        }
    }
}

/// All scopes of a run. No function of this crate removes a scope, so a
/// handle stays good once it was given out.
#[derive(Debug)]
pub struct Arena {
    pub contexts: Vec<Context>,
}

impl View for Arena {
    type V = Seq<ContextView>;

    open spec fn view(&self) -> Seq<ContextView> {
        context_views(self.contexts@)
    }
}

/// The value of `name` as seen from scope `ctx`: that of the innermost scope
/// that binds it, going from `ctx` outward along the parent links.
pub open spec fn lookup(arena: Seq<ContextView>, ctx: RefContext, name: Seq<char>) -> Option<
    ValueView,
> {
    match holder(arena, ctx, name) {
        Some(at) => Some(arena[at as int].variables[name]),
        None => None,
    }
}

/// The innermost scope that binds `name`, going from `ctx` outward along the
/// parent links, whatever scope a link points to. A chain of parents that
/// ends holds no scope twice, so it is no longer than the arena, and the walk
/// covers all of it; a chain that runs in a circle is given up after as many
/// steps as the arena has scopes.
pub open spec fn holder(arena: Seq<ContextView>, ctx: RefContext, name: Seq<char>) -> Option<
    RefContext,
> {
    holder_within(arena, ctx, name, arena.len())
}

/// The same over the first `steps` scopes of the chain.
pub open spec fn holder_within(
    arena: Seq<ContextView>,
    ctx: RefContext,
    name: Seq<char>,
    steps: nat,
) -> Option<RefContext>
    decreases steps,
{
    if steps == 0 || ctx >= arena.len() {
        None
    } else if arena[ctx as int].variables.contains_key(name) {
        Some(ctx)
    } else {
        match arena[ctx as int].parent {
            Some(parent) => holder_within(arena, parent, name, (steps - 1) as nat),
            None => None,
        }
    }
}

/// The value of `name` as seen from a scope that may not be in the arena
/// itself: its own binding, else what its parent sees.
pub open spec fn seen_from(context: ContextView, arena: Seq<ContextView>, name: Seq<char>)
    -> Option<ValueView> {
    if context.variables.contains_key(name) {
        Some(context.variables[name])
    } else {
        match context.parent {
            Some(parent) => lookup(arena, parent, name),
            None => None,
        }
    }
}

/// The arena after `name` was bound to `value` in scope `ctx`.
pub open spec fn declare(
    arena: Seq<ContextView>,
    ctx: RefContext,
    name: Seq<char>,
    value: ValueView,
) -> Seq<ContextView>
    recommends
        ctx < arena.len(),
{
    arena.update(
        ctx as int,
        ContextView {
            parent: arena[ctx as int].parent,
            variables: arena[ctx as int].variables.insert(name, value),
        },
    )
}

impl Arena {
    /// An arena without scopes.
    pub fn new() -> (out: Arena)
        ensures
            out@ == Seq::<ContextView>::empty(),
    {
        let out = Arena { contexts: Vec::new() };
        assert(out@ =~= Seq::<ContextView>::empty());
        out
    }

    /// The number of scopes.
    pub fn len(&self) -> (out: usize)
        ensures
            out == self@.len(),
    {
        self.contexts.len()
    }

    /// Adds a scope without bindings and gives its handle.
    pub fn new_context(&mut self, parent: Option<RefContext>) -> (ctx: RefContext)
        ensures
            ctx == old(self)@.len(),
            final(self)@ == old(self)@.push(ContextView { parent, variables: Map::empty() }),
    {
        let ctx = self.contexts.len();
        self.contexts.push(Context::new(parent));
        assert(self@ =~= old(self)@.push(ContextView { parent, variables: Map::empty() }));
        ctx
    }

    /// Adds a scope as it is and gives its handle.
    pub fn adopt(&mut self, context: Context) -> (ctx: RefContext)
        ensures
            ctx == old(self)@.len(),
            final(self)@ == old(self)@.push(context@),
    {
        let ctx = self.contexts.len();
        self.contexts.push(context);
        assert(self@ =~= old(self)@.push(context@));
        ctx
    }

    /// The innermost scope, from `ctx` outward, that binds `name`.
    pub fn get_variable_context(&self, ctx: RefContext, name: &str) -> (out: Option<RefContext>)
        ensures
            out == holder(self@, ctx, name@),
    {
        let mut current = ctx;
        let mut steps = self.contexts.len();
        loop
            invariant
                holder_within(self@, current, name@, steps as nat) == holder(self@, ctx, name@),
            decreases steps,
        {
            if steps == 0 || current >= self.contexts.len() {
                return None;
            }
            let context = &self.contexts[current];
            assert(self@[current as int] == context@);
            match find_binding(&context.variables, name) {
                Some(at) => {
                    proof {
                        lemma_bindings_found(context.variables@, at as int, name@);
                    }
                    return Some(current);
                },
                None => {
                    proof {
                        lemma_bindings_absent(context.variables@, name@);
                    }
                    match context.parent {
                        Some(parent) => {
                            current = parent;
                            steps -= 1;
                        },
                        None => {
                            return None;
                        },
                    }
                },
            }
        }
    }

    /// The value of `name` as seen from scope `ctx`.
    pub fn get_variable(&self, ctx: RefContext, name: &str) -> (out: Option<RuntimeValue>)
        ensures
            match out {
                Some(value) => lookup(self@, ctx, name@) == Some(value@),
                None => lookup(self@, ctx, name@) is None,
            },
    {
        match self.get_variable_context(ctx, name) {
            Some(at) => {
                assert(at < self@.len() && self@[at as int].variables.contains_key(name@)) by {
                    lemma_holder(self@, ctx, name@);
                }
                let context = &self.contexts[at];
                assert(self@[at as int] == context@);
                context.own_variable(name)
            },
            None => None,
        }
    }

    /// Binds `name` to `value` in scope `ctx` and hands the value back. The
    /// arena is left as it is where `ctx` is no scope of it.
    pub fn let_variable(&mut self, ctx: RefContext, name: &str, value: RuntimeValue) -> (out:
        Result<RuntimeValue, Fault>)
        ensures
            match out {
                Ok(given) => ctx < old(self)@.len() && given@ == value@ && final(self)@ == declare(
                    old(self)@,
                    ctx,
                    name@,
                    value@,
                ),
                Err(fault) => ctx >= old(self)@.len() && fault == Fault::DanglingContext
                    && final(self)@ == old(self)@,
            },
    {
        if ctx >= self.contexts.len() {
            return Err(Fault::DanglingContext);
        }
        assert(old(self)@[ctx as int] == old(self).contexts[ctx as int]@);
        let context = &mut self.contexts[ctx];
        let out = context.let_variable(name, value);
        assert(self@ =~= declare(old(self)@, ctx, name@, value@));
        Ok(out)
    }
}

/// The scope that holds a name is a scope of the arena and binds the name.
pub proof fn lemma_holder(arena: Seq<ContextView>, ctx: RefContext, name: Seq<char>)
    ensures
        match holder(arena, ctx, name) {
            Some(at) => at < arena.len() && arena[at as int].variables.contains_key(name),
            None => true,
        },
{
    lemma_holder_within(arena, ctx, name, arena.len());
}

/// The same for a walk of any length.
pub proof fn lemma_holder_within(
    arena: Seq<ContextView>,
    ctx: RefContext,
    name: Seq<char>,
    steps: nat,
)
    ensures
        match holder_within(arena, ctx, name, steps) {
            Some(at) => at < arena.len() && arena[at as int].variables.contains_key(name),
            None => true,
        },
    decreases steps,
{
    if steps > 0 && ctx < arena.len() && !arena[ctx as int].variables.contains_key(name) {
        match arena[ctx as int].parent {
            Some(parent) => {
                lemma_holder_within(arena, parent, name, (steps - 1) as nat);
            },
            None => {},
        }
    }
}

} // verus!
