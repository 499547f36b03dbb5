//! The expression tree that the parser builds and the evaluator walks.

use vstd::prelude::*;

verus! {

/// The arithmetic operators.
#[derive(Debug, PartialEq, Eq, Clone, Copy, Structural)]
pub enum BinaryOp {
    Add,
    Sub,
    Mul,
    Div,
    Mod,
}

#[derive(Debug)]
#[allow(inconsistent_fields)]
pub enum Expr {
    Program(Vec<Expr>),
    VarDecl { constant: bool, identifier: Symbol, value: Box<Expr> },
    FnDecl { identifier: Symbol, params: Vec<Parameter>, body: Box<Expr> },
    BinaryExpr { left: Box<Expr>, right: Box<Expr>, op: String },
    AssignExpr { target: Box<Expr>, value: Box<Expr> },
    Eq { left: Box<Expr>, right: Box<Expr> },
    NotEq { left: Box<Expr>, right: Box<Expr> },
    MemberExpr { object: Box<Expr>, property: Box<Expr>, computed: bool },
    CallExpr { caller: Box<Expr>, args: Vec<Expr> },
    IfExpr { when: Box<Expr>, then_branch: Box<Expr>, other: Option<Box<Expr>> },
    Body { body: Vec<Expr> },
    Loop { body: Vec<Expr> },
    Break,
    Return { expr: Box<Expr> },
    Error(String),
    Never,
    Identifier(Symbol),
    String(String),
    Number(String),
    Object { props: Vec<Property> },
    Property(Box<Property>),
}

#[derive(Debug)]
pub struct Property {
    pub identifier: Symbol,
    pub value: Option<Expr>,
}

#[derive(Debug, PartialEq)]
pub struct Symbol {
    pub name: String,
}

#[derive(Debug)]
pub struct Parameter {
    pub name: String,
}

/// An expression tree as a mathematical value: text is a sequence of
/// characters, a list is a sequence, a name is its text.
#[allow(inconsistent_fields)]
pub ghost enum ExprView {
    Program(Seq<ExprView>),
    VarDecl { constant: bool, identifier: Seq<char>, value: Box<ExprView> },
    FnDecl { identifier: Seq<char>, params: Seq<Seq<char>>, body: Box<ExprView> },
    BinaryExpr { left: Box<ExprView>, right: Box<ExprView>, op: Seq<char> },
    AssignExpr { target: Box<ExprView>, value: Box<ExprView> },
    Eq { left: Box<ExprView>, right: Box<ExprView> },
    NotEq { left: Box<ExprView>, right: Box<ExprView> },
    MemberExpr { object: Box<ExprView>, property: Box<ExprView>, computed: bool },
    CallExpr { caller: Box<ExprView>, args: Seq<ExprView> },
    IfExpr { when: Box<ExprView>, then_branch: Box<ExprView>, other: Option<Box<ExprView>> },
    Body { body: Seq<ExprView> },
    Loop { body: Seq<ExprView> },
    Break,
    Return { expr: Box<ExprView> },
    Error(Seq<char>),
    Never,
    Identifier(Seq<char>),
    String(Seq<char>),
    Number(Seq<char>),
    Object { props: Seq<PropertyView> },
    Property(Box<PropertyView>),
}

pub ghost struct PropertyView {
    pub identifier: Seq<char>,
    pub value: Option<ExprView>,
}

impl View for Symbol {
    type V = Seq<char>;

    open spec fn view(&self) -> Seq<char> {
        self.name@
    }
}

impl View for Parameter {
    type V = Seq<char>;

    open spec fn view(&self) -> Seq<char> {
        self.name@
    }
}

/// The names of a parameter list.
pub open spec fn parameter_views(params: Seq<Parameter>) -> Seq<Seq<char>> {
    params.map_values(|p: Parameter| p@)
}

pub open spec fn expr_view(e: Expr) -> ExprView
    decreases e,
{
    match e {
        Expr::Program(body) => ExprView::Program(expr_views(body@)),
        Expr::VarDecl { constant, identifier, value } => ExprView::VarDecl {
            constant,
            identifier: identifier@,
            value: Box::new(expr_view(*value)),
        },
        Expr::FnDecl { identifier, params, body } => ExprView::FnDecl {
            identifier: identifier@,
            params: parameter_views(params@),
            body: Box::new(expr_view(*body)),
        },
        Expr::BinaryExpr { left, right, op } => ExprView::BinaryExpr {
            left: Box::new(expr_view(*left)),
            right: Box::new(expr_view(*right)),
            op: op@,
        },
        Expr::AssignExpr { target, value } => ExprView::AssignExpr {
            target: Box::new(expr_view(*target)),
            value: Box::new(expr_view(*value)),
        },
        Expr::Eq { left, right } => ExprView::Eq {
            left: Box::new(expr_view(*left)),
            right: Box::new(expr_view(*right)),
        },
        Expr::NotEq { left, right } => ExprView::NotEq {
            left: Box::new(expr_view(*left)),
            right: Box::new(expr_view(*right)),
        },
        Expr::MemberExpr { object, property, computed } => ExprView::MemberExpr {
            object: Box::new(expr_view(*object)),
            property: Box::new(expr_view(*property)),
            computed,
        },
        Expr::CallExpr { caller, args } => ExprView::CallExpr {
            caller: Box::new(expr_view(*caller)),
            args: expr_views(args@),
        },
        Expr::IfExpr { when, then_branch, other } => ExprView::IfExpr {
            when: Box::new(expr_view(*when)),
            then_branch: Box::new(expr_view(*then_branch)),
            other: match other {
                Some(e) => Some(Box::new(expr_view(*e))),
                None => None,
            },
        },
        Expr::Body { body } => ExprView::Body { body: expr_views(body@) },
        Expr::Loop { body } => ExprView::Loop { body: expr_views(body@) },
        Expr::Break => ExprView::Break,
        Expr::Return { expr } => ExprView::Return { expr: Box::new(expr_view(*expr)) },
        Expr::Error(message) => ExprView::Error(message@),
        Expr::Never => ExprView::Never,
        Expr::Identifier(symbol) => ExprView::Identifier(symbol@),
        Expr::String(text) => ExprView::String(text@),
        Expr::Number(text) => ExprView::Number(text@),
        Expr::Object { props } => ExprView::Object { props: property_views(props@) },
        Expr::Property(property) => ExprView::Property(Box::new(property_view(*property))),
    }
}

pub open spec fn expr_views(list: Seq<Expr>) -> Seq<ExprView>
    decreases list,
{
    Seq::new(
        list.len(),
        |i: int|
            if 0 <= i < list.len() {
                expr_view(list[i])
            } else {
                ExprView::Never
            },
    )
}

pub open spec fn property_view(p: Property) -> PropertyView
    decreases p,
{
    PropertyView {
        identifier: p.identifier@,
        value: match p.value {
            Some(e) => Some(expr_view(e)),
            None => None,
        },
    }
}

pub open spec fn property_views(list: Seq<Property>) -> Seq<PropertyView>
    decreases list,
{
    Seq::new(
        list.len(),
        |i: int|
            if 0 <= i < list.len() {
                property_view(list[i])
            } else {
                PropertyView { identifier: Seq::empty(), value: None }
            },
    )
}

impl View for Expr {
    type V = ExprView;

    open spec fn view(&self) -> ExprView {
        expr_view(*self)
    }
}

impl View for Property {
    type V = PropertyView;

    open spec fn view(&self) -> PropertyView {
        property_view(*self)
    }
}

impl Clone for Symbol {
    fn clone(&self) -> (out: Self)
        ensures
            out@ == self@,
    {
        Symbol { name: self.name.clone() }
    }
}

impl Clone for Parameter {
    fn clone(&self) -> (out: Self)
        ensures
            out@ == self@,
    {
        Parameter { name: self.name.clone() }
    }
}

/// A copy of a parameter list.
pub fn clone_parameters(params: &Vec<Parameter>) -> (out: Vec<Parameter>)
    ensures
        parameter_views(out@) == parameter_views(params@),
{
    let mut out: Vec<Parameter> = Vec::new();
    let mut i: usize = 0;
    while i < params.len()
        invariant
            i <= params.len(),
            out.len() == i,
            forall|k: int| 0 <= k < i ==> out[k]@ == params[k]@,
        decreases params.len() - i,
    {
        out.push(params[i].clone());
        i += 1;
    }
    assert(parameter_views(out@) =~= parameter_views(params@));
    out
}

/// A copy of an expression tree.
pub fn clone_expr(e: &Expr) -> (out: Expr)
    ensures
        out@ == e@,
    decreases e,
{
    match e {
        Expr::Program(body) => Expr::Program(clone_exprs(body)),
        Expr::VarDecl { constant, identifier, value } => Expr::VarDecl {
            constant: *constant,
            identifier: identifier.clone(),
            value: Box::new(clone_expr(value)),
        },
        Expr::FnDecl { identifier, params, body } => Expr::FnDecl {
            identifier: identifier.clone(),
            params: clone_parameters(params),
            body: Box::new(clone_expr(body)),
        },
        Expr::BinaryExpr { left, right, op } => Expr::BinaryExpr {
            left: Box::new(clone_expr(left)),
            right: Box::new(clone_expr(right)),
            op: op.clone(),
        },
        Expr::AssignExpr { target, value } => Expr::AssignExpr {
            target: Box::new(clone_expr(target)),
            value: Box::new(clone_expr(value)),
        },
        Expr::Eq { left, right } => Expr::Eq {
            left: Box::new(clone_expr(left)),
            right: Box::new(clone_expr(right)),
        },
        Expr::NotEq { left, right } => Expr::NotEq {
            left: Box::new(clone_expr(left)),
            right: Box::new(clone_expr(right)),
        },
        Expr::MemberExpr { object, property, computed } => Expr::MemberExpr {
            object: Box::new(clone_expr(object)),
            property: Box::new(clone_expr(property)),
            computed: *computed,
        },
        Expr::CallExpr { caller, args } => Expr::CallExpr {
            caller: Box::new(clone_expr(caller)),
            args: clone_exprs(args),
        },
        Expr::IfExpr { when, then_branch, other } => Expr::IfExpr {
            when: Box::new(clone_expr(when)),
            then_branch: Box::new(clone_expr(then_branch)),
            other: match other {
                Some(e) => Some(Box::new(clone_expr(e))),
                None => None,
            },
        },
        Expr::Body { body } => Expr::Body { body: clone_exprs(body) },
        Expr::Loop { body } => Expr::Loop { body: clone_exprs(body) },
        Expr::Break => Expr::Break,
        Expr::Return { expr } => Expr::Return { expr: Box::new(clone_expr(expr)) },
        Expr::Error(message) => Expr::Error(message.clone()),
        Expr::Never => Expr::Never,
        Expr::Identifier(symbol) => Expr::Identifier(symbol.clone()),
        Expr::String(text) => Expr::String(text.clone()),
        Expr::Number(text) => Expr::Number(text.clone()),
        Expr::Object { props } => Expr::Object { props: clone_properties(props) },
        Expr::Property(property) => Expr::Property(Box::new(clone_property(property))),
    }
}

/// A copy of a list of expression trees.
pub fn clone_exprs(list: &Vec<Expr>) -> (out: Vec<Expr>)
    ensures
        expr_views(out@) == expr_views(list@),
    decreases list,
{
    let mut out: Vec<Expr> = Vec::new();
    let mut i: usize = 0;
    while i < list.len()
        invariant
            i <= list.len(),
            out.len() == i,
            forall|k: int| 0 <= k < i ==> out[k]@ == list[k]@,
        decreases list.len() - i,
    {
        out.push(clone_expr(&list[i]));
        i += 1;
    }
    assert(expr_views(out@) =~= expr_views(list@));
    out
}

/// A copy of a property.
pub fn clone_property(p: &Property) -> (out: Property)
    ensures
        out@ == p@,
    decreases p,
{
    Property {
        identifier: p.identifier.clone(),
        value: match &p.value {
            Some(e) => Some(clone_expr(e)),
            None => None,
        },
    }
}

/// A copy of a property list.
pub fn clone_properties(list: &Vec<Property>) -> (out: Vec<Property>)
    ensures
        property_views(out@) == property_views(list@),
    decreases list,
{
    let mut out: Vec<Property> = Vec::new();
    let mut i: usize = 0;
    while i < list.len()
        invariant
            i <= list.len(),
            out.len() == i,
            forall|k: int| 0 <= k < i ==> out[k]@ == list[k]@,
        decreases list.len() - i,
    {
        out.push(clone_property(&list[i]));
        i += 1;
    }
    assert(property_views(out@) =~= property_views(list@));
    out
}

impl Clone for Expr {
    fn clone(&self) -> (out: Self)
        ensures
            out@ == self@,
    {
        clone_expr(self)
    }
}

impl Clone for Property {
    fn clone(&self) -> (out: Self)
        ensures
            out@ == self@,
    {
        clone_property(self)
    }
}

/// The text that the derived `Debug` formatting gives for an expression tree.
pub uninterp spec fn expr_debug(e: ExprView) -> Seq<char>;

/// `format!("{:?}", e)` of the standard library, with the `Debug` impl that
/// `derive` writes for [`Expr`]. The result is a function of the tree alone; it
/// is given the name [`expr_debug`] and nothing more is claimed of it.
#[verifier::external_body]
pub(crate) fn debug_expr(e: &Expr) -> (out: String)
    ensures
        out@ == expr_debug(e@),
{
    format!("{:?}", e)
}

} // verus!
