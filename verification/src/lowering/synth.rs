//! Synthetic nodes.

use vstd::prelude::*;

use crate::api::ast;
use crate::api::ast::{Ident, Pattern, PatternV, Type, TypeV};
use crate::api::expr;
use crate::api::expr::{Expr, Head, Tree};
use crate::span::{SimpleSpan, SpanWrap, Spanned};
use crate::text;
use crate::text::{cat, decimal_text, same, Text};

verus! {

/// The named type `name` at `span`.
pub open spec fn named(name: Text, span: SimpleSpan) -> TypeV {
    TypeV::Named(Spanned { inner: name, span })
}

pub fn named_type(name: &str, span: SimpleSpan) -> (r: Type)
    ensures
        ast::type_view(r) == named(name@, span),
{
    Type::Named(Ident::new(name).with_span(span))
}

/// A reference to a variable.
pub open spec fn var_tree(name: Text, ty: TypeV, span: SimpleSpan) -> Tree {
    expr::leaf(Head::Var(name, ty), span)
}

/// A reference to a variable whose type is still open.
pub open spec fn open_var(name: Text, span: SimpleSpan) -> Tree {
    var_tree(name, TypeV::Unknown, span)
}

pub fn open_var_expr(name: &str, span: SimpleSpan) -> (r: Spanned<Expr>)
    ensures
        expr::tree_of(r) == open_var(name@, span),
{
    Expr::Var(name.to_owned(), Type::Unknown).with_span(span)
}

/// `let name ty = value`, all of it at `span`.
pub open spec fn let_tree(name: Text, ty: TypeV, value: Tree, span: SimpleSpan) -> Tree {
    expr::node(
        Head::Let(Spanned { inner: name, span }, Spanned { inner: ty, span }),
        span,
        seq![value],
    )
}

/// `let name = value`, all of it at `span`.
pub open spec fn open_let(name: Text, value: Tree, span: SimpleSpan) -> Tree {
    let_tree(name, TypeV::Unknown, value, span)
}

pub fn let_expr(name: &str, ty: Type, value: Spanned<Expr>, span: SimpleSpan) -> (r: Spanned<Expr>)
    ensures
        expr::tree_of(r) == let_tree(name@, ast::type_view(ty), expr::tree_of(value), span),
{
    Expr::Let {
        ident: Ident::new(name).with_span(span),
        ty: ty.with_span(span),
        default: Some(Box::new(value)),
    }.with_span(span)
}

/// `name.index`, all of it at `span`.
pub open spec fn slot_of(name: Text, index: usize, span: SimpleSpan) -> Tree {
    expr::node(Head::TupleIndex(index), span, seq![open_var(name, span)])
}

pub fn slot_expr(name: &str, index: usize, span: SimpleSpan) -> (r: Spanned<Expr>)
    ensures
        expr::tree_of(r) == slot_of(name@, index, span),
{
    let receiver = open_var_expr(name, span);
    Expr::TupleIndex { receiver: Box::new(receiver), index }.with_span(span)
}

/// The first subexpression of a node.
pub open spec fn operand(t: Tree) -> Tree {
    if t.kids.len() > 0 {
        t.kids[0]
    } else {
        expr::leaf(Head::Unit, t.span)
    }
}

/// `self` as a pid.
pub open spec fn self_tree(span: SimpleSpan) -> Tree {
    var_tree("self"@, named("pid"@, span), span)
}

pub fn synth_self(span: SimpleSpan) -> (r: Spanned<Expr>)
    ensures
        expr::tree_of(r) == self_tree(span),
{
    Expr::Var("self".to_owned(), named_type("pid", span)).with_span(span)
}

/// The pid that stands for nobody.
pub open spec fn null_pid(span: SimpleSpan) -> Tree {
    expr::leaf(Head::Num("0"@, named("pid"@, span)), span)
}

pub fn synth_null_pid(span: SimpleSpan) -> (r: Spanned<Expr>)
    ensures
        expr::tree_of(r) == null_pid(span),
{
    Expr::Num("0".to_owned(), named_type("pid", span)).with_span(span)
}

/// A reference to the implicit caller.
pub open spec fn caller_var(span: SimpleSpan) -> Tree {
    var_tree("__caller"@, named("pid"@, span), span)
}

pub fn synth_caller(span: SimpleSpan) -> (r: Spanned<Expr>)
    ensures
        expr::tree_of(r) == caller_var(span),
{
    Expr::Var("__caller".to_owned(), named_type("pid", span)).with_span(span)
}

/// The send `__caller(self value)`.
pub open spec fn caller_send(span: SimpleSpan, value: Tree) -> Tree {
    expr::node(Head::Jump, span, seq![caller_var(span), self_tree(span), value])
}

pub fn build_caller_send(span: SimpleSpan, value: Spanned<Expr>) -> (r: Expr)
    ensures
        expr::tree(r, span) == caller_send(span, expr::tree_of(value)),
{
    let mut args: Vec<Spanned<Expr>> = Vec::new();
    args.push(synth_self(span));
    args.push(value);
    let r = Expr::Jump { ident: Box::new(synth_caller(span)), args };
    proof {
        assert(expr::trees(args@) =~= seq![self_tree(span), expr::tree_of(value)]);
        assert(expr::tree(r, span).kids =~= seq![
            caller_var(span),
            self_tree(span),
            expr::tree_of(value),
        ]);
    }
    r
}

/// The implicit `__caller pid` parameter.
pub open spec fn caller_pattern(span: SimpleSpan) -> Spanned<PatternV> {
    Spanned {
        inner: ast::new_pattern(
            Spanned { inner: "__caller"@, span },
            Spanned { inner: named("pid"@, span), span },
        ),
        span,
    }
}

pub fn synth_caller_pattern(span: SimpleSpan) -> (r: Spanned<Pattern>)
    ensures
        r.deep_view() == caller_pattern(span),
{
    Pattern::new(
        Ident::new("__caller").with_span(span),
        named_type("pid", span).with_span(span),
    ).with_span(span)
}

/// A name made of a prefix and a number.
pub open spec fn numbered(prefix: Text, id: u32) -> Text {
    prefix + text::decimal(id as nat)
}

pub fn numbered_name(prefix: &str, id: u32) -> (r: String)
    ensures
        r@ == numbered(prefix@, id),
{
    cat(prefix, decimal_text(id as u64).as_str())
}

/// Names with one prefix and different numbers differ.
pub proof fn numbered_names_differ(prefix: Text, a: u32, b: u32)
    ensures
        numbered(prefix, a) == numbered(prefix, b) ==> a == b,
{
    if numbered(prefix, a) == numbered(prefix, b) {
        let x = numbered(prefix, a).skip(prefix.len() as int);
        assert(x =~= text::decimal(a as nat));
        let y = numbered(prefix, b).skip(prefix.len() as int);
        assert(y =~= text::decimal(b as nat));
        text::decimal_is_injective(a as nat, b as nat);
    }
}

/// Whether `t` is a variable called `name`.
pub open spec fn is_var(t: Tree, name: Text) -> bool {
    t.head is Var && t.head->Var_0 == name
}

/// Whether an expression is a variable called `name`.
pub fn is_var_named(e: &Expr, name: &str) -> (r: bool)
    ensures
        forall|span: SimpleSpan| r == is_var(#[trigger] expr::tree(*e, span), name@),
{
    match e {
        Expr::Var(n, _) => same(n.as_str(), name),
        _ => false,
    }
}

} // verus!
