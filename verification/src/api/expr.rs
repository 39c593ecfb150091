//! Expressions, and the uniform tree that contracts speak of.
//!
//! An [`Expr`] has many variants; its mathematical counterpart [`Tree`] has
//! one shape: a [`Head`] that names the construct and holds everything that
//! is not an expression, and the list of subexpressions.  [`open`] and
//! [`close`] go between the two, so that a pass over expressions treats the
//! constructs it does not care about alike.

use vstd::prelude::*;

use crate::api::ast;
use crate::api::ast::{dup_ident, dup_idents, dup_type, Branch, Ident, PatternV, Type, TypeV};
use crate::span::{SimpleSpan, Spanned};
use crate::text::{chars_of, Text};

verus! {

#[derive(Debug, PartialEq, PartialOrd)]
#[allow(inconsistent_fields)]
pub enum Expr {
    // ── Literals ──────────────────────────────────────────────────────────
    Num(String, Type),
    String(String, Type),
    Bool(bool),
    /// Empty struct literal `{}`
    Unit,
    // ── Variables & paths ─────────────────────────────────────────────────
    Var(String, Type),
    /// Module-qualified value: `core:io:writer`.  Always at least two
    /// segments (a single ident is `Var`).
    Path(Vec<Spanned<Ident>>),
    // ── Binding ───────────────────────────────────────────────────────────
    Let { ident: Spanned<Ident>, ty: Spanned<Type>, default: Option<Box<Spanned<Expr>>> },
    /// `let { a b } = expr` — positional destructuring.
    LetTuple { fields: Vec<Spanned<Ident>>, default: Box<Spanned<Expr>> },
    // ── Calls & access ────────────────────────────────────────────────────
    /// `func(args)` or `self(args)`
    Jump { ident: Box<Spanned<Expr>>, args: Vec<Spanned<Expr>> },
    /// `receiver@method(args)` — call via `@`
    MethodCall { receiver: Box<Spanned<Expr>>, method: Spanned<Ident>, args: Vec<Spanned<Expr>> },
    /// `receiver@field` — access via `@` without call
    AtAccess { receiver: Box<Spanned<Expr>>, field: Spanned<Ident> },
    /// `receiver.field` — dot access
    DotAccess { receiver: Box<Spanned<Expr>>, field: Spanned<Ident> },
    /// `receiver.{ fields }` — struct init
    StructInit { base: Box<Spanned<Expr>>, fields: Vec<Spanned<Expr>> },
    /// `Name { field = value ... }` — record literal
    RecordLiteral { name: Spanned<Ident>, fields: Vec<(Spanned<Ident>, Spanned<Expr>)> },
    /// `{ a b c }` — anonymous tuple, positional access via `.N`.
    Tuple(Vec<Spanned<Expr>>),
    /// `:ident` — atom literal.
    Atom(String),
    /// `t.0`, `t.1`, … — positional access into a tuple value.
    TupleIndex { receiver: Box<Spanned<Expr>>, index: usize },
    /// `buf[i]` — indexing.
    Index { receiver: Box<Spanned<Expr>>, index: Box<Spanned<Expr>> },
    // ── Pattern matching ──────────────────────────────────────────────────
    /// `when expr { pat -> { body } ... }`
    When { cond: Box<Spanned<Expr>>, branches: Vec<(Spanned<Expr>, Vec<Spanned<Expr>>)> },
    // ── Process suspension ──────────────────────────────────────────────
    /// `wait <pid_expr>* { @label pattern+ -> { body } ... }`.  An empty
    /// `filter` accepts any sender.
    Wait { handlers: Vec<Spanned<Branch>>, filter: Vec<Spanned<Expr>> },
    /// `ret <expr>` — early return from a `-> ret <type>` branch.
    Ret(Box<Spanned<Expr>>),
    /// `pin <expr>` — synchronous call whose value is discarded.
    Pin(Box<Spanned<Expr>>),
    // ── Arithmetic ────────────────────────────────────────────────────────
    Mul(Box<Spanned<Expr>>, Box<Spanned<Expr>>),
    Div(Box<Spanned<Expr>>, Box<Spanned<Expr>>),
    Add(Box<Spanned<Expr>>, Box<Spanned<Expr>>),
    Sub(Box<Spanned<Expr>>, Box<Spanned<Expr>>),
    /// Unary numeric negation: `-x` or `-7`.
    Neg(Box<Spanned<Expr>>),
    // ── Comparisons ───────────────────────────────────────────────────────
    Le(Box<Spanned<Expr>>, Box<Spanned<Expr>>),
    Ge(Box<Spanned<Expr>>, Box<Spanned<Expr>>),
    Eq(Box<Spanned<Expr>>, Box<Spanned<Expr>>),
    Lt(Box<Spanned<Expr>>, Box<Spanned<Expr>>),
    Gt(Box<Spanned<Expr>>, Box<Spanned<Expr>>),
    // ── Bits ──────────────────────────────────────────────────────────────
    BAnd(Box<Spanned<Expr>>, Box<Spanned<Expr>>),
    BOr(Box<Spanned<Expr>>, Box<Spanned<Expr>>),
    BXor(Box<Spanned<Expr>>, Box<Spanned<Expr>>),
    Shl(Box<Spanned<Expr>>, Box<Spanned<Expr>>),
    Shr(Box<Spanned<Expr>>, Box<Spanned<Expr>>),
}

/// A binary operator.
#[derive(Debug, Clone, Copy, PartialEq, Eq, Structural)]
pub enum BinOp {
    Mul,
    Div,
    Add,
    Sub,
    Le,
    Ge,
    Eq,
    Lt,
    Gt,
    BAnd,
    BOr,
    BXor,
    Shl,
    Shr,
}

/// What a tree node is, apart from its subexpressions.
#[verifier::ext_equal]
pub enum Head {
    Num(Text, TypeV),
    Str(Text, TypeV),
    Bool(bool),
    Unit,
    Var(Text, TypeV),
    Path(Seq<Spanned<Text>>),
    /// No kid, or the bound value.
    Let(Spanned<Text>, Spanned<TypeV>),
    /// The destructured value.
    LetTuple(Seq<Spanned<Text>>),
    /// The callee, then the arguments.
    Jump,
    /// The receiver, then the arguments.
    MethodCall(Spanned<Text>),
    AtAccess(Spanned<Text>),
    DotAccess(Spanned<Text>),
    /// The base, then the fields.
    StructInit,
    /// The field values; the names are in the head.
    RecordLiteral(Spanned<Text>, Seq<Spanned<Text>>),
    Tuple,
    Atom(Text),
    TupleIndex(usize),
    Index,
    /// The discriminant, then one `Arm` per branch.
    When,
    /// The pattern, then the body.
    Arm,
    /// One `Filter`, then one `Handler` per handler.
    Wait,
    Filter,
    /// The body.
    Handler(HandlerV),
    Ret,
    Pin,
    Neg,
    Bin(BinOp),
}

/// A `wait` handler or machine branch apart from its body.
#[verifier::ext_equal]
pub struct HandlerV {
    pub label: Option<Spanned<Text>>,
    pub patterns: Seq<Spanned<PatternV>>,
    pub ret_ty: Option<Spanned<TypeV>>,
}

/// The mathematical counterpart of a spanned expression.
#[verifier::ext_equal]
pub struct Tree {
    pub head: Head,
    pub span: SimpleSpan,
    pub kids: Seq<Tree>,
}

pub open spec fn leaf(head: Head, span: SimpleSpan) -> Tree {
    Tree { head, span, kids: Seq::empty() }
}

pub open spec fn node(head: Head, span: SimpleSpan, kids: Seq<Tree>) -> Tree {
    Tree { head, span, kids }
}

pub open spec fn bin_tree(op: BinOp, span: SimpleSpan, l: Tree, r: Tree) -> Tree {
    Tree { head: Head::Bin(op), span, kids: seq![l, r] }
}

/// The tree of an expression that stands at `span`.
pub open spec fn tree(e: Expr, span: SimpleSpan) -> Tree
    decreases e,
{
    match e {
        Expr::Num(s, ty) => leaf(Head::Num(s@, ast::type_view(ty)), span),
        Expr::String(s, ty) => leaf(Head::Str(s@, ast::type_view(ty)), span),
        Expr::Bool(b) => leaf(Head::Bool(b), span),
        Expr::Unit => leaf(Head::Unit, span),
        Expr::Var(s, ty) => leaf(Head::Var(s@, ast::type_view(ty)), span),
        Expr::Path(segs) => leaf(Head::Path(segs.deep_view()), span),
        Expr::Let { ident, ty, default } => node(
            Head::Let(ident.deep_view(), ty.deep_view()),
            span,
            match default {
                Some(d) => seq![tree(d.inner, d.span)],
                None => Seq::empty(),
            },
        ),
        Expr::LetTuple { fields, default } => node(
            Head::LetTuple(fields.deep_view()),
            span,
            seq![tree(default.inner, default.span)],
        ),
        Expr::Jump { ident, args } => node(
            Head::Jump,
            span,
            seq![tree(ident.inner, ident.span)] + trees(args@),
        ),
        Expr::MethodCall { receiver, method, args } => node(
            Head::MethodCall(method.deep_view()),
            span,
            seq![tree(receiver.inner, receiver.span)] + trees(args@),
        ),
        Expr::AtAccess { receiver, field } => node(
            Head::AtAccess(field.deep_view()),
            span,
            seq![tree(receiver.inner, receiver.span)],
        ),
        Expr::DotAccess { receiver, field } => node(
            Head::DotAccess(field.deep_view()),
            span,
            seq![tree(receiver.inner, receiver.span)],
        ),
        Expr::StructInit { base, fields } => node(
            Head::StructInit,
            span,
            seq![tree(base.inner, base.span)] + trees(fields@),
        ),
        Expr::RecordLiteral { name, fields } => node(
            Head::RecordLiteral(name.deep_view(), field_names(fields@)),
            span,
            field_trees(fields@),
        ),
        Expr::Tuple(elems) => node(Head::Tuple, span, trees(elems@)),
        Expr::Atom(s) => leaf(Head::Atom(s@), span),
        Expr::TupleIndex { receiver, index } => node(
            Head::TupleIndex(index),
            span,
            seq![tree(receiver.inner, receiver.span)],
        ),
        Expr::Index { receiver, index } => node(
            Head::Index,
            span,
            seq![tree(receiver.inner, receiver.span), tree(index.inner, index.span)],
        ),
        Expr::When { cond, branches } => node(
            Head::When,
            span,
            seq![tree(cond.inner, cond.span)] + arms_view(branches@),
        ),
        Expr::Wait { handlers, filter } => node(
            Head::Wait,
            span,
            seq![node(Head::Filter, crate::span::zero_span(), trees(filter@))] + handlers_view(handlers@),
        ),
        Expr::Ret(x) => node(Head::Ret, span, seq![tree(x.inner, x.span)]),
        Expr::Pin(x) => node(Head::Pin, span, seq![tree(x.inner, x.span)]),
        Expr::Neg(x) => node(Head::Neg, span, seq![tree(x.inner, x.span)]),
        Expr::Mul(l, r) => bin_tree(BinOp::Mul, span, tree(l.inner, l.span), tree(r.inner, r.span)),
        Expr::Div(l, r) => bin_tree(BinOp::Div, span, tree(l.inner, l.span), tree(r.inner, r.span)),
        Expr::Add(l, r) => bin_tree(BinOp::Add, span, tree(l.inner, l.span), tree(r.inner, r.span)),
        Expr::Sub(l, r) => bin_tree(BinOp::Sub, span, tree(l.inner, l.span), tree(r.inner, r.span)),
        Expr::Le(l, r) => bin_tree(BinOp::Le, span, tree(l.inner, l.span), tree(r.inner, r.span)),
        Expr::Ge(l, r) => bin_tree(BinOp::Ge, span, tree(l.inner, l.span), tree(r.inner, r.span)),
        Expr::Eq(l, r) => bin_tree(BinOp::Eq, span, tree(l.inner, l.span), tree(r.inner, r.span)),
        Expr::Lt(l, r) => bin_tree(BinOp::Lt, span, tree(l.inner, l.span), tree(r.inner, r.span)),
        Expr::Gt(l, r) => bin_tree(BinOp::Gt, span, tree(l.inner, l.span), tree(r.inner, r.span)),
        Expr::BAnd(l, r) => bin_tree(
            BinOp::BAnd,
            span,
            tree(l.inner, l.span),
            tree(r.inner, r.span),
        ),
        Expr::BOr(l, r) => bin_tree(BinOp::BOr, span, tree(l.inner, l.span), tree(r.inner, r.span)),
        Expr::BXor(l, r) => bin_tree(
            BinOp::BXor,
            span,
            tree(l.inner, l.span),
            tree(r.inner, r.span),
        ),
        Expr::Shl(l, r) => bin_tree(BinOp::Shl, span, tree(l.inner, l.span), tree(r.inner, r.span)),
        Expr::Shr(l, r) => bin_tree(BinOp::Shr, span, tree(l.inner, l.span), tree(r.inner, r.span)),
    }
}

/// The trees of a statement list or argument list.
pub open spec fn trees(es: Seq<Spanned<Expr>>) -> Seq<Tree>
    decreases es,
{
    Seq::new(
        es.len(),
        |i: int|
            if 0 <= i < es.len() {
                tree(es[i].inner, es[i].span)
            } else {
                arbitrary()
            },
    )
}

/// The `Arm` nodes of the branches of a `when`.
pub open spec fn arms_view(arms: Seq<(Spanned<Expr>, Vec<Spanned<Expr>>)>) -> Seq<Tree>
    decreases arms,
{
    Seq::new(
        arms.len(),
        |i: int|
            if 0 <= i < arms.len() {
                arm_tree(
                    tree(arms[i].0.inner, arms[i].0.span),
                    trees(arms[i].1@),
                )
            } else {
                arbitrary()
            },
    )
}

/// The `Arm` node of a pattern and a body.
pub open spec fn arm_tree(pat: Tree, body: Seq<Tree>) -> Tree {
    Tree { head: Head::Arm, span: crate::span::zero_span(), kids: seq![pat] + body }
}

/// The `Handler` nodes of the handlers of a `wait`.
pub open spec fn handlers_view(hs: Seq<Spanned<Branch>>) -> Seq<Tree>
    decreases hs,
{
    Seq::new(
        hs.len(),
        |i: int|
            if 0 <= i < hs.len() {
                Tree {
                    head: Head::Handler(branch_head(hs[i].inner)),
                    span: hs[i].span,
                    kids: trees(hs[i].inner.body@),
                }
            } else {
                arbitrary()
            },
    )
}

/// A branch apart from its body.
pub open spec fn branch_head(b: Branch) -> HandlerV {
    HandlerV {
        label: b.label.deep_view(),
        patterns: ast::patterns_view(b.patterns@),
        ret_ty: b.ret_ty.deep_view(),
    }
}

pub open spec fn field_names(fields: Seq<(Spanned<Ident>, Spanned<Expr>)>) -> Seq<Spanned<Text>> {
    Seq::new(fields.len(), |i: int| fields[i].0.deep_view())
}

/// The tree of a spanned expression.
pub open spec fn tree_of(e: Spanned<Expr>) -> Tree {
    tree(e.inner, e.span)
}

impl DeepView for Expr {
    type V = Tree;

    open spec fn deep_view(&self) -> Tree {
        tree(*self, crate::span::zero_span())
    }
}

// ── taking expressions apart ───────────────────────────────────────────────

/// The head of an expression other than `when` and `wait`.
pub enum Shape {
    Num(String, Type),
    Str(String, Type),
    Bool(bool),
    Unit,
    Var(String, Type),
    Path(Vec<Spanned<Ident>>),
    Let(Spanned<Ident>, Spanned<Type>),
    LetTuple(Vec<Spanned<Ident>>),
    Jump,
    MethodCall(Spanned<Ident>),
    AtAccess(Spanned<Ident>),
    DotAccess(Spanned<Ident>),
    StructInit,
    RecordLiteral(Spanned<Ident>, Vec<Spanned<Ident>>),
    Tuple,
    Atom(String),
    TupleIndex(usize),
    Index,
    Ret,
    Pin,
    Neg,
    Bin(BinOp),
}

impl DeepView for Shape {
    type V = Head;

    open spec fn deep_view(&self) -> Head {
        match *self {
            Shape::Num(s, ty) => Head::Num(s@, ast::type_view(ty)),
            Shape::Str(s, ty) => Head::Str(s@, ast::type_view(ty)),
            Shape::Bool(b) => Head::Bool(b),
            Shape::Unit => Head::Unit,
            Shape::Var(s, ty) => Head::Var(s@, ast::type_view(ty)),
            Shape::Path(segs) => Head::Path(segs.deep_view()),
            Shape::Let(ident, ty) => Head::Let(ident.deep_view(), ty.deep_view()),
            Shape::LetTuple(fields) => Head::LetTuple(fields.deep_view()),
            Shape::Jump => Head::Jump,
            Shape::MethodCall(m) => Head::MethodCall(m.deep_view()),
            Shape::AtAccess(f) => Head::AtAccess(f.deep_view()),
            Shape::DotAccess(f) => Head::DotAccess(f.deep_view()),
            Shape::StructInit => Head::StructInit,
            Shape::RecordLiteral(n, fs) => Head::RecordLiteral(n.deep_view(), fs.deep_view()),
            Shape::Tuple => Head::Tuple,
            Shape::Atom(s) => Head::Atom(s@),
            Shape::TupleIndex(i) => Head::TupleIndex(i),
            Shape::Index => Head::Index,
            Shape::Ret => Head::Ret,
            Shape::Pin => Head::Pin,
            Shape::Neg => Head::Neg,
            Shape::Bin(op) => Head::Bin(op),
        }
    }
}

/// Whether `n` subexpressions go with `head`.
pub open spec fn arity_ok(head: Head, n: nat) -> bool {
    match head {
        Head::Num(_, _) | Head::Str(_, _) | Head::Bool(_) | Head::Unit | Head::Var(_, _) | Head::Path(
            _,
        ) | Head::Atom(_) => n == 0,
        Head::Let(_, _) => n <= 1,
        Head::LetTuple(_) | Head::AtAccess(_) | Head::DotAccess(_) | Head::TupleIndex(_)
        | Head::Ret | Head::Pin | Head::Neg => n == 1,
        Head::Jump | Head::MethodCall(_) | Head::StructInit | Head::When | Head::Arm
        | Head::Wait => n >= 1,
        Head::RecordLiteral(_, fs) => n == fs.len(),
        Head::Tuple | Head::Filter | Head::Handler(_) => true,
        Head::Index | Head::Bin(_) => n == 2,
    }
}

fn pair(l: Box<Spanned<Expr>>, r: Box<Spanned<Expr>>) -> (v: Vec<Spanned<Expr>>)
    ensures
        trees(v@) == seq![tree_of(*l), tree_of(*r)],
        v@ == seq![*l, *r],
{
    let mut v: Vec<Spanned<Expr>> = Vec::new();
    v.push(*l);
    v.push(*r);
    proof {
        assert(trees(v@) =~= seq![tree_of(*l), tree_of(*r)]);
    }
    v
}

fn one(x: Box<Spanned<Expr>>) -> (v: Vec<Spanned<Expr>>)
    ensures
        trees(v@) == seq![tree_of(*x)],
        v@ == seq![*x],
{
    let mut v: Vec<Spanned<Expr>> = Vec::new();
    v.push(*x);
    proof {
        assert(trees(v@) =~= seq![tree_of(*x)]);
    }
    v
}

fn first_and(x: Box<Spanned<Expr>>, rest: Vec<Spanned<Expr>>) -> (v: Vec<Spanned<Expr>>)
    ensures
        trees(v@) == seq![tree_of(*x)] + trees(rest@),
        v@ == seq![*x] + rest@,
{
    let mut v: Vec<Spanned<Expr>> = Vec::new();
    v.push(*x);
    let mut rest = rest;
    let ghost r = rest@;
    v.append(&mut rest);
    proof {
        assert(v@ =~= seq![*x] + r);
        assert(trees(v@) =~= seq![tree_of(*x)] + trees(r));
    }
    v
}

/// The values of a record literal's fields.
pub open spec fn field_trees(fields: Seq<(Spanned<Ident>, Spanned<Expr>)>) -> Seq<Tree>
    decreases fields,
{
    Seq::new(
        fields.len(),
        |i: int|
            if 0 <= i < fields.len() {
                tree(fields[i].1.inner, fields[i].1.span)
            } else {
                arbitrary()
            },
    )
}

fn split_fields(fields: Vec<(Spanned<Ident>, Spanned<Expr>)>) -> (r: (
    Vec<Spanned<Ident>>,
    Vec<Spanned<Expr>>,
))
    ensures
        r.0.deep_view() == field_names(fields@),
        r.0@.len() == fields@.len(),
        r.1@.len() == fields@.len(),
        trees(r.1@) == field_trees(fields@),
{
    let mut names: Vec<Spanned<Ident>> = Vec::new();
    let mut kids: Vec<Spanned<Expr>> = Vec::new();
    let ghost fs = fields@;
    for f in it: fields
        invariant
            it.seq() == fs,
            names@.len() == it.index(),
            kids@.len() == it.index(),
            forall|j: int| 0 <= j < it.index() ==> #[trigger] names@[j] == fs[j].0,
            forall|j: int| 0 <= j < it.index() ==> #[trigger] kids@[j] == fs[j].1,
    {
        let (n, v) = f;
        names.push(n);
        kids.push(v);
    }
    proof {
        assert(names.deep_view() =~= field_names(fs));
        assert(trees(kids@) =~= field_trees(fs));
    }
    (names, kids)
}

fn join_fields(names: Vec<Spanned<Ident>>, kids: Vec<Spanned<Expr>>) -> (r: Vec<
    (Spanned<Ident>, Spanned<Expr>),
>)
    requires
        names@.len() == kids@.len(),
    ensures
        field_names(r@) == names.deep_view(),
        field_trees(r@) == trees(kids@),
{
    let ghost ns = names@;
    let ghost ks = kids@;
    let ghost nv = names.deep_view();
    let mut fields: Vec<(Spanned<Ident>, Spanned<Expr>)> = Vec::new();
    let mut kids = kids;
    let mut names = names;
    while names.len() > 0
        invariant
            names@.len() == kids@.len(),
            ns.len() == ks.len(),
            fields@.len() + names@.len() == ns.len(),
            names@ == ns.skip(fields@.len() as int),
            kids@ == ks.skip(fields@.len() as int),
            forall|j: int| 0 <= j < fields@.len() ==> #[trigger] fields@[j] == (ns[j], ks[j]),
        decreases names@.len(),
    {
        let n = names.remove(0);
        let k = kids.remove(0);
        fields.push((n, k));
    }
    proof {
        assert(field_names(fields@) =~= nv);
        assert(field_trees(fields@) =~= trees(ks));
    }
    fields
}

/// Takes an expression other than `when` and `wait` apart into its head and
/// its subexpressions.
pub fn open(e: Expr) -> (r: (Shape, Vec<Spanned<Expr>>))
    requires
        !(e is When),
        !(e is Wait),
    ensures
        forall|span: SimpleSpan| #[trigger]
            tree(e, span) == (Tree { head: r.0.deep_view(), span, kids: trees(r.1@) }),
        arity_ok(r.0.deep_view(), r.1@.len()),
{
    let none: Vec<Spanned<Expr>> = Vec::new();
    proof {
        assert(trees(none@) =~= Seq::<Tree>::empty());
    }
    match e {
        Expr::Num(s, ty) => (Shape::Num(s, ty), none),
        Expr::String(s, ty) => (Shape::Str(s, ty), none),
        Expr::Bool(b) => (Shape::Bool(b), none),
        Expr::Unit => (Shape::Unit, none),
        Expr::Var(s, ty) => (Shape::Var(s, ty), none),
        Expr::Path(segs) => (Shape::Path(segs), none),
        Expr::Let { ident, ty, default } => match default {
            Some(d) => (Shape::Let(ident, ty), one(d)),
            None => (Shape::Let(ident, ty), none),
        },
        Expr::LetTuple { fields, default } => (Shape::LetTuple(fields), one(default)),
        Expr::Jump { ident, args } => (Shape::Jump, first_and(ident, args)),
        Expr::MethodCall { receiver, method, args } => (
            Shape::MethodCall(method),
            first_and(receiver, args),
        ),
        Expr::AtAccess { receiver, field } => (Shape::AtAccess(field), one(receiver)),
        Expr::DotAccess { receiver, field } => (Shape::DotAccess(field), one(receiver)),
        Expr::StructInit { base, fields } => (Shape::StructInit, first_and(base, fields)),
        Expr::RecordLiteral { name, fields } => {
            let (names, kids) = split_fields(fields);
            (Shape::RecordLiteral(name, names), kids)
        },
        Expr::Tuple(elems) => (Shape::Tuple, elems),
        Expr::Atom(s) => (Shape::Atom(s), none),
        Expr::TupleIndex { receiver, index } => (Shape::TupleIndex(index), one(receiver)),
        Expr::Index { receiver, index } => (Shape::Index, pair(receiver, index)),
        Expr::When { cond, branches } => (Shape::Unit, none),
        Expr::Wait { handlers, filter } => (Shape::Unit, none),
        Expr::Ret(x) => (Shape::Ret, one(x)),
        Expr::Pin(x) => (Shape::Pin, one(x)),
        Expr::Neg(x) => (Shape::Neg, one(x)),
        Expr::Mul(l, r) => (Shape::Bin(BinOp::Mul), pair(l, r)),
        Expr::Div(l, r) => (Shape::Bin(BinOp::Div), pair(l, r)),
        Expr::Add(l, r) => (Shape::Bin(BinOp::Add), pair(l, r)),
        Expr::Sub(l, r) => (Shape::Bin(BinOp::Sub), pair(l, r)),
        Expr::Le(l, r) => (Shape::Bin(BinOp::Le), pair(l, r)),
        Expr::Ge(l, r) => (Shape::Bin(BinOp::Ge), pair(l, r)),
        Expr::Eq(l, r) => (Shape::Bin(BinOp::Eq), pair(l, r)),
        Expr::Lt(l, r) => (Shape::Bin(BinOp::Lt), pair(l, r)),
        Expr::Gt(l, r) => (Shape::Bin(BinOp::Gt), pair(l, r)),
        Expr::BAnd(l, r) => (Shape::Bin(BinOp::BAnd), pair(l, r)),
        Expr::BOr(l, r) => (Shape::Bin(BinOp::BOr), pair(l, r)),
        Expr::BXor(l, r) => (Shape::Bin(BinOp::BXor), pair(l, r)),
        Expr::Shl(l, r) => (Shape::Bin(BinOp::Shl), pair(l, r)),
        Expr::Shr(l, r) => (Shape::Bin(BinOp::Shr), pair(l, r)),
    }
}

/// The binary expression of two operands.
pub fn bin_expr(op: BinOp, l: Box<Spanned<Expr>>, r: Box<Spanned<Expr>>) -> (e: Expr)
    ensures
        forall|span: SimpleSpan| #[trigger]
            tree(e, span) == bin_tree(op, span, tree_of(*l), tree_of(*r)),
{
    match op {
        BinOp::Mul => Expr::Mul(l, r),
        BinOp::Div => Expr::Div(l, r),
        BinOp::Add => Expr::Add(l, r),
        BinOp::Sub => Expr::Sub(l, r),
        BinOp::Le => Expr::Le(l, r),
        BinOp::Ge => Expr::Ge(l, r),
        BinOp::Eq => Expr::Eq(l, r),
        BinOp::Lt => Expr::Lt(l, r),
        BinOp::Gt => Expr::Gt(l, r),
        BinOp::BAnd => Expr::BAnd(l, r),
        BinOp::BOr => Expr::BOr(l, r),
        BinOp::BXor => Expr::BXor(l, r),
        BinOp::Shl => Expr::Shl(l, r),
        BinOp::Shr => Expr::Shr(l, r),
    }
}

fn take_one(kids: Vec<Spanned<Expr>>) -> (x: Box<Spanned<Expr>>)
    requires
        kids@.len() == 1,
    ensures
        seq![tree_of(*x)] == trees(kids@),
{
    let mut kids = kids;
    let ghost k = kids@;
    let x = kids.remove(0);
    proof {
        assert(seq![tree_of(x)] =~= trees(k));
    }
    Box::new(x)
}

fn take_first(kids: Vec<Spanned<Expr>>) -> (r: (Box<Spanned<Expr>>, Vec<Spanned<Expr>>))
    requires
        kids@.len() >= 1,
    ensures
        seq![tree_of(*r.0)] + trees(r.1@) == trees(kids@),
{
    let mut kids = kids;
    let ghost k = kids@;
    let x = kids.remove(0);
    proof {
        assert(seq![tree_of(x)] + trees(kids@) =~= trees(k));
    }
    (Box::new(x), kids)
}

fn take_two(kids: Vec<Spanned<Expr>>) -> (r: (Box<Spanned<Expr>>, Box<Spanned<Expr>>))
    requires
        kids@.len() == 2,
    ensures
        seq![tree_of(*r.0), tree_of(*r.1)] == trees(kids@),
{
    let mut kids = kids;
    let ghost k = kids@;
    let x = kids.remove(0);
    let y = kids.remove(0);
    proof {
        assert(seq![tree_of(x), tree_of(y)] =~= trees(k));
    }
    (Box::new(x), Box::new(y))
}

/// Puts an expression together from its head and its subexpressions.
pub fn close(shape: Shape, kids: Vec<Spanned<Expr>>) -> (e: Expr)
    requires
        arity_ok(shape.deep_view(), kids@.len()),
    ensures
        forall|span: SimpleSpan| #[trigger]
            tree(e, span) == (Tree { head: shape.deep_view(), span, kids: trees(kids@) }),
{
    proof {
        if kids@.len() == 0 {
            assert(trees(kids@) =~= Seq::<Tree>::empty());
        }
    }
    match shape {
        Shape::Num(s, ty) => Expr::Num(s, ty),
        Shape::Str(s, ty) => Expr::String(s, ty),
        Shape::Bool(b) => Expr::Bool(b),
        Shape::Unit => Expr::Unit,
        Shape::Var(s, ty) => Expr::Var(s, ty),
        Shape::Path(segs) => Expr::Path(segs),
        Shape::Let(ident, ty) => {
            if kids.len() == 0 {
                Expr::Let { ident, ty, default: None }
            } else {
                Expr::Let { ident, ty, default: Some(take_one(kids)) }
            }
        },
        Shape::LetTuple(fields) => Expr::LetTuple { fields, default: take_one(kids) },
        Shape::Jump => {
            let (ident, args) = take_first(kids);
            Expr::Jump { ident, args }
        },
        Shape::MethodCall(method) => {
            let (receiver, args) = take_first(kids);
            Expr::MethodCall { receiver, method, args }
        },
        Shape::AtAccess(field) => Expr::AtAccess { receiver: take_one(kids), field },
        Shape::DotAccess(field) => Expr::DotAccess { receiver: take_one(kids), field },
        Shape::StructInit => {
            let (base, fields) = take_first(kids);
            Expr::StructInit { base, fields }
        },
        Shape::RecordLiteral(name, names) => {
            Expr::RecordLiteral { name, fields: join_fields(names, kids) }
        },
        Shape::Tuple => Expr::Tuple(kids),
        Shape::Atom(s) => Expr::Atom(s),
        Shape::TupleIndex(index) => Expr::TupleIndex { receiver: take_one(kids), index },
        Shape::Index => {
            let (receiver, index) = take_two(kids);
            Expr::Index { receiver, index }
        },
        Shape::Ret => Expr::Ret(take_one(kids)),
        Shape::Pin => Expr::Pin(take_one(kids)),
        Shape::Neg => Expr::Neg(take_one(kids)),
        Shape::Bin(op) => {
            let (l, r) = take_two(kids);
            bin_expr(op, l, r)
        },
    }
}

} // verus!

verus! {

// ── looking at subexpressions ──────────────────────────────────────────────

/// The trees of a list of references.
pub open spec fn ref_trees(v: Seq<&Spanned<Expr>>) -> Seq<Tree> {
    Seq::new(v.len(), |i: int| tree_of(*v[i]))
}

/// References to the subexpressions of an expression other than `when` and
/// `wait`, in the order of its tree.
pub fn kids_of<'a>(e: &'a Expr) -> (r: Vec<&'a Spanned<Expr>>)
    requires
        !(e is When),
        !(e is Wait),
    ensures
        forall|span: SimpleSpan| #[trigger] tree(*e, span).kids == ref_trees(r@),
{
    let mut v: Vec<&'a Spanned<Expr>> = Vec::new();
    proof {
        assert(ref_trees(v@) =~= Seq::<Tree>::empty());
    }
    match e {
        Expr::Num(_, _) | Expr::String(_, _) | Expr::Bool(_) | Expr::Unit | Expr::Var(_, _)
        | Expr::Path(_) | Expr::Atom(_) => v,
        Expr::Let { ident, ty, default } => match default {
            Some(d) => ref_one(d),
            None => v,
        },
        Expr::LetTuple { fields, default } => ref_one(default),
        Expr::Jump { ident, args } => ref_first(ident, args),
        Expr::MethodCall { receiver, method, args } => ref_first(receiver, args),
        Expr::AtAccess { receiver, field } => ref_one(receiver),
        Expr::DotAccess { receiver, field } => ref_one(receiver),
        Expr::StructInit { base, fields } => ref_first(base, fields),
        Expr::RecordLiteral { name, fields } => {
            let mut i: usize = 0;
            while i < fields.len()
                invariant
                    i <= fields.len(),
                    v@.len() == i,
                    forall|j: int| 0 <= j < i ==> *#[trigger] v@[j] == fields@[j].1,
                decreases fields.len() - i,
            {
                v.push(&fields[i].1);
                i = i + 1;
            }
            proof {
                assert(ref_trees(v@) =~= field_trees(fields@));
            }
            v
        },
        Expr::Tuple(elems) => {
            push_refs(&mut v, elems);
            proof {
                assert(ref_trees(v@) =~= trees(elems@));
            }
            v
        },
        Expr::TupleIndex { receiver, index } => ref_one(receiver),
        Expr::Index { receiver, index } => ref_two(receiver, index),
        Expr::When { cond, branches } => v,
        Expr::Wait { handlers, filter } => v,
        Expr::Ret(x) | Expr::Pin(x) | Expr::Neg(x) => ref_one(x),
        Expr::Mul(l, r) | Expr::Div(l, r) | Expr::Add(l, r) | Expr::Sub(l, r) | Expr::Le(l, r)
        | Expr::Ge(l, r) | Expr::Eq(l, r) | Expr::Lt(l, r) | Expr::Gt(l, r) | Expr::BAnd(l, r)
        | Expr::BOr(l, r) | Expr::BXor(l, r) | Expr::Shl(l, r) | Expr::Shr(l, r) => ref_two(l, r),
    }
}

fn ref_one<'a>(x: &'a Box<Spanned<Expr>>) -> (v: Vec<&'a Spanned<Expr>>)
    ensures
        ref_trees(v@) == seq![tree_of(**x)],
{
    let mut v: Vec<&'a Spanned<Expr>> = Vec::new();
    v.push(&**x);
    proof {
        assert(ref_trees(v@) =~= seq![tree_of(**x)]);
    }
    v
}

fn ref_two<'a>(x: &'a Box<Spanned<Expr>>, y: &'a Box<Spanned<Expr>>) -> (v: Vec<
    &'a Spanned<Expr>,
>)
    ensures
        ref_trees(v@) == seq![tree_of(**x), tree_of(**y)],
{
    let mut v: Vec<&'a Spanned<Expr>> = Vec::new();
    v.push(&**x);
    v.push(&**y);
    proof {
        assert(ref_trees(v@) =~= seq![tree_of(**x), tree_of(**y)]);
    }
    v
}

fn ref_first<'a>(x: &'a Box<Spanned<Expr>>, rest: &'a Vec<Spanned<Expr>>) -> (v: Vec<
    &'a Spanned<Expr>,
>)
    ensures
        ref_trees(v@) == seq![tree_of(**x)] + trees(rest@),
{
    let mut v: Vec<&'a Spanned<Expr>> = Vec::new();
    v.push(&**x);
    push_refs(&mut v, rest);
    proof {
        assert(ref_trees(v@) =~= seq![tree_of(**x)] + trees(rest@));
    }
    v
}

fn push_refs<'a>(v: &mut Vec<&'a Spanned<Expr>>, es: &'a Vec<Spanned<Expr>>)
    ensures
        final(v)@ == old(v)@ + Seq::new(es@.len(), |i: int| &es@[i]),
{
    let ghost start = v@;
    let mut i: usize = 0;
    while i < es.len()
        invariant
            i <= es.len(),
            v@ == start + Seq::new(i as nat, |j: int| &es@[j]),
        decreases es.len() - i,
    {
        v.push(&es[i]);
        proof {
            assert(v@ =~= start + Seq::new((i + 1) as nat, |j: int| &es@[j]));
        }
        i = i + 1;
    }
}

// ── copying ────────────────────────────────────────────────────────────────

impl Expr {
    pub fn dup(&self) -> (r: Expr)
        ensures
            forall|span: SimpleSpan| #[trigger] tree(r, span) == tree(*self, span),
        decreases *self,
    {
        match self {
            Expr::Num(s, ty) => Expr::Num(s.clone(), ty.dup()),
            Expr::String(s, ty) => Expr::String(s.clone(), ty.dup()),
            Expr::Bool(b) => Expr::Bool(*b),
            Expr::Unit => Expr::Unit,
            Expr::Var(s, ty) => Expr::Var(s.clone(), ty.dup()),
            Expr::Path(segs) => Expr::Path(dup_idents(segs)),
            Expr::Let { ident, ty, default } => {
                let default = match default {
                    Some(d) => Some(Box::new(dup_expr(d))),
                    None => None,
                };
                Expr::Let { ident: dup_ident(ident), ty: dup_type(ty), default }
            },
            Expr::LetTuple { fields, default } => Expr::LetTuple {
                fields: dup_idents(fields),
                default: Box::new(dup_expr(default)),
            },
            Expr::Jump { ident, args } => Expr::Jump {
                ident: Box::new(dup_expr(ident)),
                args: dup_exprs(args),
            },
            Expr::MethodCall { receiver, method, args } => Expr::MethodCall {
                receiver: Box::new(dup_expr(receiver)),
                method: dup_ident(method),
                args: dup_exprs(args),
            },
            Expr::AtAccess { receiver, field } => Expr::AtAccess {
                receiver: Box::new(dup_expr(receiver)),
                field: dup_ident(field),
            },
            Expr::DotAccess { receiver, field } => Expr::DotAccess {
                receiver: Box::new(dup_expr(receiver)),
                field: dup_ident(field),
            },
            Expr::StructInit { base, fields } => Expr::StructInit {
                base: Box::new(dup_expr(base)),
                fields: dup_exprs(fields),
            },
            Expr::RecordLiteral { name, fields } => {
                Expr::RecordLiteral { name: dup_ident(name), fields: dup_fields(fields) }
            },
            Expr::Tuple(elems) => Expr::Tuple(dup_exprs(elems)),
            Expr::Atom(s) => Expr::Atom(s.clone()),
            Expr::TupleIndex { receiver, index } => Expr::TupleIndex {
                receiver: Box::new(dup_expr(receiver)),
                index: *index,
            },
            Expr::Index { receiver, index } => Expr::Index {
                receiver: Box::new(dup_expr(receiver)),
                index: Box::new(dup_expr(index)),
            },
            Expr::When { cond, branches } => Expr::When {
                cond: Box::new(dup_expr(cond)),
                branches: dup_arms(branches),
            },
            Expr::Wait { handlers, filter } => Expr::Wait {
                handlers: dup_handlers(handlers),
                filter: dup_exprs(filter),
            },
            Expr::Ret(x) => Expr::Ret(Box::new(dup_expr(x))),
            Expr::Pin(x) => Expr::Pin(Box::new(dup_expr(x))),
            Expr::Neg(x) => Expr::Neg(Box::new(dup_expr(x))),
            Expr::Mul(l, r) => Expr::Mul(Box::new(dup_expr(l)), Box::new(dup_expr(r))),
            Expr::Div(l, r) => Expr::Div(Box::new(dup_expr(l)), Box::new(dup_expr(r))),
            Expr::Add(l, r) => Expr::Add(Box::new(dup_expr(l)), Box::new(dup_expr(r))),
            Expr::Sub(l, r) => Expr::Sub(Box::new(dup_expr(l)), Box::new(dup_expr(r))),
            Expr::Le(l, r) => Expr::Le(Box::new(dup_expr(l)), Box::new(dup_expr(r))),
            Expr::Ge(l, r) => Expr::Ge(Box::new(dup_expr(l)), Box::new(dup_expr(r))),
            Expr::Eq(l, r) => Expr::Eq(Box::new(dup_expr(l)), Box::new(dup_expr(r))),
            Expr::Lt(l, r) => Expr::Lt(Box::new(dup_expr(l)), Box::new(dup_expr(r))),
            Expr::Gt(l, r) => Expr::Gt(Box::new(dup_expr(l)), Box::new(dup_expr(r))),
            Expr::BAnd(l, r) => Expr::BAnd(Box::new(dup_expr(l)), Box::new(dup_expr(r))),
            Expr::BOr(l, r) => Expr::BOr(Box::new(dup_expr(l)), Box::new(dup_expr(r))),
            Expr::BXor(l, r) => Expr::BXor(Box::new(dup_expr(l)), Box::new(dup_expr(r))),
            Expr::Shl(l, r) => Expr::Shl(Box::new(dup_expr(l)), Box::new(dup_expr(r))),
            Expr::Shr(l, r) => Expr::Shr(Box::new(dup_expr(l)), Box::new(dup_expr(r))),
        }
    }
}

impl Clone for Expr {
    fn clone(&self) -> (r: Expr)
        ensures
            forall|span: SimpleSpan| #[trigger] tree(r, span) == tree(*self, span),
    {
        self.dup()
    }
}

/// Copies a spanned expression.
pub fn dup_expr(e: &Spanned<Expr>) -> (r: Spanned<Expr>)
    ensures
        tree_of(r) == tree_of(*e),
        r.span == e.span,
    decreases *e,
{
    Spanned { inner: e.inner.dup(), span: e.span }
}

/// Copies a list of expressions.
pub fn dup_exprs(es: &Vec<Spanned<Expr>>) -> (r: Vec<Spanned<Expr>>)
    ensures
        trees(r@) == trees(es@),
        r@.len() == es@.len(),
    decreases *es,
{
    let mut out: Vec<Spanned<Expr>> = Vec::new();
    let mut i: usize = 0;
    while i < es.len()
        invariant
            i <= es.len(),
            out@.len() == i,
            forall|j: int| 0 <= j < i ==> tree_of(#[trigger] out@[j]) == tree_of(es@[j]),
        decreases es.len() - i,
    {
        proof {
            assert(decreases_to!(*es => es@[i as int]));
        }
        out.push(dup_expr(&es[i]));
        i = i + 1;
    }
    proof {
        assert(trees(out@) =~= trees(es@));
    }
    out
}

/// Copies the fields of a record literal.
pub fn dup_fields(fields: &Vec<(Spanned<Ident>, Spanned<Expr>)>) -> (r: Vec<
    (Spanned<Ident>, Spanned<Expr>),
>)
    ensures
        field_names(r@) == field_names(fields@),
        field_trees(r@) == field_trees(fields@),
    decreases *fields,
{
    let mut out: Vec<(Spanned<Ident>, Spanned<Expr>)> = Vec::new();
    let mut i: usize = 0;
    while i < fields.len()
        invariant
            i <= fields.len(),
            out@.len() == i,
            forall|j: int|
                0 <= j < i ==> (#[trigger] out@[j]).0 == fields@[j].0 && tree_of(out@[j].1)
                    == tree_of(fields@[j].1),
        decreases fields.len() - i,
    {
        proof {
            assert(decreases_to!(*fields => fields@[i as int].1));
        }
        let one = dup_expr(&fields[i].1);
        out.push((dup_ident(&fields[i].0), one));
        i = i + 1;
    }
    proof {
        assert(field_names(out@) =~= field_names(fields@));
        assert(field_trees(out@) =~= field_trees(fields@));
    }
    out
}

/// Copies the branches of a `when`.
pub fn dup_arms(arms: &Vec<(Spanned<Expr>, Vec<Spanned<Expr>>)>) -> (r: Vec<
    (Spanned<Expr>, Vec<Spanned<Expr>>),
>)
    ensures
        arms_view(r@) == arms_view(arms@),
    decreases *arms,
{
    let mut out: Vec<(Spanned<Expr>, Vec<Spanned<Expr>>)> = Vec::new();
    let mut i: usize = 0;
    while i < arms.len()
        invariant
            i <= arms.len(),
            out@.len() == i,
            forall|j: int|
                0 <= j < i ==> tree_of((#[trigger] out@[j]).0) == tree_of(arms@[j].0) && trees(
                    out@[j].1@,
                ) == trees(arms@[j].1@),
        decreases arms.len() - i,
    {
        proof {
            assert(decreases_to!(*arms => arms@[i as int].0));
            assert(decreases_to!(*arms => arms@[i as int].1));
        }
        let pat = dup_expr(&arms[i].0);
        let body = dup_exprs(&arms[i].1);
        out.push((pat, body));
        i = i + 1;
    }
    proof {
        assert(arms_view(out@) =~= arms_view(arms@));
    }
    out
}

/// Copies the handlers of a `wait`.
pub fn dup_handlers(hs: &Vec<Spanned<Branch>>) -> (r: Vec<Spanned<Branch>>)
    ensures
        handlers_view(r@) == handlers_view(hs@),
    decreases *hs,
{
    let mut out: Vec<Spanned<Branch>> = Vec::new();
    let mut i: usize = 0;
    while i < hs.len()
        invariant
            i <= hs.len(),
            out@.len() == i,
            forall|j: int|
                0 <= j < i ==> branch_head((#[trigger] out@[j]).inner) == branch_head(hs@[j].inner)
                    && trees(out@[j].inner.body@) == trees(hs@[j].inner.body@) && out@[j].span
                    == hs@[j].span,
        decreases hs.len() - i,
    {
        proof {
            assert(decreases_to!(*hs => hs@[i as int].inner));
        }
        let b = hs[i].inner.dup();
        out.push(Spanned { inner: b, span: hs[i].span });
        i = i + 1;
    }
    proof {
        assert(handlers_view(out@) =~= handlers_view(hs@));
    }
    out
}

// ── integer literals ───────────────────────────────────────────────────────

/// The value of a digit, in bases up to sixteen.
pub open spec fn digit_value(c: char) -> nat {
    if '0' <= c <= '9' {
        (c as nat - '0' as nat) as nat
    } else if 'a' <= c <= 'f' {
        (c as nat - 'a' as nat + 10) as nat
    } else if 'A' <= c <= 'F' {
        (c as nat - 'A' as nat + 10) as nat
    } else {
        16
    }
}

/// Whether `s` is a nonempty run of digits in `base`.
pub open spec fn all_digits(s: Text, base: nat) -> bool {
    &&& s.len() > 0
    &&& forall|i: int| 0 <= i < s.len() ==> digit_value(#[trigger] s[i]) < base
}

/// The number that the digits `s` write in `base`.
pub open spec fn digits_value(s: Text, base: nat) -> nat
    decreases s.len(),
{
    if s.len() == 0 {
        0
    } else {
        digits_value(s.drop_last(), base) * base + digit_value(s.last())
    }
}

/// The value of an integer literal: decimal digits, `0x` and hexadecimal
/// digits or `0b` and binary digits, as far as it fits.
pub open spec fn int_literal(s: Text) -> Option<i64> {
    if s.len() >= 2 && s[0] == '0' && s[1] == 'x' {
        int_of_digits(s.skip(2), 16)
    } else if s.len() >= 2 && s[0] == '0' && s[1] == 'b' {
        int_of_digits(s.skip(2), 2)
    } else {
        int_of_digits(s, 10)
    }
}

pub open spec fn int_of_digits(s: Text, base: nat) -> Option<i64> {
    if all_digits(s, base) && digits_value(s, base) <= i64::MAX {
        Some(digits_value(s, base) as i64)
    } else {
        None
    }
}

/// The position that a decimal number names, as far as it fits.
pub open spec fn index_literal(s: Text) -> Option<usize> {
    if all_digits(s, 10) && digits_value(s, 10) <= usize::MAX {
        Some(digits_value(s, 10) as usize)
    } else {
        None
    }
}

fn digit_value_of(c: char) -> (r: u64)
    ensures
        r == digit_value(c),
{
    let n: u32 = c as u32;
    if '0' <= c && c <= '9' {
        (n - 48) as u64
    } else if 'a' <= c && c <= 'f' {
        (n - 97 + 10) as u64
    } else if 'A' <= c && c <= 'F' {
        (n - 65 + 10) as u64
    } else {
        16
    }
}

proof fn digits_value_grows(s: Text, base: nat, n: int)
    requires
        0 <= n <= s.len(),
        base >= 1,
    ensures
        digits_value(s.take(n), base) <= digits_value(s, base),
    decreases s.len() - n,
{
    if n < s.len() {
        digits_value_grows(s, base, n + 1);
        let t = s.take(n + 1);
        assert(t.drop_last() =~= s.take(n));
        let v = digits_value(s.take(n), base);
        assert(v <= v * base) by (nonlinear_arith)
            requires
                base >= 1,
                v >= 0,
        ;
    } else {
        assert(s.take(n) =~= s);
    }
}

fn parse_digits(cs: &Vec<char>, from: usize, base: u64) -> (r: Result<i64, ()>)
    requires
        from <= cs@.len(),
        2 <= base <= 16,
    ensures
        match int_of_digits(cs@.skip(from as int), base as nat) {
            Some(n) => r == Ok::<i64, ()>(n),
            None => r is Err,
        },
{
    let ghost s = cs@.skip(from as int);
    if from == cs.len() {
        return Err(());
    }
    let mut v: u64 = 0;
    let mut i: usize = from;
    while i < cs.len()
        invariant
            from <= i <= cs.len(),
            s == cs@.skip(from as int),
            2 <= base <= 16,
            v <= i64::MAX,
            v == digits_value(s.take(i - from), base as nat),
            forall|j: int| 0 <= j < i - from ==> digit_value(#[trigger] s[j]) < base,
        decreases cs.len() - i,
    {
        let d = digit_value_of(cs[i]);
        if d >= base {
            proof {
                assert(s[i - from] == cs@[i as int]);
            }
            return Err(());
        }
        proof {
            let t = s.take(i - from + 1);
            assert(t.drop_last() =~= s.take(i - from));
            assert(t.last() == cs@[i as int]);
            assert(v * base <= 0x7fff_ffff_ffff_ffff * 16) by (nonlinear_arith)
                requires
                    v <= 0x7fff_ffff_ffff_ffff,
                    2 <= base <= 16,
            ;
            digits_value_grows(s, base as nat, i - from + 1);
        }
        let wide: u128 = (v as u128) * (base as u128) + (d as u128);
        if wide > 0x7fff_ffff_ffff_ffff {
            return Err(());
        }
        v = wide as u64;
        i = i + 1;
    }
    proof {
        assert(s.take(s.len() as int) =~= s);
    }
    Ok(v as i64)
}

/// Parses an integer literal.
pub fn parse_int_literal(s: &str) -> (r: Result<i64, ()>)
    ensures
        match int_literal(s@) {
            Some(n) => r == Ok::<i64, ()>(n),
            None => r is Err,
        },
{
    let cs = chars_of(s);
    if cs.len() >= 2 && cs[0] == '0' && cs[1] == 'x' {
        parse_digits(&cs, 2, 16)
    } else if cs.len() >= 2 && cs[0] == '0' && cs[1] == 'b' {
        parse_digits(&cs, 2, 2)
    } else {
        proof {
            assert(cs@.skip(0) =~= cs@);
        }
        parse_digits(&cs, 0, 10)
    }
}

/// Parses the position in a tuple.
pub fn parse_index(s: &str) -> (r: Option<usize>)
    ensures
        r == index_literal(s@),
{
    let cs = chars_of(s);
    let ghost all = cs@;
    if cs.len() == 0 {
        return None;
    }
    let mut v: usize = 0;
    let mut i: usize = 0;
    while i < cs.len()
        invariant
            i <= cs.len(),
            all == cs@,
            all == s@,
            v == digits_value(all.take(i as int), 10),
            forall|j: int| 0 <= j < i ==> digit_value(#[trigger] all[j]) < 10,
        decreases cs.len() - i,
    {
        let d = digit_value_of(cs[i]);
        if d >= 10 {
            proof {
                assert(digit_value(all[i as int]) >= 10);
            }
            return None;
        }
        proof {
            let t = all.take(i + 1);
            assert(t.drop_last() =~= all.take(i as int));
            assert(t.last() == cs@[i as int]);
            digits_value_grows(all, 10, i + 1);
        }
        let wide: u128 = (v as u128) * 10 + (d as u128);
        if wide > usize::MAX as u128 {
            return None;
        }
        v = wide as usize;
        i = i + 1;
    }
    proof {
        assert(all.take(all.len() as int) =~= all);
    }
    Some(v)
}

} // verus!
