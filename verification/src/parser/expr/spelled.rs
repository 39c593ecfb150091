//! How expressions are written: which tokens an expression stands for.
//!
//! The tokens of an expression are those of its parts in order, with the
//! signs and names of the expression itself between them.  What is read says
//! what stands there.

use vstd::prelude::*;

use crate::api::ast::TypeV;
use crate::api::expr;
use crate::api::expr::{BinOp, Head, Tree};
use crate::api::token::{Bracket, Sign, TokenV};
use crate::parser::expr::grammar;
use crate::parser::expr::type_expr;
use crate::parser::expr::Segment;
use crate::parser::helpers;
use crate::parser::helpers::Toks;
use crate::parser::pattern::WaitPatternRule;
use crate::span::{SimpleSpan, Spanned};
use crate::text;
use crate::text::Text;

verus! {

// ── operators ──────────────────────────────────────────────────────────────

/// The sign that an operator is written with.
pub open spec fn sign_of(op: BinOp) -> Sign {
    match op {
        BinOp::Mul => Sign::Star,
        BinOp::Div => Sign::Slash,
        BinOp::Add => Sign::Plus,
        BinOp::Sub => Sign::Minus,
        BinOp::Shl => Sign::Shl,
        BinOp::Shr => Sign::Shr,
        BinOp::BAnd => Sign::BitAnd,
        BinOp::BXor => Sign::BitXor,
        BinOp::BOr => Sign::BitOr,
        BinOp::Le => Sign::LessEq,
        BinOp::Ge => Sign::GreaterEq,
        BinOp::Lt => Sign::Less,
        BinOp::Gt => Sign::Greater,
        BinOp::Eq => Sign::EqEq,
    }
}

/// The operators by how tightly they bind, the loosest first.
pub open spec fn level(op: BinOp) -> int {
    match op {
        BinOp::Eq => 0,
        BinOp::Le | BinOp::Ge | BinOp::Lt | BinOp::Gt => 1,
        BinOp::BOr => 2,
        BinOp::BXor => 3,
        BinOp::BAnd => 4,
        BinOp::Shl | BinOp::Shr => 5,
        BinOp::Add | BinOp::Sub => 6,
        BinOp::Mul | BinOp::Div => 7,
    }
}

/// A sign is an operator exactly where that operator is written with it.
pub proof fn operators_are_written_with_their_signs(s: Sign, op: BinOp)
    ensures
        (grammar::operator(s) matches Some((o, _)) && o == op) <==> sign_of(op) == s,
{
}

/// Operators bind in the order of their levels.
pub proof fn operators_bind_by_level(s: Sign, t: Sign)
    ensures
        match (grammar::operator(s), grammar::operator(t)) {
            (Some((a, p)), Some((b, q))) => p < q <==> level(a) < level(b),
            _ => true,
        },
        grammar::operator(s) matches Some((_, p)) ==> p < grammar::minus_power(),
{
}

// ── tokens ─────────────────────────────────────────────────────────────────

pub open spec fn is_sign(ts: Toks, k: int, s: Sign) -> bool {
    0 <= k < ts.len() && ts[k].inner == TokenV::Sign(s)
}

/// Whether the token at `k` is the given name, at its place.
pub open spec fn is_name(ts: Toks, k: int, name: Spanned<Text>) -> bool {
    0 <= k < ts.len() && ts[k].inner == TokenV::Ident(name.inner) && ts[k].span == name.span
}

/// Whether the token at `k` is a group with these tokens inside.
pub open spec fn is_group(ts: Toks, k: int, kind: Bracket, inside: Toks) -> bool {
    0 <= k < ts.len() && ts[k].inner == TokenV::Group(kind, inside)
}

/// From the beginning of the token at `i` to the end of the last before `j`.
pub open spec fn over(ts: Toks, i: int, j: int) -> SimpleSpan {
    SimpleSpan { start: ts[i].span.start, end: ts[j - 1].span.end }
}

/// Whether the tokens from `i` up to `j` are one pair of parentheses.
pub open spec fn is_enclosed(ts: Toks, i: int, j: int) -> bool {
    &&& 0 <= i < ts.len()
    &&& j == i + 1
    &&& ts[i].inner matches TokenV::Group(kind, _) && (kind is Parens || kind is TightParens)
}

/// Where each part of a list begins and ends.
pub struct Cuts {
    pub starts: Seq<int>,
    pub ends: Seq<int>,
}

/// Whether `n` parts follow one another from `i` up to `j`.
pub open spec fn are_cuts(at: Cuts, n: nat, i: int, j: int) -> bool {
    &&& at.starts.len() == n
    &&& at.ends.len() == n
    &&& n == 0 ==> i == j
    &&& n > 0 ==> at.starts[0] == i && at.ends[n - 1] == j
    &&& forall|m: int| 0 <= m < n ==> i <= #[trigger] at.starts[m] < at.ends[m] <= j
    &&& forall|m: int| 0 < m < n ==> #[trigger] at.starts[m] == at.ends[m - 1]
}

/// A named type at a place.
pub open spec fn named_at(name: Text, span: SimpleSpan) -> TypeV {
    TypeV::Named(Spanned { inner: name, span })
}

/// A tree at another place.
pub open spec fn at_span(t: Tree, span: SimpleSpan) -> Tree {
    Tree { span, ..t }
}

// ── types ──────────────────────────────────────────────────────────────────

/// Whether the tokens from `i` up to `j` spell a type.
pub open spec fn spells_type(ts: Toks, i: int, j: int, ty: Spanned<TypeV>) -> bool
    decreases ts, j - i, 0int,
{
    &&& 0 <= i < j <= ts.len()
    &&& ty.span == over(ts, i, j)
    &&& match ty.inner {
        TypeV::Named(name) => j == i + 1 && is_name(ts, i, name),
        TypeV::Unit => j == i + 1 && is_group(ts, i, Bracket::Curly, Seq::empty()),
        TypeV::Struct(tys) => j == i + 1 && match ts[i].inner {
            TokenV::Group(kind, inside) => kind is Curly && tys.len() > 0 && spells_types(
                inside,
                0,
                inside.len() as int,
                tys,
            ),
            _ => false,
        },
        TypeV::Generic(name, tys) => is_name(ts, i, name) && j == i + 2 && match ts[i + 1].inner {
            TokenV::Group(kind, inside) => (kind is Parens || kind is TightParens) && spells_types(
                inside,
                0,
                inside.len() as int,
                tys,
            ),
            _ => false,
        },
        TypeV::NamedGeneric(name, tys) => is_name(ts, i, name) && tys.len() > 0 && j > i + 1
            && match ts[i + 1].inner {
            TokenV::Group(kind, inside) => j == i + 2 && (kind is Square || kind is TightSquare)
                && spells_types(inside, 0, inside.len() as int, tys),
            TokenV::Sign(s) => s is Less && is_sign(ts, j - 1, Sign::Greater) && spells_types(
                ts,
                i + 2,
                j - 1,
                tys,
            ),
            _ => false,
        },
        _ => false,
    }
}

/// Whether the tokens from `i` up to `j` spell types, one behind the other.
pub open spec fn spells_types(ts: Toks, i: int, j: int, tys: Seq<Spanned<TypeV>>) -> bool
    decreases ts, j - i, 1int,
{
    exists|at: Cuts|
        {
            &&& #[trigger] are_cuts(at, tys.len(), i, j)
            &&& forall|n: int|
                0 <= n < tys.len() && i <= at.starts[n] < at.ends[n] <= j ==> spells_type(
                    ts,
                    at.starts[n],
                    at.ends[n],
                    #[trigger] tys[n],
                )
        }
}

proof fn types_one_more(
    ts: Toks,
    i: int,
    k: int,
    j: int,
    t: Spanned<TypeV>,
    rest: Seq<Spanned<TypeV>>,
)
    requires
        i <= k <= j,
        spells_type(ts, i, k, t),
        spells_types(ts, k, j, rest),
    ensures
        spells_types(ts, i, j, seq![t] + rest),
{
    let at = choose|at: Cuts|
        {
            &&& #[trigger] are_cuts(at, rest.len(), k, j)
            &&& forall|n: int|
                0 <= n < rest.len() && k <= at.starts[n] < at.ends[n] <= j ==> spells_type(
                    ts,
                    at.starts[n],
                    at.ends[n],
                    #[trigger] rest[n],
                )
        };
    let all = seq![t] + rest;
    let more = one_cut_more(i, k, at);
    cuts_one_more(i, k, j, at, rest.len());
    assert(are_cuts(more, all.len(), i, j));
    assert forall|n: int| 0 <= n < all.len() implies spells_type(
        ts,
        more.starts[n],
        more.ends[n],
        #[trigger] all[n],
    ) by {
        if n > 0 {
            assert(all[n] == rest[n - 1]);
            assert(more.starts[n] == at.starts[n - 1]);
            assert(more.ends[n] == at.ends[n - 1]);
        }
    }
}

spec fn no_cuts() -> Cuts {
    Cuts { starts: Seq::empty(), ends: Seq::empty() }
}

spec fn one_cut_more(i: int, k: int, at: Cuts) -> Cuts {
    Cuts { starts: seq![i] + at.starts, ends: seq![k] + at.ends }
}

proof fn cuts_one_more(i: int, k: int, j: int, at: Cuts, n: nat)
    requires
        i < k <= j,
        are_cuts(at, n, k, j),
    ensures
        are_cuts(one_cut_more(i, k, at), n + 1, i, j),
{
    let more = one_cut_more(i, k, at);
    if n > 0 {
        assert(more.ends[n as int] == at.ends[n - 1]);
    }
    assert forall|m: int| 0 <= m < n + 1 implies i <= #[trigger] more.starts[m] < more.ends[m]
        <= j by {
        if m > 0 {
            assert(more.starts[m] == at.starts[m - 1]);
            assert(more.ends[m] == at.ends[m - 1]);
        }
    }
    assert forall|m: int| 0 < m < n + 1 implies #[trigger] more.starts[m] == more.ends[m - 1] by {
        assert(more.starts[m] == at.starts[m - 1]);
        if m > 1 {
            assert(more.ends[m - 1] == at.ends[m - 2]);
        }
    }
}

proof fn type_is_spelled(ts: Toks, i: nat)
    ensures
        type_expr::type_at(ts, i) matches Some((t, j)) ==> i < j <= ts.len() && spells_type(
            ts,
            i as int,
            j as int,
            t,
        ),
    decreases ts, ts.len() - i, 1int,
{
    if i < ts.len() {
        match ts[i as int].inner {
            TokenV::Group(Bracket::Curly, inside) => {
                types_are_spelled(inside, 0);
                if let Some(tys) = type_expr::types_all(inside) {
                    if tys.len() == 0 {
                        assert(inside =~= Seq::empty()) by {
                            let at = choose|at: Cuts|
                                #[trigger] are_cuts(at, 0, 0, inside.len() as int);
                            assert(are_cuts(at, 0, 0, inside.len() as int));
                        }
                    }
                }
            },
            TokenV::Ident(n) => {
                if i + 1 < ts.len() {
                    match ts[(i + 1) as int].inner {
                        TokenV::Group(kind, inside) => {
                            helpers::inside_is_smaller(ts, i + 1);
                            types_are_spelled(inside, 0);
                        },
                        _ => {},
                    }
                }
                if helpers::sign_is(ts, i + 1, Sign::Less) {
                    types_are_spelled(ts, i + 2);
                }
            },
            _ => {},
        }
    }
}

proof fn types_are_spelled(ts: Toks, i: nat)
    requires
        i <= ts.len(),
    ensures
        i <= type_expr::types_from(ts, i).1 <= ts.len(),
        spells_types(
            ts,
            i as int,
            type_expr::types_from(ts, i).1 as int,
            type_expr::types_from(ts, i).0,
        ),
    decreases ts, ts.len() - i, 2int,
{
    let (tys, e) = type_expr::types_from(ts, i);
    type_is_spelled(ts, i);
    let found = match type_expr::type_at(ts, i) {
        Some((t, j)) => i < j <= ts.len(),
        None => false,
    };
    if found {
        let (t, j) = type_expr::type_at(ts, i)->0;
        types_are_spelled(ts, j);
        types_one_more(
            ts,
            i as int,
            j as int,
            e as int,
            t,
            type_expr::types_from(ts, j).0,
        );
    } else {
        assert(are_cuts(no_cuts(), 0, i as int, e as int));
    }
}

/// A type that is read is spelled by the tokens it is read from.
pub proof fn types_say_what_stands(ts: Toks, i: nat)
    ensures
        type_expr::type_at(ts, i) matches Some((t, j)) ==> i < j <= ts.len() && spells_type(
            ts,
            i as int,
            j as int,
            t,
        ),
{
    type_is_spelled(ts, i);
}

// ── expressions ────────────────────────────────────────────────────────────

/// Whether an expression is one token without parts.
pub open spec fn is_one(ts: Toks, i: int, j: int, t: Tree) -> bool {
    j == i + 1 && t.span == ts[i].span && t.kids.len() == 0
}

/// Whether the tokens from `i` up to `j` are names with colons between them.
pub open spec fn spells_path(ts: Toks, i: int, j: int, segs: Seq<Spanned<Text>>) -> bool {
    &&& j == i + 2 * segs.len() - 1
    &&& forall|k: int|
        0 <= k < segs.len() ==> is_segment(ts, i + 2 * k, k == 0, #[trigger] segs[k])
}

/// Whether the token at `p` is the given name, and the one before it a colon
/// unless the name comes first.
pub open spec fn is_segment(ts: Toks, p: int, first: bool, name: Spanned<Text>) -> bool {
    is_name(ts, p, name) && (first || is_sign(ts, p - 1, Sign::Colon))
}

/// Whether the tokens from `i` up to `j` are what a call may be applied to: a
/// name or a path.
pub open spec fn spells_callee(ts: Toks, i: int, j: int, t: Tree) -> bool {
    match t.head {
        Head::Var(name, ty) => is_one(ts, i, j, t) && ty == named_at("pid"@, t.span) && (
        ts[i].inner == TokenV::Ident(name) || ts[i].inner == TokenV::Sign(Sign::SelfKw) && name
            == "self"@),
        Head::Path(segs) => segs.len() >= 2 && t.kids.len() == 0 && t.span == over(ts, i, j)
            && spells_path(ts, i, j, segs),
        _ => false,
    }
}

/// Whether an operand stands where it does without parentheses: an operator
/// on the left binds at least as tightly as the one it is an operand of, and
/// one on the right more tightly.
pub open spec fn left_binds(ts: Toks, i: int, j: int, l: Tree, op: BinOp) -> bool {
    l.head matches Head::Bin(o) ==> is_enclosed(ts, i, j) || level(o) >= level(op)
}

pub open spec fn right_binds(ts: Toks, i: int, j: int, r: Tree, op: BinOp) -> bool {
    r.head matches Head::Bin(o) ==> is_enclosed(ts, i, j) || level(o) > level(op)
}

/// Whether the tokens from `i` up to `j` spell an expression.
pub open spec fn spells(ts: Toks, i: int, j: int, t: Tree) -> bool
    decreases ts, j - i, 1int,
{
    &&& 0 <= i < j <= ts.len()
    &&& {
        ||| spells_bare(ts, i, j, t)
        ||| is_enclosed(ts, i, j) && t.span == ts[i].span && match ts[i].inner {
            TokenV::Group(_, inside) => exists|s: SimpleSpan|
                spells(inside, 0, inside.len() as int, #[trigger] at_span(t, s)),
            _ => false,
        }
    }
}

/// Whether the tokens from `i` up to `j` spell an expression without
/// parentheses around it.
pub open spec fn spells_bare(ts: Toks, i: int, j: int, t: Tree) -> bool
    decreases ts, j - i, 0int,
{
    let n = t.kids.len();
    &&& 0 <= i < j <= ts.len()
    &&& match t.head {
        Head::Num(s, ty) => is_one(ts, i, j, t) && ty == named_at("i64"@, t.span) && match ts[i].inner {
            TokenV::Num(w) => w == s,
            TokenV::Char(b) => s == text::decimal(b as nat),
            _ => false,
        },
        Head::Str(s, ty) => is_one(ts, i, j, t) && match ts[i].inner {
            TokenV::Str(w) => w == s && ty == named_at("str"@, t.span),
            TokenV::ByteStr(w) => w == s && ty == named_at("buf"@, t.span),
            _ => false,
        },
        Head::Bool(b) => is_one(ts, i, j, t) && is_sign(
            ts,
            i,
            if b {
                Sign::True
            } else {
                Sign::False
            },
        ),
        Head::Unit => is_one(ts, i, j, t) && is_group(ts, i, Bracket::Curly, Seq::empty()),
        Head::Var(name, ty) => is_one(ts, i, j, t) && match ts[i].inner {
            TokenV::Ident(w) => w == name && ty is Unknown,
            TokenV::Sign(s) => s is SelfKw && name == "self"@ && ty == named_at("pid"@, t.span),
            _ => false,
        },
        Head::Path(segs) => segs.len() >= 2 && n == 0 && t.span == over(ts, i, j) && spells_path(
            ts,
            i,
            j,
            segs,
        ),
        Head::Atom(name) => j == i + 2 && n == 0 && t.span == over(ts, i, j) && is_sign(
            ts,
            i,
            Sign::Colon,
        ) && ts[i + 1].inner == TokenV::Ident(name),
        Head::Tuple => j == i + 1 && n > 0 && t.span == ts[i].span && match ts[i].inner {
            TokenV::Group(kind, inside) => kind is Curly && spells_all(
                inside,
                0,
                inside.len() as int,
                t.kids,
                0,
            ),
            _ => false,
        },
        Head::RecordLiteral(name, names) => j == i + 2 && is_name(ts, i, name) && t.span == over(
            ts,
            i,
            j,
        ) && n > 0 && names.len() == n && match ts[i + 1].inner {
            TokenV::Group(kind, inside) => kind is Curly && spells_fields(
                inside,
                0,
                inside.len() as int,
                names,
                t.kids,
            ),
            _ => false,
        },
        Head::Ret => n == 1 && t.span == over(ts, i, j) && is_sign(ts, i, Sign::Ret) && spells(
            ts,
            i + 1,
            j,
            t.kids[0],
        ),
        Head::Pin => n == 1 && t.span == over(ts, i, j) && is_sign(ts, i, Sign::Pin) && spells(
            ts,
            i + 1,
            j,
            t.kids[0],
        ),
        Head::Neg => n == 1 && t.span == over(ts, i, j) && is_sign(ts, i, Sign::Minus) && (
        t.kids[0].head is Bin ==> is_enclosed(ts, i + 1, j)) && spells(ts, i + 1, j, t.kids[0]),
        Head::Bin(op) => n == 2 && t.span == over(ts, i, j) && exists|k: int|
            {
                &&& #[trigger] is_sign(ts, k, sign_of(op))
                &&& i < k < j - 1
                &&& left_binds(ts, i, k, t.kids[0], op)
                &&& right_binds(ts, k + 1, j, t.kids[1], op)
                &&& spells(ts, i, k, t.kids[0])
                &&& spells(ts, k + 1, j, t.kids[1])
            },
        Head::Let(name, ty) => n == 1 && t.span == over(ts, i, j) && is_sign(ts, i, Sign::Let)
            && is_name(ts, i + 1, name) && exists|k: int|
            {
                &&& #[trigger] is_sign(ts, k, Sign::Eq)
                &&& i + 2 <= k < j - 1
                &&& if k == i + 2 {
                    ty == (Spanned { inner: TypeV::Unknown, span: name.span })
                } else {
                    spells_type(ts, i + 2, k, ty)
                }
                &&& spells(ts, k + 1, j, t.kids[0])
            },
        Head::LetTuple(names) => n == 1 && names.len() > 0 && t.span == over(ts, i, j) && i + 3 < j
            && is_sign(ts, i, Sign::Let) && is_sign(ts, i + 2, Sign::Eq) && match ts[i + 1].inner {
            TokenV::Group(kind, inside) => kind is Curly && inside.len() == names.len() && (forall|
                k: int,
            |
                0 <= k < names.len() ==> is_name(inside, k, #[trigger] names[k])),
            _ => false,
        } && spells(ts, i + 3, j, t.kids[0]),
        Head::When => n > 1 && t.span == over(ts, i, j) && i + 2 < j && is_sign(ts, i, Sign::When)
            && spells(ts, i + 1, j - 1, t.kids[0]) && match ts[j - 1].inner {
            TokenV::Group(kind, inside) => kind is Curly && spells_parts(
                inside,
                0,
                inside.len() as int,
                t.kids,
            ),
            _ => false,
        },
        Head::Wait => n > 1 && t.span == over(ts, i, j) && i + 1 < j && is_sign(ts, i, Sign::Wait)
            && t.kids[0].head is Filter && t.kids[0].span == crate::span::zero_span() && spells_all(
            ts,
            i + 1,
            j - 1,
            t.kids[0].kids,
            0,
        ) && match ts[j - 1].inner {
            TokenV::Group(kind, inside) => kind is Curly && spells_parts(
                inside,
                0,
                inside.len() as int,
                t.kids,
            ),
            _ => false,
        },
        Head::Jump => n > 0 && i + 1 < j && t.span == t.kids[0].span && spells_callee(
            ts,
            i,
            j - 1,
            t.kids[0],
        ) && match ts[j - 1].inner {
            TokenV::Group(kind, inside) => kind is TightParens && spells_all(
                inside,
                0,
                inside.len() as int,
                t.kids,
                1,
            ),
            _ => false,
        },
        Head::Index => n == 2 && i + 1 < j && t.span == t.kids[0].span && spells(
            ts,
            i,
            j - 1,
            t.kids[0],
        ) && match ts[j - 1].inner {
            TokenV::Group(kind, inside) => kind is TightSquare && spells(
                inside,
                0,
                inside.len() as int,
                t.kids[1],
            ),
            _ => false,
        },
        Head::MethodCall(name) => n > 0 && i + 3 < j && t.span == t.kids[0].span && is_sign(
            ts,
            j - 3,
            Sign::At,
        ) && is_name(ts, j - 2, name) && spells(ts, i, j - 3, t.kids[0]) && match ts[j - 1].inner {
            TokenV::Group(kind, inside) => kind is TightParens && spells_all(
                inside,
                0,
                inside.len() as int,
                t.kids,
                1,
            ),
            _ => false,
        },
        Head::AtAccess(name) => n == 1 && i + 2 < j && t.span == t.kids[0].span && is_sign(
            ts,
            j - 2,
            Sign::At,
        ) && is_name(ts, j - 1, name) && spells(ts, i, j - 2, t.kids[0]),
        Head::DotAccess(name) => n == 1 && i + 2 < j && t.span == t.kids[0].span && is_sign(
            ts,
            j - 2,
            Sign::Dot,
        ) && is_name(ts, j - 1, name) && spells(ts, i, j - 2, t.kids[0]),
        Head::TupleIndex(at) => n == 1 && i + 2 < j && t.span == t.kids[0].span && is_sign(
            ts,
            j - 2,
            Sign::Dot,
        ) && (ts[j - 1].inner matches TokenV::Num(w) && expr::index_literal(w) == Some(at))
            && spells(ts, i, j - 2, t.kids[0]),
        Head::StructInit => n > 0 && i + 2 < j && t.span == t.kids[0].span && is_sign(
            ts,
            j - 2,
            Sign::Dot,
        ) && spells(ts, i, j - 2, t.kids[0]) && match ts[j - 1].inner {
            TokenV::Group(kind, inside) => kind is Curly && spells_all(
                inside,
                0,
                inside.len() as int,
                t.kids,
                1,
            ),
            _ => false,
        },
        _ => false,
    }
}

/// Whether the tokens from `i` up to `j` spell the expressions from `from`
/// on, one behind the other.
pub open spec fn spells_all(ts: Toks, i: int, j: int, es: Seq<Tree>, from: int) -> bool
    decreases ts, j - i, 2int,
{
    0 <= from <= es.len() && exists|at: Cuts|
        {
            &&& #[trigger] are_cuts(at, (es.len() - from) as nat, i, j)
            &&& forall|n: int|
                from <= n < es.len() && i <= at.starts[n - from] < at.ends[n - from] <= j ==> spells(
                    ts,
                    at.starts[n - from],
                    at.ends[n - from],
                    #[trigger] es[n],
                )
        }
}

/// Whether the tokens from `i` up to `j` spell fields `name = value`.
pub open spec fn spells_fields(
    ts: Toks,
    i: int,
    j: int,
    names: Seq<Spanned<Text>>,
    es: Seq<Tree>,
) -> bool
    decreases ts, j - i, 2int,
{
    exists|at: Cuts|
        {
            &&& #[trigger] are_cuts(at, es.len(), i, j)
            &&& forall|n: int|
                0 <= n < es.len() ==> is_name(ts, #[trigger] at.starts[n], names[n]) && is_sign(
                    ts,
                    at.starts[n] + 1,
                    Sign::Eq,
                ) && at.starts[n] + 2 < at.ends[n]
            &&& forall|n: int|
                0 <= n < es.len() && i <= at.starts[n] && at.starts[n] + 2 < at.ends[n] <= j ==> spells(
                    ts,
                    at.starts[n] + 2,
                    at.ends[n],
                    #[trigger] es[n],
                )
        }
}

/// Whether the tokens from `i` up to `j` spell the arms of a `when` or the
/// handlers of a `wait`, which come behind the first of `parts`.
pub open spec fn spells_parts(ts: Toks, i: int, j: int, parts: Seq<Tree>) -> bool
    decreases ts, j - i, 2int,
{
    parts.len() > 0 && exists|at: Cuts|
        {
            &&& #[trigger] are_cuts(at, (parts.len() - 1) as nat, i, j)
            &&& forall|n: int|
                1 <= n < parts.len() && i <= at.starts[n - 1] < at.ends[n - 1] <= j ==> spells_part(
                    ts,
                    at.starts[n - 1],
                    at.ends[n - 1],
                    #[trigger] parts[n],
                )
        }
}

/// Whether the tokens from `i` up to `j` spell an arm or a handler: what it
/// is for, an arrow, and its body in braces.
pub open spec fn spells_part(ts: Toks, i: int, j: int, t: Tree) -> bool
    decreases ts, j - i, 0int,
{
    &&& 0 <= i && i + 2 < j <= ts.len()
    &&& is_sign(ts, j - 2, Sign::Arrow)
    &&& match t.head {
        Head::Arm => t.kids.len() > 0 && t.span == crate::span::zero_span() && spells(
            ts,
            i,
            j - 2,
            t.kids[0],
        ) && match ts[j - 1].inner {
            TokenV::Group(kind, inside) => kind is Curly && spells_all(
                inside,
                0,
                inside.len() as int,
                t.kids,
                1,
            ),
            _ => false,
        },
        Head::Handler(h) => {
            &&& t.span == over(ts, i, j)
            &&& h.ret_ty is None
            &&& h.patterns.len() > 0
            &&& match h.label {
                Some(name) => is_sign(ts, i, Sign::At) && is_name(ts, i + 1, name)
                    && helpers::many::<WaitPatternRule>(ts, (i + 2) as nat) == (
                    h.patterns,
                    (j - 2) as nat,
                ),
                None => helpers::many::<WaitPatternRule>(ts, i as nat) == (
                    h.patterns,
                    (j - 2) as nat,
                ),
            }
            &&& match ts[j - 1].inner {
                TokenV::Group(kind, inside) => kind is Curly && spells_all(
                    inside,
                    0,
                    inside.len() as int,
                    t.kids,
                    0,
                ),
                _ => false,
            }
        },
        _ => false,
    }
}

// ── lists ──────────────────────────────────────────────────────────────────

proof fn none_are_spelled(ts: Toks, i: int)
    ensures
        spells_all(ts, i, i, Seq::empty(), 0),
        spells_types(ts, i, i, Seq::empty()),
        spells_fields(ts, i, i, Seq::empty(), Seq::empty()),
{
    let none = Seq::<Tree>::empty();
    assert(are_cuts(no_cuts(), (none.len() - 0) as nat, i, i));
    assert(are_cuts(no_cuts(), none.len(), i, i));
    assert(are_cuts(no_cuts(), Seq::<Spanned<TypeV>>::empty().len(), i, i));
}

proof fn all_one_more(ts: Toks, i: int, k: int, j: int, e: Tree, rest: Seq<Tree>)
    requires
        i < k <= j,
        spells(ts, i, k, e),
        spells_all(ts, k, j, rest, 0),
    ensures
        spells_all(ts, i, j, seq![e] + rest, 0),
{
    let at = choose|at: Cuts|
        {
            &&& #[trigger] are_cuts(at, (rest.len() - 0) as nat, k, j)
            &&& forall|n: int|
                0 <= n < rest.len() && k <= at.starts[n - 0] < at.ends[n - 0] <= j ==> spells(
                    ts,
                    at.starts[n - 0],
                    at.ends[n - 0],
                    #[trigger] rest[n],
                )
        };
    let all = seq![e] + rest;
    let more = one_cut_more(i, k, at);
    cuts_one_more(i, k, j, at, rest.len());
    assert(are_cuts(more, (all.len() - 0) as nat, i, j));
    assert forall|n: int| 0 <= n < all.len() implies spells(
        ts,
        more.starts[n - 0],
        more.ends[n - 0],
        #[trigger] all[n],
    ) by {
        if n > 0 {
            assert(all[n] == rest[n - 1]);
            assert(more.starts[n] == at.starts[n - 1]);
            assert(more.ends[n] == at.ends[n - 1]);
        }
    }
}

/// A list behind one more expression.
proof fn behind_first(ts: Toks, i: int, j: int, first: Tree, es: Seq<Tree>)
    requires
        spells_all(ts, i, j, es, 0),
    ensures
        spells_all(ts, i, j, seq![first] + es, 1),
{
    let at = choose|at: Cuts|
        {
            &&& #[trigger] are_cuts(at, (es.len() - 0) as nat, i, j)
            &&& forall|n: int|
                0 <= n < es.len() && i <= at.starts[n - 0] < at.ends[n - 0] <= j ==> spells(
                    ts,
                    at.starts[n - 0],
                    at.ends[n - 0],
                    #[trigger] es[n],
                )
        };
    let all = seq![first] + es;
    assert(are_cuts(at, (all.len() - 1) as nat, i, j));
    assert forall|n: int| 1 <= n < all.len() implies spells(
        ts,
        at.starts[n - 1],
        at.ends[n - 1],
        #[trigger] all[n],
    ) by {
        assert(all[n] == es[n - 1]);
        assert(at.starts[n - 1] < at.ends[n - 1]);
    }
}

proof fn fields_one_more(
    ts: Toks,
    i: int,
    k: int,
    j: int,
    name: Spanned<Text>,
    e: Tree,
    names: Seq<Spanned<Text>>,
    rest: Seq<Tree>,
)
    requires
        i + 2 < k <= j,
        is_name(ts, i, name),
        is_sign(ts, i + 1, Sign::Eq),
        spells(ts, i + 2, k, e),
        names.len() == rest.len(),
        spells_fields(ts, k, j, names, rest),
    ensures
        spells_fields(ts, i, j, seq![name] + names, seq![e] + rest),
{
    let at = choose|at: Cuts|
        {
            &&& #[trigger] are_cuts(at, rest.len(), k, j)
            &&& forall|n: int|
                0 <= n < rest.len() ==> is_name(ts, #[trigger] at.starts[n], names[n]) && is_sign(
                    ts,
                    at.starts[n] + 1,
                    Sign::Eq,
                ) && at.starts[n] + 2 < at.ends[n]
            &&& forall|n: int|
                0 <= n < rest.len() && k <= at.starts[n] && at.starts[n] + 2 < at.ends[n] <= j
                    ==> spells(ts, at.starts[n] + 2, at.ends[n], #[trigger] rest[n])
        };
    let all = seq![e] + rest;
    let all_names = seq![name] + names;
    let more = one_cut_more(i, k, at);
    cuts_one_more(i, k, j, at, rest.len());
    assert(are_cuts(more, all.len(), i, j));
    assert forall|n: int| 0 <= n < all.len() implies is_name(
        ts,
        #[trigger] more.starts[n],
        all_names[n],
    ) && is_sign(ts, more.starts[n] + 1, Sign::Eq) && more.starts[n] + 2 < more.ends[n] by {
        if n > 0 {
            assert(more.starts[n] == at.starts[n - 1]);
            assert(more.ends[n] == at.ends[n - 1]);
            assert(all_names[n] == names[n - 1]);
        }
    }
    assert forall|n: int| 0 <= n < all.len() implies spells(
        ts,
        more.starts[n] + 2,
        more.ends[n],
        #[trigger] all[n],
    ) by {
        if n > 0 {
            assert(all[n] == rest[n - 1]);
            assert(more.starts[n] == at.starts[n - 1]);
            assert(more.ends[n] == at.ends[n - 1]);
            assert(at.starts[n - 1] + 2 < at.ends[n - 1]);
        }
    }
}

proof fn parts_one_more(ts: Toks, i: int, k: int, j: int, first: Tree, p: Tree, rest: Seq<Tree>)
    requires
        i < k <= j,
        spells_part(ts, i, k, p),
        spells_parts(ts, k, j, seq![first] + rest),
    ensures
        spells_parts(ts, i, j, seq![first] + (seq![p] + rest)),
{
    let before = seq![first] + rest;
    let at = choose|at: Cuts|
        {
            &&& #[trigger] are_cuts(at, (before.len() - 1) as nat, k, j)
            &&& forall|n: int|
                1 <= n < before.len() && k <= at.starts[n - 1] < at.ends[n - 1] <= j ==> spells_part(
                    ts,
                    at.starts[n - 1],
                    at.ends[n - 1],
                    #[trigger] before[n],
                )
        };
    let all = seq![first] + (seq![p] + rest);
    let more = one_cut_more(i, k, at);
    cuts_one_more(i, k, j, at, rest.len());
    assert(are_cuts(more, (all.len() - 1) as nat, i, j));
    assert forall|n: int| 1 <= n < all.len() implies spells_part(
        ts,
        more.starts[n - 1],
        more.ends[n - 1],
        #[trigger] all[n],
    ) by {
        if n > 1 {
            assert(all[n] == before[n - 1]);
            assert(more.starts[n - 1] == at.starts[n - 2]);
            assert(more.ends[n - 1] == at.ends[n - 2]);
        } else {
            assert(all[1] == p);
        }
    }
}

proof fn no_parts(ts: Toks, i: int, first: Tree)
    ensures
        spells_parts(ts, i, i, seq![first] + Seq::<Tree>::empty()),
{
    let parts = seq![first] + Seq::<Tree>::empty();
    assert(are_cuts(no_cuts(), (parts.len() - 1) as nat, i, i));
}

// ── what is read is spelled ────────────────────────────────────────────────

/// How tightly an operator binds.
spec fn power_of(op: BinOp) -> nat {
    match grammar::operator(sign_of(op)) {
        Some((_, p)) => p,
        None => 0,
    }
}

/// Whether no operator that binds at least as tightly as `power` can be
/// applied at `j`.
spec fn is_blocked(ts: Toks, j: nat, power: nat) -> bool {
    match grammar::operator_in(ts, j, power) {
        Some((_, p)) => match grammar::operand_at(ts, j + 1, p + 1) {
            Some((_, k)) => !(j < k <= ts.len()),
            None => true,
        },
        None => true,
    }
}

proof fn expression_is_spelled(ts: Toks, i: nat)
    ensures
        grammar::expr_at(ts, i) matches Some((t, j)) ==> i < j <= ts.len() && spells(
            ts,
            i as int,
            j as int,
            t,
        ),
    decreases ts, ts.len() - i, 5int,
{
    operand_is_spelled(ts, i, 0);
}

proof fn operand_is_spelled(ts: Toks, i: nat, power: nat)
    ensures
        grammar::operand_at(ts, i, power) matches Some((t, j)) ==> {
            &&& i < j <= ts.len()
            &&& spells(ts, i as int, j as int, t)
            &&& is_blocked(ts, j, power)
            &&& t.head matches Head::Bin(o) ==> is_enclosed(ts, i as int, j as int) || power_of(o)
                >= power
        },
    decreases ts, ts.len() - i, 4int,
{
    if i < ts.len() {
        if helpers::sign_is(ts, i, Sign::Minus) {
            operand_is_spelled(ts, i + 1, grammar::minus_power());
            if let Some((x, j)) = grammar::operand_at(ts, i + 1, grammar::minus_power()) {
                let t = expr::node(Head::Neg, helpers::span_over(ts, i, j), seq![x]);
                assert(t.kids[0] == x);
                assert(spells_bare(ts, i as int, j as int, t));
                operators_are_spelled(ts, i, j, t, power);
            }
        } else {
            primary_is_spelled(ts, i);
            if let Some((t, j)) = grammar::primary_at(ts, i) {
                if i < j <= ts.len() {
                    operators_are_spelled(ts, i, j, t, power);
                }
            }
        }
    } else {
        primary_is_spelled(ts, i);
    }
}

proof fn operators_are_spelled(ts: Toks, start: nat, i: nat, lhs: Tree, power: nat)
    requires
        start < i <= ts.len(),
        spells(ts, start as int, i as int, lhs),
        lhs.head matches Head::Bin(o) ==> is_enclosed(ts, start as int, i as int) || (power_of(o)
            >= power && is_blocked(ts, i, power_of(o) + 1)),
    ensures
        ({
            let (t, j) = grammar::operators_from(ts, start, i, lhs, power);
            &&& i <= j <= ts.len()
            &&& spells(ts, start as int, j as int, t)
            &&& is_blocked(ts, j, power)
            &&& t.head matches Head::Bin(o) ==> is_enclosed(ts, start as int, j as int)
                || power_of(o) >= power
        }),
    decreases ts, ts.len() - i, 4int,
{
    if let Some((op, p)) = grammar::operator_in(ts, i, power) {
        operand_is_spelled(ts, i + 1, p + 1);
        if let Some((rhs, j)) = grammar::operand_at(ts, i + 1, p + 1) {
            if i < j <= ts.len() {
                let both = expr::bin_tree(op, helpers::span_over(ts, start, j), lhs, rhs);
                let s = ts[i as int].inner->Sign_0;
                operators_are_written_with_their_signs(s, op);
                assert(is_sign(ts, i as int, sign_of(op)));
                assert(power_of(op) == p);
                if let Head::Bin(o) = lhs.head {
                    if !is_enclosed(ts, start as int, i as int) && power_of(o) < p {
                        assert(grammar::operator_in(ts, i, power_of(o) + 1) == Some((op, p)));
                    }
                    operators_bind_by_level(sign_of(o), sign_of(op));
                }
                if let Head::Bin(o) = rhs.head {
                    operators_bind_by_level(sign_of(op), sign_of(o));
                }
                assert(both.kids[0] == lhs);
                assert(both.kids[1] == rhs);
                assert(spells_bare(ts, start as int, j as int, both));
                operators_are_spelled(ts, start, j, both, power);
            }
        }
    }
}

proof fn primary_is_spelled(ts: Toks, i: nat)
    ensures
        grammar::primary_at(ts, i) matches Some((t, j)) ==> {
            &&& i < j <= ts.len()
            &&& spells(ts, i as int, j as int, t)
            &&& t.head is Bin ==> is_enclosed(ts, i as int, j as int)
        },
    decreases ts, ts.len() - i, 3int,
{
    base_is_spelled(ts, i);
    if let Some((b, j)) = grammar::base_at(ts, i) {
        if i < j <= ts.len() && !grammar::uncalled(ts, i, j) {
            postfix_is_spelled(ts, i, j, b);
        }
    }
}

proof fn postfix_is_spelled(ts: Toks, start: nat, i: nat, acc: Tree)
    requires
        start < i <= ts.len(),
        spells(ts, start as int, i as int, acc),
        acc.head is Bin ==> is_enclosed(ts, start as int, i as int),
        is_enclosed(ts, start as int, i as int) ==> helpers::group_in(
            ts,
            i,
            Bracket::TightParens,
        ) is None,
    ensures
        ({
            let (t, j) = grammar::postfix_from(ts, i, acc);
            &&& i <= j <= ts.len()
            &&& spells(ts, start as int, j as int, t)
            &&& t.head is Bin ==> is_enclosed(ts, start as int, j as int)
        }),
    decreases ts, ts.len() - i, 4int,
{
    post_is_spelled(ts, start, i, acc);
    if let Some((t, j)) = grammar::post_at(ts, i, acc) {
        if i < j <= ts.len() {
            postfix_is_spelled(ts, start, j, t);
        }
    }
}

#[verifier::rlimit(80)]
#[verifier::spinoff_prover]
proof fn post_is_spelled(ts: Toks, start: nat, i: nat, acc: Tree)
    requires
        start < i <= ts.len(),
        spells(ts, start as int, i as int, acc),
        is_enclosed(ts, start as int, i as int) ==> helpers::group_in(
            ts,
            i,
            Bracket::TightParens,
        ) is None,
    ensures
        grammar::post_at(ts, i, acc) matches Some((t, j)) ==> {
            &&& i < j <= ts.len()
            &&& spells(ts, start as int, j as int, t)
            &&& !(t.head is Bin)
        },
    decreases ts, ts.len() - i, 1int,
{
    if let Some((t, j)) = grammar::post_at(ts, i, acc) {
        let a = start as int;
        let b = j as int;
        match ts[i as int].inner {
            TokenV::Group(Bracket::TightParens, inside) => {
                all_are_spelled(inside);
                let args = grammar::exprs_all(inside)->0;
                assert(spells_bare(ts, a, i as int, acc));
                let c = grammar::callee(acc);
                assert(spells_callee(ts, a, i as int, c));
                behind_first(inside, 0, inside.len() as int, c, args);
                assert(t.kids[0] == c);
                assert(spells_bare(ts, a, b, t));
            },
            TokenV::Group(Bracket::TightSquare, inside) => {
                one_is_spelled(inside);
                assert(t.kids[0] == acc);
                assert(t.kids[1] == grammar::expr_all(inside)->0);
                assert(spells_bare(ts, a, b, t));
            },
            TokenV::Sign(Sign::At) => {
                if let Some(args) = grammar::method_args(ts, i + 2) {
                    let inside = ts[(i + 2) as int].inner->Group_1;
                    all_are_spelled(inside);
                    behind_first(inside, 0, inside.len() as int, acc, args);
                    assert(t.kids[0] == acc);
                    assert(spells_bare(ts, a, b, t));
                } else {
                    assert(t.kids[0] == acc);
                    assert(spells_bare(ts, a, b, t));
                }
            },
            TokenV::Sign(Sign::Dot) => {
                match ts[(i + 1) as int].inner {
                    TokenV::Group(Bracket::Curly, inside) => {
                        all_are_spelled(inside);
                        let fields = grammar::exprs_all(inside)->0;
                        behind_first(inside, 0, inside.len() as int, acc, fields);
                        assert(t.kids[0] == acc);
                        assert(spells_bare(ts, a, b, t));
                    },
                    _ => {
                        assert(t.kids[0] == acc);
                        assert(spells_bare(ts, a, b, t));
                    },
                }
            },
            _ => {},
        }
    }
}

proof fn base_is_spelled(ts: Toks, i: nat)
    ensures
        grammar::base_at(ts, i) matches Some((t, j)) ==> {
            &&& i < j <= ts.len()
            &&& spells(ts, i as int, j as int, t)
            &&& t.head is Bin ==> is_enclosed(ts, i as int, j as int)
        },
    decreases ts, ts.len() - i, 2int,
{
    if i < ts.len() {
        if helpers::sign_is(ts, i, Sign::Ret) || helpers::sign_is(ts, i, Sign::Pin) {
            expression_is_spelled(ts, i + 1);
            if let Some((t, j)) = grammar::base_at(ts, i) {
                let e = grammar::expr_at(ts, i + 1)->0;
                assert(t.kids[0] == e.0);
                assert(spells_bare(ts, i as int, j as int, t));
            }
        } else if helpers::sign_is(ts, i, Sign::Wait) {
            wait_is_spelled(ts, i);
        } else if helpers::sign_is(ts, i, Sign::Let) {
            let_is_spelled(ts, i);
        } else if helpers::sign_is(ts, i, Sign::When) {
            when_is_spelled(ts, i);
        } else {
            atom_is_spelled(ts, i);
        }
    } else {
        atom_is_spelled(ts, i);
    }
}

proof fn idents_are_names(ts: Toks, i: nat)
    requires
        i <= ts.len(),
    ensures
        ({
            let (ids, e) = helpers::idents_from(ts, i);
            &&& e == i + ids.len()
            &&& e <= ts.len()
            &&& forall|k: int| 0 <= k < ids.len() ==> is_name(ts, i + k, #[trigger] ids[k])
        }),
    decreases ts.len() - i,
{
    if helpers::ident_in(ts, i) is Some {
        idents_are_names(ts, i + 1);
        let ids = helpers::idents_from(ts, i).0;
        let rest = helpers::idents_from(ts, i + 1).0;
        assert forall|k: int| 0 <= k < ids.len() implies is_name(ts, i + k, #[trigger] ids[k]) by {
            if k > 0 {
                assert(ids[k] == rest[k - 1]);
                assert(is_name(ts, i + 1 + (k - 1), rest[k - 1]));
            }
        }
    }
}

proof fn let_is_spelled(ts: Toks, i: nat)
    requires
        helpers::sign_is(ts, i, Sign::Let),
    ensures
        grammar::let_tuple_at(ts, i) matches Some((t, j)) ==> i < j <= ts.len() && !(t.head is Bin)
            && spells(ts, i as int, j as int, t),
        grammar::let_at(ts, i) matches Some((t, j)) ==> i < j <= ts.len() && !(t.head is Bin)
            && spells(ts, i as int, j as int, t),
    decreases ts, ts.len() - i, 1int,
{
    if let Some((t, j)) = grammar::let_tuple_at(ts, i) {
        expression_is_spelled(ts, i + 3);
        let inside = helpers::braces_in(ts, i + 1)->0;
        idents_are_names(inside, 0);
        let e = grammar::expr_at(ts, i + 3)->0;
        assert(t.kids[0] == e.0);
        assert(is_sign(ts, (i + 2) as int, Sign::Eq));
        assert(spells_bare(ts, i as int, j as int, t)) by {
            let names = helpers::idents_all(inside)->0;
            assert forall|k: int| 0 <= k < names.len() implies is_name(
                inside,
                k,
                #[trigger] names[k],
            ) by {
                assert(is_name(inside, 0 + k, names[k]));
            }
        }
    }
    if let Some((t, j)) = grammar::let_at(ts, i) {
        let id = helpers::ident_in(ts, i + 1)->0;
        let (ty, k) = grammar::annotation(ts, i + 2, id);
        type_is_spelled(ts, i + 2);
        expression_is_spelled(ts, k + 1);
        let e = grammar::expr_at(ts, k + 1)->0;
        assert(t.kids[0] == e.0);
        assert(is_sign(ts, k as int, Sign::Eq));
        assert(spells_bare(ts, i as int, j as int, t));
    }
}

proof fn when_is_spelled(ts: Toks, i: nat)
    requires
        helpers::sign_is(ts, i, Sign::When),
    ensures
        grammar::when_at(ts, i) matches Some((t, j)) ==> i < j <= ts.len() && !(t.head is Bin)
            && spells(ts, i as int, j as int, t),
    decreases ts, ts.len() - i, 1int,
{
    expression_is_spelled(ts, i + 1);
    if let Some((t, j)) = grammar::when_at(ts, i) {
        let (cond, k) = grammar::expr_at(ts, i + 1)->0;
        let inside = ts[k as int].inner->Group_1;
        arms_are_spelled(inside, 0, cond);
        assert(t.kids[0] == cond);
        assert(spells_bare(ts, i as int, j as int, t));
    }
}

proof fn arms_are_spelled(ts: Toks, i: nat, first: Tree)
    requires
        i <= ts.len(),
    ensures
        i <= grammar::arms_from(ts, i).1 <= ts.len(),
        spells_parts(
            ts,
            i as int,
            grammar::arms_from(ts, i).1 as int,
            seq![first] + grammar::arms_from(ts, i).0,
        ),
    decreases ts, ts.len() - i, 7int,
{
    arm_is_spelled(ts, i);
    let found = match grammar::arm_at(ts, i) {
        Some((a, j)) => i < j <= ts.len(),
        None => false,
    };
    if found {
        let (a, j) = grammar::arm_at(ts, i)->0;
        arms_are_spelled(ts, j, first);
        let rest = grammar::arms_from(ts, j);
        parts_one_more(ts, i as int, j as int, rest.1 as int, first, a, rest.0);
    } else {
        no_parts(ts, i as int, first);
    }
}

proof fn arm_is_spelled(ts: Toks, i: nat)
    ensures
        grammar::arm_at(ts, i) matches Some((t, j)) ==> i < j <= ts.len() && spells_part(
            ts,
            i as int,
            j as int,
            t,
        ),
    decreases ts, ts.len() - i, 6int,
{
    expression_is_spelled(ts, i);
    if let Some((t, j)) = grammar::arm_at(ts, i) {
        let (pat, k) = grammar::expr_at(ts, i)->0;
        let inside = ts[(k + 1) as int].inner->Group_1;
        all_are_spelled(inside);
        let body = grammar::exprs_all(inside)->0;
        behind_first(inside, 0, inside.len() as int, pat, body);
        assert(t.kids[0] == pat);
        assert(spells_part(ts, i as int, j as int, t));
    }
}

proof fn wait_is_spelled(ts: Toks, i: nat)
    requires
        helpers::sign_is(ts, i, Sign::Wait),
    ensures
        grammar::wait_at(ts, i) matches Some((t, j)) ==> i < j <= ts.len() && !(t.head is Bin)
            && spells(ts, i as int, j as int, t),
    decreases ts, ts.len() - i, 1int,
{
    several_are_spelled(ts, i + 1);
    if let Some((t, j)) = grammar::wait_at(ts, i) {
        let (filter, k) = grammar::exprs_from(ts, i + 1);
        let inside = ts[k as int].inner->Group_1;
        let f = expr::node(Head::Filter, crate::span::zero_span(), filter);
        handlers_are_spelled(inside, 0, f);
        assert(t.kids[0] == f);
        assert(spells_bare(ts, i as int, j as int, t));
    }
}

proof fn handlers_are_spelled(ts: Toks, i: nat, first: Tree)
    requires
        i <= ts.len(),
    ensures
        i <= grammar::handlers_from(ts, i).1 <= ts.len(),
        spells_parts(
            ts,
            i as int,
            grammar::handlers_from(ts, i).1 as int,
            seq![first] + grammar::handlers_from(ts, i).0,
        ),
    decreases ts, ts.len() - i, 7int,
{
    handler_is_spelled(ts, i);
    let found = match grammar::handler_at(ts, i) {
        Some((a, j)) => i < j <= ts.len(),
        None => false,
    };
    if found {
        let (h, j) = grammar::handler_at(ts, i)->0;
        handlers_are_spelled(ts, j, first);
        let rest = grammar::handlers_from(ts, j);
        parts_one_more(ts, i as int, j as int, rest.1 as int, first, h, rest.0);
    } else {
        no_parts(ts, i as int, first);
    }
}

proof fn patterns_go_on(ts: Toks, i: nat)
    ensures
        i <= helpers::many::<WaitPatternRule>(ts, i).1,
        helpers::many::<WaitPatternRule>(ts, i).0.len() > 0 ==> i < helpers::many::<WaitPatternRule>(
            ts,
            i,
        ).1,
    decreases ts.len() - i,
{
    if let Some((x, j)) = <WaitPatternRule as helpers::Rule>::at(ts, i) {
        if i < j <= ts.len() {
            patterns_go_on(ts, j);
        }
    }
}

proof fn handler_is_spelled(ts: Toks, i: nat)
    ensures
        grammar::handler_at(ts, i) matches Some((t, j)) ==> i < j <= ts.len() && spells_part(
            ts,
            i as int,
            j as int,
            t,
        ),
    decreases ts, ts.len() - i, 6int,
{
    if let Some((t, j)) = grammar::handler_at(ts, i) {
        let (label, a) = grammar::label_at(ts, i);
        let (patterns, k) = helpers::many::<WaitPatternRule>(ts, a);
        patterns_go_on(ts, a);
        let inside = ts[(k + 1) as int].inner->Group_1;
        all_are_spelled(inside);
        assert(spells_part(ts, i as int, j as int, t));
    }
}

proof fn segments_are_names(ts: Toks, i: nat)
    requires
        i <= ts.len(),
    ensures
        ({
            let (segs, e) = helpers::many::<Segment>(ts, i);
            &&& e == i + 2 * segs.len()
            &&& e <= ts.len()
            &&& forall|k: int|
                0 <= k < segs.len() ==> is_segment(ts, i + 2 * k + 1, false, #[trigger] segs[k])
        }),
    decreases ts.len() - i,
{
    if let Some((x, j)) = <Segment as helpers::Rule>::at(ts, i) {
        if i < j <= ts.len() {
            segments_are_names(ts, j);
            let segs = helpers::many::<Segment>(ts, i).0;
            let rest = helpers::many::<Segment>(ts, j).0;
            assert(segs =~= seq![x] + rest);
            assert(2 * segs.len() == 2 + 2 * rest.len());
            assert forall|k: int| 0 <= k < segs.len() implies is_segment(
                ts,
                i + 2 * k + 1,
                false,
                #[trigger] segs[k],
            ) by {
                if k > 0 {
                    assert(segs[k] == rest[k - 1]);
                    assert(i + 2 * k + 1 == j + 2 * (k - 1) + 1);
                } else {
                    assert(segs[0] == x);
                }
            }
        }
    }
}

proof fn atom_is_spelled(ts: Toks, i: nat)
    ensures
        grammar::atom_at(ts, i) matches Some((t, j)) ==> {
            &&& i < j <= ts.len()
            &&& spells(ts, i as int, j as int, t)
            &&& t.head is Bin ==> is_enclosed(ts, i as int, j as int)
        },
    decreases ts, ts.len() - i, 1int,
{
    if i < ts.len() {
        match ts[i as int].inner {
            TokenV::Group(Bracket::Curly, inside) => {
                all_are_spelled(inside);
                if let Some((t, j)) = grammar::atom_at(ts, i) {
                    let es = grammar::exprs_all(inside)->0;
                    if es.len() == 0 {
                        let at = choose|at: Cuts|
                            #[trigger] are_cuts(at, (es.len() - 0) as nat, 0, inside.len() as int);
                        assert(are_cuts(at, (es.len() - 0) as nat, 0, inside.len() as int));
                        assert(inside =~= Seq::empty());
                    }
                    assert(spells_bare(ts, i as int, j as int, t));
                }
            },
            TokenV::Group(Bracket::Parens, inside) => {
                one_is_spelled(inside);
                if let Some(e) = grammar::expr_all(inside) {
                    let t = Tree { span: ts[i as int].span, ..e };
                    assert(at_span(t, e.span) == e);
                }
            },
            TokenV::Group(Bracket::TightParens, inside) => {
                one_is_spelled(inside);
                if let Some(e) = grammar::expr_all(inside) {
                    let t = Tree { span: ts[i as int].span, ..e };
                    assert(at_span(t, e.span) == e);
                }
            },
            TokenV::Ident(_) => {
                record_is_spelled(ts, i);
                segments_are_names(ts, i + 1);
                if let Some((t, j)) = grammar::atom_at(ts, i) {
                    if grammar::record_at(ts, i) is None {
                        let head = helpers::ident_in(ts, i)->0;
                        let (tail, e) = helpers::many::<Segment>(ts, i + 1);
                        let segs = seq![head] + tail;
                        assert forall|k: int| 0 <= k < segs.len() implies is_segment(
                            ts,
                            i + 2 * k,
                            k == 0,
                            #[trigger] segs[k],
                        ) by {
                            if k > 0 {
                                assert(segs[k] == tail[k - 1]);
                                assert(i + 2 * k == i + 1 + 2 * (k - 1) + 1);
                            }
                        }
                        if tail.len() > 0 {
                            assert(e == i + 1 + 2 * tail.len());
                            assert(segs.len() == tail.len() + 1);
                            assert(j as int == i + 2 * segs.len() - 1);
                            assert(spells_path(ts, i as int, j as int, segs));
                        }
                        assert(spells_bare(ts, i as int, j as int, t));
                    }
                }
            },
            _ => {
                if let Some((t, j)) = grammar::atom_at(ts, i) {
                    assert(spells_bare(ts, i as int, j as int, t));
                }
            },
        }
    }
}

proof fn record_is_spelled(ts: Toks, i: nat)
    ensures
        grammar::record_at(ts, i) matches Some((t, j)) ==> i < j <= ts.len() && !(t.head is Bin)
            && spells(ts, i as int, j as int, t),
    decreases ts, ts.len() - i, 0int,
{
    if let Some((t, j)) = grammar::record_at(ts, i) {
        let inside = ts[(i + 1) as int].inner->Group_1;
        fields_are_spelled(inside, 0);
        assert(spells_bare(ts, i as int, j as int, t));
    }
}

proof fn fields_are_spelled(ts: Toks, i: nat)
    requires
        i <= ts.len(),
    ensures
        ({
            let (fs, e) = grammar::fields_from(ts, i);
            &&& i <= e <= ts.len()
            &&& spells_fields(
                ts,
                i as int,
                e as int,
                grammar::names_of(fs),
                grammar::values_of(fs),
            )
        }),
    decreases ts, ts.len() - i, 7int,
{
    let (fs, e) = grammar::fields_from(ts, i);
    let found = match grammar::field_at(ts, i) {
        Some((f, j)) => i < j <= ts.len(),
        None => false,
    };
    if found {
        expression_is_spelled(ts, i + 2);
        let (f, j) = grammar::field_at(ts, i)->0;
        fields_are_spelled(ts, j);
        let rest = grammar::fields_from(ts, j).0;
        fields_one_more(
            ts,
            i as int,
            j as int,
            e as int,
            f.0,
            f.1,
            grammar::names_of(rest),
            grammar::values_of(rest),
        );
        assert(grammar::names_of(fs) =~= seq![f.0] + grammar::names_of(rest));
        assert(grammar::values_of(fs) =~= seq![f.1] + grammar::values_of(rest));
    } else {
        none_are_spelled(ts, i as int);
        assert(grammar::names_of(fs) =~= Seq::empty());
        assert(grammar::values_of(fs) =~= Seq::empty());
    }
}

proof fn several_are_spelled(ts: Toks, i: nat)
    requires
        i <= ts.len(),
    ensures
        i <= grammar::exprs_from(ts, i).1 <= ts.len(),
        spells_all(
            ts,
            i as int,
            grammar::exprs_from(ts, i).1 as int,
            grammar::exprs_from(ts, i).0,
            0,
        ),
    decreases ts, ts.len() - i, 7int,
{
    expression_is_spelled(ts, i);
    let found = match grammar::expr_at(ts, i) {
        Some((e, j)) => i < j <= ts.len(),
        None => false,
    };
    if found {
        let (e, j) = grammar::expr_at(ts, i)->0;
        several_are_spelled(ts, j);
        let rest = grammar::exprs_from(ts, j);
        all_one_more(ts, i as int, j as int, rest.1 as int, e, rest.0);
    } else {
        none_are_spelled(ts, i as int);
    }
}

proof fn all_are_spelled(ts: Toks)
    ensures
        grammar::exprs_all(ts) matches Some(es) ==> spells_all(ts, 0, ts.len() as int, es, 0),
    decreases ts, ts.len() as int, 8int,
{
    several_are_spelled(ts, 0);
}

proof fn one_is_spelled(ts: Toks)
    ensures
        grammar::expr_all(ts) matches Some(e) ==> spells(ts, 0, ts.len() as int, e),
    decreases ts, ts.len() as int, 8int,
{
    expression_is_spelled(ts, 0);
}

/// An expression that is read is spelled by the tokens it is read from: its
/// operands, arguments, fields and bodies are there in order, its operators,
/// names and keywords are the signs and words that stand between them, and
/// operators group by how tightly they bind, and to the left where they bind
/// alike.
pub proof fn expressions_say_what_stands(ts: Toks, i: nat)
    ensures
        grammar::expr_at(ts, i) matches Some((t, j)) ==> i < j <= ts.len() && spells(
            ts,
            i as int,
            j as int,
            t,
        ),
        grammar::exprs_all(ts) matches Some(es) ==> spells_all(ts, 0, ts.len() as int, es, 0),
{
    expression_is_spelled(ts, i);
    all_are_spelled(ts);
}

// ── the simplest ones ──────────────────────────────────────────────────────

/// Whether a token is an operand of its own.
pub open spec fn is_operand(t: TokenV) -> bool {
    match t {
        TokenV::Ident(_) | TokenV::Num(_) | TokenV::Str(_) | TokenV::ByteStr(_) | TokenV::Char(_) => true,
        TokenV::Sign(s) => s is True || s is False || s is SelfKw,
        _ => false,
    }
}

/// An operand followed by nothing, or by an operator, is read as it is.
proof fn operand_is_read(ts: Toks, i: nat)
    requires
        i < ts.len(),
        is_operand(ts[i as int].inner),
        i + 1 < ts.len() ==> exists|op: BinOp|
            ts[(i + 1) as int].inner == TokenV::Sign(#[trigger] sign_of(op)),
    ensures
        grammar::primary_at(ts, i) matches Some((t, j)) && j == i + 1 && !(t.head is Bin),
{
    let at = ts[i as int].inner;
    assert(grammar::record_at(ts, i) is None);
    assert(<Segment as helpers::Rule>::at(ts, i + 1) is None);
    assert(helpers::many::<Segment>(ts, i + 1).0.len() == 0);
    assert(grammar::base_at(ts, i) == grammar::atom_at(ts, i));
    assert(grammar::atom_at(ts, i) is Some);
    let (b, j) = grammar::atom_at(ts, i)->0;
    assert(j == i + 1);
    assert(grammar::post_at(ts, i + 1, b) is None);
    assert(grammar::postfix_from(ts, i + 1, b) == (b, j));
}

/// Two operands with the sign of an operator between them are read as that
/// operator applied to them, the first on the left and the second on the
/// right.
pub proof fn an_operator_is_read_between_its_operands(ts: Toks, op: BinOp)
    requires
        ts.len() == 3,
        is_operand(ts[0].inner),
        ts[1].inner == TokenV::Sign(sign_of(op)),
        is_operand(ts[2].inner),
    ensures
        grammar::expr_all(ts) matches Some(t) && t.head == Head::Bin(op) && t.kids.len() == 2
            && spells(ts, 0, 1, t.kids[0]) && spells(ts, 2, 3, t.kids[1]),
{
    assert(ts[0 + 1int].inner == TokenV::Sign(sign_of(op)));
    operand_is_read(ts, 0);
    operand_is_read(ts, 2);
    operators_are_written_with_their_signs(sign_of(op), op);
    let (l, _) = grammar::primary_at(ts, 0)->0;
    let (r, _) = grammar::primary_at(ts, 2)->0;
    primary_is_spelled(ts, 0);
    primary_is_spelled(ts, 2);
    let p = power_of(op);
    assert(grammar::operator_in(ts, 1, 0) == Some((op, p)));
    assert(grammar::operator_in(ts, 3, p + 1) is None);
    assert(grammar::operators_from(ts, 2, 3, r, p + 1) == (r, 3nat));
    assert(grammar::operand_at(ts, 2, p + 1) == Some((r, 3nat)));
    let both = expr::bin_tree(op, helpers::span_over(ts, 0, 3), l, r);
    assert(grammar::operator_in(ts, 3, 0) is None);
    assert(grammar::operators_from(ts, 0, 3, both, 0) == (both, 3nat));
    assert(grammar::operators_from(ts, 0, 1, l, 0) == (both, 3nat));
    assert(both.kids[0] == l);
    assert(both.kids[1] == r);
}

} // verus!
