//! Type expressions.

use vstd::prelude::*;

use crate::api::ast;
use crate::api::ast::{Type, TypeV};
use crate::api::token;
use crate::api::token::{Sign, TokenV};
use crate::parser::helpers;
use crate::parser::helpers::{
    ident_parser, next_braces, next_is, next_parens, next_squares, span_from, TokenInput, Toks,
};
use crate::span::Spanned;

verus! {

/// The type expression at `i`, and where it ends:
/// - `i32`, `str` is a named type,
/// - `box(T)`, `result({})` a generic type in call form,
/// - `Vec<T>`, `Map[K V]` a generic type with its arguments in brackets,
/// - `{}` the unit type,
/// - `{ i64 usize }` an anonymous struct.
pub open spec fn type_at(ts: Toks, i: nat) -> Option<(Spanned<TypeV>, nat)>
    decreases ts, ts.len() - i, 1int,
{
    if i >= ts.len() {
        None
    } else {
        match ts[i as int].inner {
            TokenV::Group(token::Bracket::Curly, inside) => match types_all(inside) {
                Some(tys) => Some(
                    (
                        Spanned {
                            inner: if tys.len() == 0 {
                                TypeV::Unit
                            } else {
                                TypeV::Struct(tys)
                            },
                            span: ts[i as int].span,
                        },
                        i + 1,
                    ),
                ),
                None => None,
            },
            TokenV::Ident(n) => {
                let name = Spanned { inner: n, span: ts[i as int].span };
                let (ty, j) = match call_args(ts, i + 1) {
                    Some(args) => (TypeV::Generic(name, args), i + 2),
                    None => match angle_args(ts, i + 1) {
                        Some((args, j)) => (TypeV::NamedGeneric(name, args), j),
                        None => match square_args(ts, i + 1) {
                            Some(args) => (TypeV::NamedGeneric(name, args), i + 2),
                            None => (TypeV::Named(name), i + 1),
                        },
                    },
                };
                Some((Spanned { inner: ty, span: helpers::span_over(ts, i, j) }, j))
            },
            _ => None,
        }
    }
}

/// The types inside the parentheses at `i`.
pub open spec fn call_args(ts: Toks, i: nat) -> Option<Seq<Spanned<TypeV>>>
    decreases ts, ts.len() - i, 3int,
{
    match helpers::parens_in(ts, i) {
        Some(inside) => {
            proof {
                helpers::inside_is_smaller(ts, i);
            }
            types_all(inside)
        },
        None => None,
    }
}

/// The types between `<` and `>` at `i`, at least one, and where they end.
pub open spec fn angle_args(ts: Toks, i: nat) -> Option<(Seq<Spanned<TypeV>>, nat)>
    decreases ts, ts.len() - i, 3int,
{
    if helpers::sign_is(ts, i, Sign::Less) {
        let (args, j) = types_from(ts, i + 1);
        if args.len() > 0 && helpers::sign_is(ts, j, Sign::Greater) {
            Some((args, j + 1))
        } else {
            None
        }
    } else {
        None
    }
}

/// The types inside the square brackets at `i`, at least one.
pub open spec fn square_args(ts: Toks, i: nat) -> Option<Seq<Spanned<TypeV>>>
    decreases ts, ts.len() - i, 3int,
{
    match helpers::squares_in(ts, i) {
        Some(inside) => {
            proof {
                helpers::inside_is_smaller(ts, i);
            }
            match types_all(inside) {
                Some(args) => if args.len() > 0 {
                    Some(args)
                } else {
                    None
                },
                None => None,
            }
        },
        None => None,
    }
}

/// The type expressions from `i` on, and where they end.
pub open spec fn types_from(ts: Toks, i: nat) -> (Seq<Spanned<TypeV>>, nat)
    decreases ts, ts.len() - i, 2int,
{
    match type_at(ts, i) {
        Some((t, j)) => if i < j <= ts.len() {
            let rest = types_from(ts, j);
            (seq![t] + rest.0, rest.1)
        } else {
            (Seq::empty(), i)
        },
        None => (Seq::empty(), i),
    }
}

/// The types that the tokens consist of.
pub open spec fn types_all(ts: Toks) -> Option<Seq<Spanned<TypeV>>>
    decreases ts, ts.len() as int, 3int,
{
    let (tys, end) = types_from(ts, 0);
    if end == ts.len() {
        Some(tys)
    } else {
        None
    }
}

/// Reads a type expression.
pub fn type_expr(toks: &TokenInput, i: usize) -> (r: Option<(Spanned<Type>, usize)>)
    ensures
        match r {
            Some((t, j)) => {
                &&& type_at(token::tokens_view(toks@), i as nat) == Some((t.deep_view(), j as nat))
                &&& i < j <= toks@.len()
            },
            None => type_at(token::tokens_view(toks@), i as nat) is None,
        },
    decreases token::tokens_view(toks@), toks@.len() - i, 1int,
{
    let ghost ts = token::tokens_view(toks@);
    broadcast use ast::types_view_is_deep_view;

    if let Some(inside) = next_braces(toks, i) {
        return match only_types(inside) {
            Some(tys) => {
                let span = toks[i].span;
                let inner = if tys.len() == 0 {
                    Type::Unit
                } else {
                    Type::Struct(tys)
                };
                proof {
                    assert(ts[i as int].span == span);
                    assert(ast::type_view(inner) == (if tys@.len() == 0 {
                        TypeV::Unit
                    } else {
                        TypeV::Struct(ast::types_view(tys@))
                    }));
                }
                Some((Spanned { inner, span }, i + 1))
            },
            None => None,
        };
    }
    let name = match ident_parser(toks, i) {
        Some(n) => n,
        None => {
            return None;
        },
    };
    proof {
        assert(ts[i as int].inner is Ident);
    }
    if let Some(args) = read_call_args(toks, i + 1) {
        let ghost nv = name.deep_view();
        let ghost av = ast::types_view(args@);
        let inner = Type::Generic(name, args);
        proof {
            assert(ast::type_view(inner) == TypeV::Generic(nv, av));
        }
        return Some((Spanned { inner, span: span_from(toks, i, i + 2) }, i + 2));
    }
    if let Some((args, j)) = read_angle_args(toks, i + 1) {
        let ghost nv = name.deep_view();
        let ghost av = ast::types_view(args@);
        let inner = Type::NamedGeneric { name, args };
        proof {
            assert(ast::type_view(inner) == TypeV::NamedGeneric(nv, av));
        }
        return Some((Spanned { inner, span: span_from(toks, i, j) }, j));
    }
    if let Some(args) = read_square_args(toks, i + 1) {
        let ghost nv = name.deep_view();
        let ghost av = ast::types_view(args@);
        let inner = Type::NamedGeneric { name, args };
        proof {
            assert(ast::type_view(inner) == TypeV::NamedGeneric(nv, av));
        }
        return Some((Spanned { inner, span: span_from(toks, i, i + 2) }, i + 2));
    }
    Some((Spanned { inner: Type::Named(name), span: span_from(toks, i, i + 1) }, i + 1))
}

fn read_call_args(toks: &TokenInput, i: usize) -> (r: Option<Vec<Spanned<Type>>>)
    ensures
        match r {
            Some(args) => {
                &&& call_args(token::tokens_view(toks@), i as nat) == Some(
                    ast::types_view(args@),
                )
                &&& i < toks@.len() <= usize::MAX
            },
            None => call_args(token::tokens_view(toks@), i as nat) is None,
        },
    decreases token::tokens_view(toks@), toks@.len() - i, 3int,
{
    match next_parens(toks, i) {
        Some(inside) => only_types(inside),
        None => None,
    }
}

fn read_angle_args(toks: &TokenInput, i: usize) -> (r: Option<(Vec<Spanned<Type>>, usize)>)
    ensures
        match r {
            Some((args, j)) => {
                &&& angle_args(token::tokens_view(toks@), i as nat) == Some(
                    (ast::types_view(args@), j as nat),
                )
                &&& i < j <= toks@.len()
            },
            None => angle_args(token::tokens_view(toks@), i as nat) is None,
        },
    decreases token::tokens_view(toks@), toks@.len() - i, 3int,
{
    if !next_is(toks, i, Sign::Less) {
        return None;
    }
    let (args, j) = types(toks, i + 1);
    if args.len() > 0 && next_is(toks, j, Sign::Greater) {
        Some((args, j + 1))
    } else {
        None
    }
}

fn read_square_args(toks: &TokenInput, i: usize) -> (r: Option<Vec<Spanned<Type>>>)
    ensures
        match r {
            Some(args) => {
                &&& square_args(token::tokens_view(toks@), i as nat) == Some(
                    ast::types_view(args@),
                )
                &&& i < toks@.len() <= usize::MAX
            },
            None => square_args(token::tokens_view(toks@), i as nat) is None,
        },
    decreases token::tokens_view(toks@), toks@.len() - i, 3int,
{
    match next_squares(toks, i) {
        Some(inside) => match only_types(inside) {
            Some(args) => if args.len() > 0 {
                Some(args)
            } else {
                None
            },
            None => None,
        },
        None => None,
    }
}

/// Reads type expressions as long as there are any.
pub fn types(toks: &TokenInput, i: usize) -> (r: (Vec<Spanned<Type>>, usize))
    requires
        i <= toks@.len(),
    ensures
        types_from(token::tokens_view(toks@), i as nat) == (ast::types_view(r.0@), r.1 as nat),
        i <= r.1 <= toks@.len(),
    decreases token::tokens_view(toks@), toks@.len() - i, 2int,
{
    let ghost ts = token::tokens_view(toks@);
    let mut out: Vec<Spanned<Type>> = Vec::new();
    let mut k: usize = i;
    proof {
        let rest = types_from(ts, i as nat).0;
        assert(ast::types_view(out@) + rest =~= rest);
    }
    loop
        invariant
            i <= k <= toks@.len(),
            ts == token::tokens_view(toks@),
            types_from(ts, i as nat).0 == ast::types_view(out@) + types_from(ts, k as nat).0,
            types_from(ts, i as nat).1 == types_from(ts, k as nat).1,
        decreases toks@.len() - k,
    {
        match type_expr(toks, k) {
            Some((t, j)) => {
                let ghost before = ast::types_view(out@);
                let ghost one = t.deep_view();
                let ghost rest = types_from(ts, j as nat).0;
                out.push(t);
                proof {
                    assert(ast::types_view(out@) =~= before.push(one));
                    assert(before + (seq![one] + rest) =~= ast::types_view(out@) + rest);
                }
                k = j;
            },
            None => {
                proof {
                    assert(ast::types_view(out@) + Seq::<Spanned<TypeV>>::empty()
                        =~= ast::types_view(out@));
                }
                return (out, k);
            },
        }
    }
}

/// Reads the tokens as type expressions only.
pub fn only_types(toks: &TokenInput) -> (r: Option<Vec<Spanned<Type>>>)
    ensures
        match r {
            Some(tys) => types_all(token::tokens_view(toks@)) == Some(ast::types_view(tys@)),
            None => types_all(token::tokens_view(toks@)) is None,
        },
    decreases token::tokens_view(toks@), toks@.len() as int, 3int,
{
    let (tys, end) = types(toks, 0);
    if end == toks.len() {
        Some(tys)
    } else {
        None
    }
}

} // verus!
