//! Types as the monomorphiser sees them.

use vstd::prelude::*;

use crate::api::ast;
use crate::api::ast::{dup_ident, Ident, Type, TypeV};
use crate::name_map;
use crate::name_map::NameMap;
use crate::span;
use crate::span::{SimpleSpan, SpanWrap, Spanned};
use crate::text;
use crate::text::{cat, cat3, join_texts, same, Text};

verus! {

// ── names of instances ─────────────────────────────────────────────────────

/// The suffix that a type argument adds to the name of an instance.
pub open spec fn type_key(t: TypeV) -> Text
    decreases t,
{
    match t {
        TypeV::Named(id) => id.inner,
        TypeV::TypeVar(id) => id.inner,
        TypeV::Unit => "unit"@,
        TypeV::Unknown => "unknown"@,
        TypeV::Struct(fields) => "struct_"@ + text::join(type_keys(fields), "_"@),
        TypeV::NamedGeneric(name, args) => name.inner + "_"@ + text::join(type_keys(args), "_"@),
        TypeV::Generic(name, args) => name.inner + "_"@ + text::join(type_keys(args), "_"@),
        TypeV::Path(seg, rest, _) => seg.inner + "_"@ + type_key(*rest),
    }
}

/// The suffixes of a list of type arguments.
pub open spec fn type_keys(ts: Seq<Spanned<TypeV>>) -> Seq<Text>
    decreases ts,
{
    Seq::new(
        ts.len(),
        |i: int|
            if 0 <= i < ts.len() {
                type_key(ts[i].inner)
            } else {
                arbitrary()
            },
    )
}

/// Mangle a type into its mono-name suffix.
pub fn mangle_type(t: &Type) -> (r: String)
    ensures
        r@ == type_key(ast::type_view(*t)),
    decreases *t,
{
    match t {
        Type::Named(id) => id.inner.0.clone(),
        Type::TypeVar(id) => id.inner.0.clone(),
        Type::Unit => "unit".to_owned(),
        Type::Unknown => "unknown".to_owned(),
        Type::Struct(fields) => {
            let parts = mangle_types(fields);
            proof {
                assert(ast::type_view(*t) == TypeV::Struct(ast::types_view(fields@)));
            }
            cat("struct_", join_texts(&parts, "_").as_str())
        },
        Type::NamedGeneric { name, args } => {
            let parts = mangle_types(args);
            proof {
                assert(ast::type_view(*t) == TypeV::NamedGeneric(
                    name.deep_view(),
                    ast::types_view(args@),
                ));
            }
            cat3(name.inner.0.as_str(), "_", join_texts(&parts, "_").as_str())
        },
        Type::Generic(name, args) => {
            let parts = mangle_types(args);
            proof {
                assert(ast::type_view(*t) == TypeV::Generic(
                    name.deep_view(),
                    ast::types_view(args@),
                ));
            }
            cat3(name.inner.0.as_str(), "_", join_texts(&parts, "_").as_str())
        },
        Type::Path(seg, rest) => {
            let tail = mangle_type(&*rest.inner);
            cat3(seg.inner.0.as_str(), "_", tail.as_str())
        },
    }
}

fn mangle_types(ts: &Vec<Spanned<Type>>) -> (r: Vec<String>)
    ensures
        r.deep_view() == type_keys(ast::types_view(ts@)),
    decreases *ts,
{
    let ghost tv = ast::types_view(ts@);
    let mut out: Vec<String> = Vec::new();
    let mut i: usize = 0;
    while i < ts.len()
        invariant
            i <= ts.len(),
            tv == ast::types_view(ts@),
            out@.len() == i,
            forall|j: int| 0 <= j < i ==> (#[trigger] out@[j])@ == type_key(tv[j].inner),
        decreases ts.len() - i,
    {
        proof {
            assert(tv[i as int].inner == ast::type_view(ts@[i as int].inner));
        }
        out.push(mangle_type(&ts[i].inner));
        i = i + 1;
    }
    proof {
        assert(out.deep_view() =~= type_keys(tv));
    }
    out
}

// ── comparing types ────────────────────────────────────────────────────────

/// Whether two types are the same, wherever they are written.
pub open spec fn same_shape(a: TypeV, b: TypeV) -> bool
    decreases a, 0nat,
{
    match (a, b) {
        (TypeV::Named(x), TypeV::Named(y)) => x.inner == y.inner,
        (TypeV::TypeVar(x), TypeV::TypeVar(y)) => x.inner == y.inner,
        (TypeV::Unit, TypeV::Unit) => true,
        (TypeV::Unknown, TypeV::Unknown) => true,
        (TypeV::Struct(xs), TypeV::Struct(ys)) => xs.len() == ys.len() && same_shapes(
            xs,
            ys,
            xs.len(),
        ),
        (TypeV::NamedGeneric(m, xs), TypeV::NamedGeneric(n, ys)) => m.inner == n.inner && xs.len()
            == ys.len() && same_shapes(xs, ys, xs.len()),
        _ => false,
    }
}

/// Whether the first `n` types of two lists are the same.
pub open spec fn same_shapes(xs: Seq<Spanned<TypeV>>, ys: Seq<Spanned<TypeV>>, n: nat) -> bool
    decreases xs, n,
{
    if n == 0 || n > xs.len() {
        true
    } else {
        same_shapes(xs, ys, (n - 1) as nat) && same_shape(xs[n - 1].inner, ys[n - 1].inner)
    }
}

/// Strict structural equality of two concrete types.
pub fn types_eq(a: &Type, b: &Type) -> (r: bool)
    ensures
        r == same_shape(ast::type_view(*a), ast::type_view(*b)),
    decreases *a, 0nat,
{
    match (a, b) {
        (Type::Named(x), Type::Named(y)) => same(x.inner.0.as_str(), y.inner.0.as_str()),
        (Type::TypeVar(x), Type::TypeVar(y)) => same(x.inner.0.as_str(), y.inner.0.as_str()),
        (Type::Unit, Type::Unit) => true,
        (Type::Unknown, Type::Unknown) => true,
        (Type::Struct(xs), Type::Struct(ys)) => {
            proof {
                assert(ast::type_view(*a) == TypeV::Struct(ast::types_view(xs@)));
                assert(ast::type_view(*b) == TypeV::Struct(ast::types_view(ys@)));
            }
            xs.len() == ys.len() && all_types_eq(xs, ys)
        },
        (Type::NamedGeneric { name: m, args: xs }, Type::NamedGeneric { name: n, args: ys }) => {
            proof {
                assert(ast::type_view(*a) == TypeV::NamedGeneric(
                    m.deep_view(),
                    ast::types_view(xs@),
                ));
                assert(ast::type_view(*b) == TypeV::NamedGeneric(
                    n.deep_view(),
                    ast::types_view(ys@),
                ));
            }
            same(m.inner.0.as_str(), n.inner.0.as_str()) && xs.len() == ys.len() && all_types_eq(
                xs,
                ys,
            )
        },
        _ => false,
    }
}

fn all_types_eq(xs: &Vec<Spanned<Type>>, ys: &Vec<Spanned<Type>>) -> (r: bool)
    requires
        xs@.len() == ys@.len(),
    ensures
        r == same_shapes(ast::types_view(xs@), ast::types_view(ys@), xs@.len()),
    decreases *xs, 1nat,
{
    let ghost xv = ast::types_view(xs@);
    let ghost yv = ast::types_view(ys@);
    let mut ok = true;
    let mut i: usize = 0;
    while i < xs.len()
        invariant
            i <= xs.len(),
            xs@.len() == ys@.len(),
            xv == ast::types_view(xs@),
            yv == ast::types_view(ys@),
            ok == same_shapes(xv, yv, i as nat),
        decreases xs.len() - i,
    {
        proof {
            assert(xv[i as int].inner == ast::type_view(xs@[i as int].inner));
            assert(yv[i as int].inner == ast::type_view(ys@[i as int].inner));
        }
        let one = types_eq(&xs[i].inner, &ys[i].inner);
        ok = ok && one;
        i = i + 1;
    }
    ok
}

// ── substitutions ──────────────────────────────────────────────────────────

/// The named type `name`, from no place in the source.
pub open spec fn plain_named(name: Text) -> TypeV {
    TypeV::Named(Spanned { inner: name, span: span::zero_span() })
}

pub fn src_named(name: &str) -> (r: Type)
    ensures
        ast::type_view(r) == plain_named(name@),
{
    Type::Named(Ident::new(name).with_span(SimpleSpan { start: 0, end: 0 }))
}

/// What a type parameter stands for, or the type itself.
pub open spec fn looked_up(t: TypeV, name: Text, subst: Map<Text, TypeV>) -> TypeV {
    if subst.contains_key(name) {
        subst[name]
    } else {
        t
    }
}

pub fn look_up(t: &Type, name: &str, subst: &NameMap<Type>) -> (r: Type)
    ensures
        ast::type_view(r) == looked_up(ast::type_view(*t), name@, subst.deep_view()),
{
    match subst.get(name) {
        Some(found) => found.dup(),
        None => t.dup(),
    }
}

/// A type with its parameters replaced; heads of generics stay.
pub open spec fn replaced(t: TypeV, subst: Map<Text, TypeV>) -> TypeV
    decreases t,
{
    match t {
        TypeV::TypeVar(id) => looked_up(t, id.inner, subst),
        TypeV::Named(id) => looked_up(t, id.inner, subst),
        TypeV::NamedGeneric(name, args) => TypeV::NamedGeneric(name, replaced_all(args, subst)),
        TypeV::Struct(fields) => TypeV::Struct(replaced_all(fields, subst)),
        _ => t,
    }
}

/// A list of types with their parameters replaced.
pub open spec fn replaced_all(ts: Seq<Spanned<TypeV>>, subst: Map<Text, TypeV>) -> Seq<
    Spanned<TypeV>,
>
    decreases ts,
{
    Seq::new(
        ts.len(),
        |i: int|
            if 0 <= i < ts.len() {
                Spanned { inner: replaced(ts[i].inner, subst), span: ts[i].span }
            } else {
                arbitrary()
            },
    )
}

/// The type with its parameters replaced, where only its shape is of
/// interest.
pub fn substitute_type_pure(t: &Type, subst: &NameMap<Type>) -> (r: Type)
    ensures
        ast::type_view(r) == replaced(ast::type_view(*t), subst.deep_view()),
    decreases *t,
{
    match t {
        Type::TypeVar(id) => look_up(t, id.inner.0.as_str(), subst),
        Type::Named(id) => look_up(t, id.inner.0.as_str(), subst),
        Type::NamedGeneric { name, args } => {
            proof {
                assert(ast::type_view(*t) == TypeV::NamedGeneric(
                    name.deep_view(),
                    ast::types_view(args@),
                ));
            }
            Type::NamedGeneric { name: dup_ident(name), args: substitute_types_pure(args, subst) }
        },
        Type::Struct(fields) => {
            proof {
                assert(ast::type_view(*t) == TypeV::Struct(ast::types_view(fields@)));
            }
            Type::Struct(substitute_types_pure(fields, subst))
        },
        _ => t.dup(),
    }
}

fn substitute_types_pure(ts: &Vec<Spanned<Type>>, subst: &NameMap<Type>) -> (r: Vec<Spanned<Type>>)
    ensures
        ast::types_view(r@) == replaced_all(ast::types_view(ts@), subst.deep_view()),
    decreases *ts,
{
    let ghost tv = ast::types_view(ts@);
    let mut out: Vec<Spanned<Type>> = Vec::new();
    let mut i: usize = 0;
    while i < ts.len()
        invariant
            i <= ts.len(),
            tv == ast::types_view(ts@),
            out@.len() == i,
            forall|j: int|
                0 <= j < i ==> ast::type_view((#[trigger] out@[j]).inner) == replaced(
                    tv[j].inner,
                    subst.deep_view(),
                ) && out@[j].span == tv[j].span,
        decreases ts.len() - i,
    {
        proof {
            assert(tv[i as int].inner == ast::type_view(ts@[i as int].inner));
        }
        out.push(substitute_type_pure(&ts[i].inner, subst).with_span(ts[i].span));
        i = i + 1;
    }
    proof {
        assert(ast::types_view(out@) =~= replaced_all(tv, subst.deep_view()));
    }
    out
}

/// A substitution that binds nothing changes nothing.
pub proof fn empty_substitution_changes_nothing(t: TypeV)
    ensures
        replaced(t, Map::empty()) == t,
    decreases t,
{
    match t {
        TypeV::NamedGeneric(name, args) => {
            assert forall|i: int| 0 <= i < args.len() implies #[trigger] replaced_all(
                args,
                Map::empty(),
            )[i] == args[i] by {
                empty_substitution_changes_nothing(args[i].inner);
            }
            assert(replaced_all(args, Map::empty()) =~= args);
        },
        TypeV::Struct(fields) => {
            assert forall|i: int| 0 <= i < fields.len() implies #[trigger] replaced_all(
                fields,
                Map::empty(),
            )[i] == fields[i] by {
                empty_substitution_changes_nothing(fields[i].inner);
            }
            assert(replaced_all(fields, Map::empty()) =~= fields);
        },
        _ => {},
    }
}

/// Records that `name` stands for `ty`, and tells whether nothing else was
/// recorded before; an unknown type says nothing.
pub open spec fn bind(name: Text, ty: TypeV, subst: Map<Text, TypeV>) -> (bool, Map<Text, TypeV>) {
    if ty is Unknown {
        (true, subst)
    } else if subst.contains_key(name) {
        (same_shape(subst[name], ty), subst)
    } else {
        (true, subst.insert(name, ty))
    }
}

/// Bind `name` to `ty`, or return false if it conflicts with an earlier
/// binding.
pub fn bind_or_check(name: &str, ty: &Type, subst: &mut NameMap<Type>) -> (r: bool)
    ensures
        (r, final(subst).deep_view()) == bind(
            name@,
            ast::type_view(*ty),
            old(subst).deep_view(),
        ),
{
    if matches!(ty, Type::Unknown) {
        return true;
    }
    if let Some(bound) = subst.get(name) {
        return types_eq(bound, ty);
    }
    let ghost before = *subst;
    let copy = ty.dup();
    subst.insert(name.to_owned(), copy);
    proof {
        name_map::insert_deep(before, *subst, name@, copy);
    }
    true
}

} // verus!
