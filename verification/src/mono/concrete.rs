//! Types without generics, and where monomorphisation leaves no others.

use vstd::prelude::*;

use crate::api::ast::{PatternV, RecordDeclV, RecordFieldV, TypeV};
use crate::api::expr::HandlerV;
use crate::mono::program;
use crate::mono::protos;
use crate::mono::state::{EnvV, MonoV};
use crate::mono::substitute;
use crate::mono::walk;
use crate::span::Spanned;
use crate::text::Text;

verus! {

/// Whether a type holds neither a type parameter nor a generic record or
/// enum with its arguments.
pub open spec fn concrete(t: TypeV) -> bool
    decreases t,
{
    match t {
        TypeV::TypeVar(_) | TypeV::NamedGeneric(_, _) => false,
        TypeV::Struct(ts) => all_concrete(ts),
        TypeV::Generic(_, ts) => all_concrete(ts),
        TypeV::Path(_, rest, _) => concrete(*rest),
        _ => true,
    }
}

/// [`concrete`] of all types of a list.
pub open spec fn all_concrete(ts: Seq<Spanned<TypeV>>) -> bool
    decreases ts,
{
    forall|i: int| 0 <= i < ts.len() ==> concrete((#[trigger] ts[i]).inner)
}

/// Whether every generic in a type is one of the templates, and every type
/// parameter is bound.
pub open spec fn known(env: EnvV, t: TypeV, subst: Map<Text, TypeV>) -> bool
    decreases t,
{
    match t {
        TypeV::TypeVar(id) => subst.contains_key(id.inner),
        TypeV::NamedGeneric(name, ts) => {
            &&& env.templates.records.contains_key(name.inner)
                || env.templates.enums.contains_key(name.inner)
            &&& all_known(env, ts, subst)
        },
        TypeV::Struct(ts) => all_known(env, ts, subst),
        TypeV::Generic(_, ts) => all_known(env, ts, subst),
        TypeV::Path(_, rest, _) => known(env, *rest, subst),
        _ => true,
    }
}

/// [`known`] of all types of a list.
pub open spec fn all_known(env: EnvV, ts: Seq<Spanned<TypeV>>, subst: Map<Text, TypeV>) -> bool
    decreases ts,
{
    forall|i: int| 0 <= i < ts.len() ==> known(env, (#[trigger] ts[i]).inner, subst)
}

/// Whether all types that a substitution puts in are concrete.
pub open spec fn puts_in_concrete(subst: Map<Text, TypeV>) -> bool {
    forall|k: Text| subst.contains_key(k) ==> concrete(#[trigger] subst[k])
}

/// Substituting concrete types for parameters in a type of known generics
/// leaves no parameter and no generic.
pub proof fn substituting_makes_concrete(
    env: EnvV,
    m: MonoV,
    t: TypeV,
    subst: Map<Text, TypeV>,
)
    requires
        known(env, t, subst),
        puts_in_concrete(subst),
    ensures
        concrete(substitute::substituted(env, m, t, subst).0),
    decreases t, 0nat,
{
    match t {
        TypeV::NamedGeneric(_, ts) => {
            substituting_all_makes_concrete(env, m, ts, ts.len(), subst);
        },
        TypeV::Struct(ts) => {
            substituting_all_makes_concrete(env, m, ts, ts.len(), subst);
        },
        TypeV::Generic(_, ts) => {
            substituting_all_makes_concrete(env, m, ts, ts.len(), subst);
        },
        TypeV::Path(_, rest, _) => {
            substituting_makes_concrete(env, m, *rest, subst);
        },
        _ => {},
    }
}

proof fn substituting_all_makes_concrete(
    env: EnvV,
    m: MonoV,
    ts: Seq<Spanned<TypeV>>,
    n: nat,
    subst: Map<Text, TypeV>,
)
    requires
        n <= ts.len(),
        all_known(env, ts, subst),
        puts_in_concrete(subst),
    ensures
        all_concrete(substitute::substituted_all(env, m, ts, n, subst).0),
        substitute::substituted_all(env, m, ts, n, subst).0.len() == n,
    decreases ts, n,
{
    if n > 0 {
        substituting_all_makes_concrete(env, m, ts, (n - 1) as nat, subst);
        let (before, m1) = substitute::substituted_all(env, m, ts, (n - 1) as nat, subst);
        let after = substitute::substituted_all(env, m, ts, n, subst).0;
        assert(known(env, ts[n - 1].inner, subst));
        substituting_makes_concrete(env, m1, ts[n - 1].inner, subst);
        assert forall|i: int| 0 <= i < after.len() implies concrete((#[trigger] after[i]).inner) by {
            if i < before.len() {
                assert(after[i] == before[i]);
            }
        }
    }
}

/// Whether the parameter types and the return type of a branch are concrete.
pub open spec fn concrete_head(h: HandlerV) -> bool {
    &&& forall|i: int|
        0 <= i < h.patterns.len() ==> concrete((#[trigger] h.patterns[i]).inner.ty.inner)
    &&& h.ret_ty is Some ==> concrete(h.ret_ty->0.inner)
}

/// Whether the generics in the parameter types and the return type of a
/// branch are templates, and none of these types is a parameter.
pub open spec fn known_head(env: EnvV, h: HandlerV) -> bool {
    &&& forall|i: int|
        0 <= i < h.patterns.len() ==> known(
            env,
            (#[trigger] h.patterns[i]).inner.ty.inner,
            Map::empty(),
        )
    &&& h.ret_ty is Some ==> known(env, h.ret_ty->0.inner, Map::empty())
}

/// The parameters and the result of a branch of known generics are concrete
/// once the branch is walked.
pub proof fn walked_heads_are_concrete(env: EnvV, m: MonoV, h: HandlerV)
    requires
        known_head(env, h),
    ensures
        concrete_head(walk::walked_handler(env, m, h).0),
{
    patterns_become_concrete(env, m, h.patterns, h.patterns.len());
    let (ps, m1) = substitute::sub_patterns(env, m, h.patterns, h.patterns.len(), Map::empty());
    if h.ret_ty is Some {
        substituting_makes_concrete(env, m1, h.ret_ty->0.inner, Map::empty());
    }
}

proof fn patterns_become_concrete(env: EnvV, m: MonoV, ps: Seq<Spanned<PatternV>>, n: nat)
    requires
        n <= ps.len(),
        forall|i: int|
            0 <= i < ps.len() ==> known(env, (#[trigger] ps[i]).inner.ty.inner, Map::empty()),
    ensures
        forall|i: int|
            0 <= i < n ==> concrete(
                (#[trigger] substitute::sub_patterns(env, m, ps, n, Map::empty()).0[i]).inner.ty.inner,
            ),
        substitute::sub_patterns(env, m, ps, n, Map::empty()).0.len() == n,
    decreases n,
{
    if n > 0 {
        patterns_become_concrete(env, m, ps, (n - 1) as nat);
        let (before, m1) = substitute::sub_patterns(env, m, ps, (n - 1) as nat, Map::empty());
        let after = substitute::sub_patterns(env, m, ps, n, Map::empty()).0;
        substituting_makes_concrete(env, m1, ps[n - 1].inner.ty.inner, Map::empty());
        assert forall|i: int| 0 <= i < n implies concrete(
            (#[trigger] after[i]).inner.ty.inner,
        ) by {
            if i < n - 1 {
                assert(after[i] == before[i]);
            }
        }
    }
}

/// The fields of a concrete copy of a record are concrete: one is made for
/// each set of concrete arguments, and nothing in it is left to fill in.
pub proof fn copied_records_are_concrete(
    env: EnvV,
    m: MonoV,
    decl: RecordDeclV,
    args: Seq<TypeV>,
    name: Text,
)
    requires
        forall|i: int| 0 <= i < args.len() ==> concrete(#[trigger] args[i]),
        forall|i: int|
            0 <= i < decl.fields.len() ==> known(
                env,
                (#[trigger] decl.fields[i]).inner.ty.inner,
                program::copy_subst(decl.type_params, args),
            ),
    ensures
        forall|i: int|
            0 <= i < program::copied_record(env, m, decl, args, name).0.fields.len() ==> concrete(
                (#[trigger] program::copied_record(
                    env,
                    m,
                    decl,
                    args,
                    name,
                ).0.fields[i]).inner.ty.inner,
            ),
{
    let n = protos::shorter(decl.type_params.len(), args.len());
    zipped_is_concrete(decl.type_params, args, n);
    fields_become_concrete(
        env,
        m,
        decl.fields,
        decl.fields.len(),
        program::copy_subst(decl.type_params, args),
    );
}

proof fn zipped_is_concrete(params: Seq<Spanned<Text>>, args: Seq<TypeV>, n: nat)
    requires
        n <= args.len(),
        n <= params.len(),
        forall|i: int| 0 <= i < args.len() ==> concrete(#[trigger] args[i]),
    ensures
        puts_in_concrete(program::zipped(params, args, n)),
    decreases n,
{
    if n > 0 {
        zipped_is_concrete(params, args, (n - 1) as nat);
        let before = program::zipped(params, args, (n - 1) as nat);
        let after = program::zipped(params, args, n);
        assert(concrete(args[n - 1]));
        assert forall|k: Text| after.contains_key(k) implies concrete(#[trigger] after[k]) by {
            if k != params[n - 1].inner {
                assert(concrete(before[k]));
            }
        }
    }
}

proof fn fields_become_concrete(
    env: EnvV,
    m: MonoV,
    fields: Seq<Spanned<RecordFieldV>>,
    n: nat,
    subst: Map<Text, TypeV>,
)
    requires
        n <= fields.len(),
        puts_in_concrete(subst),
        forall|i: int|
            0 <= i < fields.len() ==> known(env, (#[trigger] fields[i]).inner.ty.inner, subst),
    ensures
        forall|i: int|
            0 <= i < n ==> concrete(
                (#[trigger] program::copied_fields(env, m, fields, n, subst).0[i]).inner.ty.inner,
            ),
        program::copied_fields(env, m, fields, n, subst).0.len() == n,
    decreases n,
{
    if n > 0 {
        fields_become_concrete(env, m, fields, (n - 1) as nat, subst);
        let (before, m1) = program::copied_fields(env, m, fields, (n - 1) as nat, subst);
        let after = program::copied_fields(env, m, fields, n, subst).0;
        substituting_makes_concrete(env, m1, fields[n - 1].inner.ty.inner, subst);
        assert forall|i: int| 0 <= i < n implies concrete(
            (#[trigger] after[i]).inner.ty.inner,
        ) by {
            if i < n - 1 {
                assert(after[i] == before[i]);
            }
        }
    }
}

} // verus!
