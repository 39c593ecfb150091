//! What a concrete copy looks like beside its template.

use vstd::prelude::*;

use crate::api::ast::{
    BranchV, EnumDeclV, PatternV, RecordDeclV, RecordFieldV, TypeV,
    VariantPayloadV, VariantV,
};
use crate::mono::concrete;
use crate::mono::program;
use crate::mono::state;
use crate::mono::state::{EnvV, MonoV};
use crate::mono::substitute;
use crate::span::Spanned;
use crate::text::Text;

verus! {

// ── what parameters stand for ──────────────────────────────────────────────

/// Whether the type parameters of a template are different names.
pub open spec fn are_distinct(params: Seq<Spanned<Text>>) -> bool {
    forall|i: int, j: int|
        0 <= i < j < params.len() ==> (#[trigger] params[i]).inner != (#[trigger] params[j]).inner
}

/// Whether `name` is the `i`-th of the parameters that have an argument.
pub open spec fn is_param(params: Seq<Spanned<Text>>, args: Seq<TypeV>, name: Text, i: int) -> bool {
    0 <= i < params.len() && i < args.len() && params[i].inner == name
}

proof fn first_zipped(params: Seq<Spanned<Text>>, args: Seq<TypeV>, n: nat)
    requires
        n <= params.len(),
        n <= args.len(),
        are_distinct(params),
    ensures
        forall|i: int|
            0 <= i < n ==> program::zipped(params, args, n).contains_key(
                (#[trigger] params[i]).inner,
            ) && program::zipped(params, args, n)[params[i].inner] == args[i],
        forall|x: Text| #[trigger]
            program::zipped(params, args, n).contains_key(x) ==> exists|i: int|
                0 <= i < n && (#[trigger] params[i]).inner == x,
    decreases n,
{
    if n > 0 {
        first_zipped(params, args, (n - 1) as nat);
        let before = program::zipped(params, args, (n - 1) as nat);
        let after = program::zipped(params, args, n);
        assert forall|i: int| 0 <= i < n implies after.contains_key((#[trigger] params[i]).inner)
            && after[params[i].inner] == args[i] by {
            if i < n - 1 {
                assert(params[i].inner != params[n - 1].inner);
            }
        }
        assert forall|x: Text| #[trigger] after.contains_key(x) implies exists|i: int|
            0 <= i < n && (#[trigger] params[i]).inner == x by {
            if x == params[n - 1].inner {
            } else {
                assert(before.contains_key(x));
            }
        }
    }
}

/// In a copy each type parameter stands for the argument at its place, and
/// nothing else stands for anything.
pub proof fn parameters_stand_for_their_arguments(params: Seq<Spanned<Text>>, args: Seq<TypeV>)
    requires
        are_distinct(params),
    ensures
        forall|i: int, x: Text| #[trigger]
            is_param(params, args, x, i) ==> program::copy_subst(params, args).contains_key(x)
                && program::copy_subst(params, args)[x] == args[i],
        forall|x: Text| #[trigger]
            program::copy_subst(params, args).contains_key(x) ==> exists|i: int|
                is_param(params, args, x, i),
{
    let n = if params.len() < args.len() {
        params.len()
    } else {
        args.len()
    };
    first_zipped(params, args, n);
    let s = program::copy_subst(params, args);
    assert(s == program::zipped(params, args, n));
    assert forall|i: int, x: Text| #[trigger] is_param(params, args, x, i) implies s.contains_key(x)
        && s[x] == args[i] by {
        assert(params[i].inner == x);
    }
    assert forall|x: Text| #[trigger] s.contains_key(x) implies exists|i: int|
        is_param(params, args, x, i) by {
        let i = choose|i: int| 0 <= i < n && (#[trigger] params[i]).inner == x;
        assert(is_param(params, args, x, i));
    }
}

// ── types ──────────────────────────────────────────────────────────────────

/// The name of the copy of `base` for the given arguments.
pub open spec fn copy_name(base: Text, us: Seq<Spanned<TypeV>>) -> Text {
    state::inst_name(base, state::keys_of(substitute::inners(us)))
}

/// Whether `u` is `t` with each parameter replaced by the argument at its
/// place, and each generic record or enum by the name of its copy.
pub open spec fn is_instance(
    env: EnvV,
    params: Seq<Spanned<Text>>,
    args: Seq<TypeV>,
    t: TypeV,
    u: TypeV,
) -> bool
    decreases t,
{
    match t {
        TypeV::Named(id) => name_instance(params, args, t, id.inner, u),
        TypeV::TypeVar(id) => name_instance(params, args, t, id.inner, u),
        TypeV::NamedGeneric(name, ts) => if env.templates.records.contains_key(name.inner)
            || env.templates.enums.contains_key(name.inner) {
            exists|us: Seq<Spanned<TypeV>>|
                {
                    &&& #[trigger] u_is_copy(u, name, us)
                    &&& us.len() == ts.len()
                    &&& forall|k: int|
                        0 <= k < ts.len() ==> is_instance(
                            env,
                            params,
                            args,
                            (#[trigger] ts[k]).inner,
                            us[k].inner,
                        )
                }
        } else {
            u matches TypeV::NamedGeneric(n2, us) && n2 == name && us.len() == ts.len() && (forall|
                k: int,
            |
                0 <= k < ts.len() ==> is_instance(
                    env,
                    params,
                    args,
                    (#[trigger] ts[k]).inner,
                    us[k].inner,
                ))
        },
        TypeV::Struct(ts) => u matches TypeV::Struct(us) && us.len() == ts.len() && (forall|k: int|
            0 <= k < ts.len() ==> is_instance(
                env,
                params,
                args,
                (#[trigger] ts[k]).inner,
                us[k].inner,
            )),
        TypeV::Generic(name, ts) => u matches TypeV::Generic(n2, us) && n2 == name && us.len()
            == ts.len() && (forall|k: int|
            0 <= k < ts.len() ==> is_instance(
                env,
                params,
                args,
                (#[trigger] ts[k]).inner,
                us[k].inner,
            )),
        TypeV::Path(seg, rest, span) => u matches TypeV::Path(s2, r2, p2) && s2 == seg && p2 == span
            && is_instance(env, params, args, *rest, *r2),
        _ => u == t,
    }
}

/// Whether a type is the copy of `name` for the given arguments.
pub open spec fn u_is_copy(u: TypeV, name: Spanned<Text>, us: Seq<Spanned<TypeV>>) -> bool {
    u == TypeV::Named(Spanned { inner: copy_name(name.inner, us), span: name.span })
}

/// Whether `u` is what the name `x` stands for: the argument of the parameter
/// of that name, or the type itself where there is none.
pub open spec fn name_instance(
    params: Seq<Spanned<Text>>,
    args: Seq<TypeV>,
    t: TypeV,
    x: Text,
    u: TypeV,
) -> bool {
    &&& forall|i: int| #[trigger] is_param(params, args, x, i) ==> u == args[i]
    &&& (forall|i: int| !(#[trigger] is_param(params, args, x, i))) ==> u == t
}

/// Whether the tables of copies are in order.
pub open spec fn tables_ok(m: MonoV) -> bool {
    state::table_ok(m.records) && state::table_ok(m.enums)
}

proof fn substituted_is_an_instance(
    env: EnvV,
    m: MonoV,
    t: TypeV,
    params: Seq<Spanned<Text>>,
    args: Seq<TypeV>,
)
    requires
        are_distinct(params),
        tables_ok(m),
    ensures
        ({
            let (u, m2) = substitute::substituted(env, m, t, program::copy_subst(params, args));
            is_instance(env, params, args, t, u) && tables_ok(m2)
        }),
    decreases t, 0nat,
{
    let subst = program::copy_subst(params, args);
    parameters_stand_for_their_arguments(params, args);
    match t {
        TypeV::NamedGeneric(name, ts) => {
            all_are_instances(env, m, ts, ts.len(), params, args);
            let (us, m2) = substitute::substituted_all(env, m, ts, ts.len(), subst);
            let u = substitute::substituted(env, m, t, subst).0;
            if env.templates.records.contains_key(name.inner) {
                state::asking_for_a_record(m2, name.inner, substitute::inners(us));
                assert(u_is_copy(u, name, us));
            } else if env.templates.enums.contains_key(name.inner) {
                state::asking_for_an_enum(m2, name.inner, substitute::inners(us));
                assert(u_is_copy(u, name, us));
            }
        },
        TypeV::Struct(ts) => {
            all_are_instances(env, m, ts, ts.len(), params, args);
        },
        TypeV::Generic(_, ts) => {
            all_are_instances(env, m, ts, ts.len(), params, args);
        },
        TypeV::Path(_, rest, _) => {
            substituted_is_an_instance(env, m, *rest, params, args);
        },
        _ => {},
    }
}

proof fn all_are_instances(
    env: EnvV,
    m: MonoV,
    ts: Seq<Spanned<TypeV>>,
    n: nat,
    params: Seq<Spanned<Text>>,
    args: Seq<TypeV>,
)
    requires
        n <= ts.len(),
        are_distinct(params),
        tables_ok(m),
    ensures
        ({
            let (us, m2) = substitute::substituted_all(
                env,
                m,
                ts,
                n,
                program::copy_subst(params, args),
            );
            &&& us.len() == n
            &&& tables_ok(m2)
            &&& forall|k: int|
                0 <= k < n ==> is_instance(
                    env,
                    params,
                    args,
                    (#[trigger] ts[k]).inner,
                    us[k].inner,
                ) && us[k].span == ts[k].span
        }),
    decreases ts, n,
{
    if n > 0 {
        let subst = program::copy_subst(params, args);
        all_are_instances(env, m, ts, (n - 1) as nat, params, args);
        let (before, m1) = substitute::substituted_all(env, m, ts, (n - 1) as nat, subst);
        let us = substitute::substituted_all(env, m, ts, n, subst).0;
        substituted_is_an_instance(env, m1, ts[n - 1].inner, params, args);
        assert forall|k: int| 0 <= k < n implies is_instance(
            env,
            params,
            args,
            (#[trigger] ts[k]).inner,
            us[k].inner,
        ) && us[k].span == ts[k].span by {
            if k < n - 1 {
                assert(us[k] == before[k]);
            }
        }
    }
}

/// A type that is exactly a type parameter becomes the argument at the place
/// of that parameter.
pub proof fn a_parameter_becomes_its_argument(
    env: EnvV,
    m: MonoV,
    params: Seq<Spanned<Text>>,
    args: Seq<TypeV>,
    i: int,
    t: TypeV,
)
    requires
        are_distinct(params),
        0 <= i < params.len(),
        i < args.len(),
        match t {
            TypeV::Named(id) => id.inner == params[i].inner,
            TypeV::TypeVar(id) => id.inner == params[i].inner,
            _ => false,
        },
    ensures
        substitute::substituted(env, m, t, program::copy_subst(params, args)).0 == args[i],
{
    parameters_stand_for_their_arguments(params, args);
    assert(is_param(params, args, params[i].inner, i));
}

// ── records and enums ──────────────────────────────────────────────────────

/// Whether a field is that of the template with an instance of its type.
pub open spec fn field_instance(
    env: EnvV,
    params: Seq<Spanned<Text>>,
    args: Seq<TypeV>,
    f: Spanned<RecordFieldV>,
    g: Spanned<RecordFieldV>,
) -> bool {
    &&& g.span == f.span
    &&& g.inner.name == f.inner.name
    &&& g.inner.ty.span == f.inner.ty.span
    &&& is_instance(env, params, args, f.inner.ty.inner, g.inner.ty.inner)
}

proof fn fields_are_instances(
    env: EnvV,
    m: MonoV,
    fs: Seq<Spanned<RecordFieldV>>,
    n: nat,
    params: Seq<Spanned<Text>>,
    args: Seq<TypeV>,
)
    requires
        n <= fs.len(),
        are_distinct(params),
        tables_ok(m),
    ensures
        ({
            let (gs, m2) = program::copied_fields(
                env,
                m,
                fs,
                n,
                program::copy_subst(params, args),
            );
            &&& gs.len() == n
            &&& tables_ok(m2)
            &&& forall|k: int|
                0 <= k < n ==> field_instance(env, params, args, #[trigger] fs[k], gs[k])
        }),
    decreases n,
{
    if n > 0 {
        let subst = program::copy_subst(params, args);
        fields_are_instances(env, m, fs, (n - 1) as nat, params, args);
        let (before, m1) = program::copied_fields(env, m, fs, (n - 1) as nat, subst);
        let gs = program::copied_fields(env, m, fs, n, subst).0;
        substituted_is_an_instance(env, m1, fs[n - 1].inner.ty.inner, params, args);
        assert forall|k: int| 0 <= k < n implies field_instance(
            env,
            params,
            args,
            #[trigger] fs[k],
            gs[k],
        ) by {
            if k < n - 1 {
                assert(gs[k] == before[k]);
            }
        }
    }
}

/// A copy of a record has the fields of the template, in order and under
/// their names, each with its type in which every parameter is replaced by
/// the argument at its place.
pub proof fn record_copies_are_instances(
    env: EnvV,
    m: MonoV,
    decl: RecordDeclV,
    args: Seq<TypeV>,
    name: Text,
)
    requires
        are_distinct(decl.type_params),
        tables_ok(m),
    ensures
        ({
            let d = program::copied_record(env, m, decl, args, name).0;
            &&& d.ident.inner == name
            &&& d.vis == decl.vis
            &&& d.type_params.len() == 0
            &&& d.fields.len() == decl.fields.len()
            &&& forall|k: int|
                0 <= k < decl.fields.len() ==> field_instance(
                    env,
                    decl.type_params,
                    args,
                    #[trigger] decl.fields[k],
                    d.fields[k],
                )
        }),
{
    fields_are_instances(env, m, decl.fields, decl.fields.len(), decl.type_params, args);
}

/// Whether a payload is that of the template with instances of its types.
pub open spec fn payload_instance(
    env: EnvV,
    params: Seq<Spanned<Text>>,
    args: Seq<TypeV>,
    p: VariantPayloadV,
    q: VariantPayloadV,
) -> bool {
    match p {
        VariantPayloadV::NoPayload => q is NoPayload,
        VariantPayloadV::Tuple(ts) => q matches VariantPayloadV::Tuple(us) && us.len() == ts.len()
            && (forall|k: int|
            0 <= k < ts.len() ==> is_instance(
                env,
                params,
                args,
                (#[trigger] ts[k]).inner,
                us[k].inner,
            )),
        VariantPayloadV::Record(fs) => q matches VariantPayloadV::Record(gs) && gs.len() == fs.len()
            && (forall|k: int|
            0 <= k < fs.len() ==> (#[trigger] fs[k]).0 == gs[k].0 && is_instance(
                env,
                params,
                args,
                fs[k].1.inner,
                gs[k].1.inner,
            )),
    }
}

proof fn payload_fields_are_instances(
    env: EnvV,
    m: MonoV,
    fs: Seq<(Spanned<Text>, Spanned<TypeV>)>,
    n: nat,
    params: Seq<Spanned<Text>>,
    args: Seq<TypeV>,
)
    requires
        n <= fs.len(),
        are_distinct(params),
        tables_ok(m),
    ensures
        ({
            let (gs, m2) = program::copied_payload_fields(
                env,
                m,
                fs,
                n,
                program::copy_subst(params, args),
            );
            &&& gs.len() == n
            &&& tables_ok(m2)
            &&& forall|k: int|
                0 <= k < n ==> (#[trigger] fs[k]).0 == gs[k].0 && is_instance(
                    env,
                    params,
                    args,
                    fs[k].1.inner,
                    gs[k].1.inner,
                )
        }),
    decreases n,
{
    if n > 0 {
        let subst = program::copy_subst(params, args);
        payload_fields_are_instances(env, m, fs, (n - 1) as nat, params, args);
        let (before, m1) = program::copied_payload_fields(env, m, fs, (n - 1) as nat, subst);
        let gs = program::copied_payload_fields(env, m, fs, n, subst).0;
        substituted_is_an_instance(env, m1, fs[n - 1].1.inner, params, args);
        assert forall|k: int| 0 <= k < n implies (#[trigger] fs[k]).0 == gs[k].0 && is_instance(
            env,
            params,
            args,
            fs[k].1.inner,
            gs[k].1.inner,
        ) by {
            if k < n - 1 {
                assert(gs[k] == before[k]);
            }
        }
    }
}

proof fn variants_are_instances(
    env: EnvV,
    m: MonoV,
    vs: Seq<Spanned<VariantV>>,
    n: nat,
    params: Seq<Spanned<Text>>,
    args: Seq<TypeV>,
)
    requires
        n <= vs.len(),
        are_distinct(params),
        tables_ok(m),
    ensures
        ({
            let (ws, m2) = program::copied_variants(
                env,
                m,
                vs,
                n,
                program::copy_subst(params, args),
            );
            &&& ws.len() == n
            &&& tables_ok(m2)
            &&& forall|k: int|
                0 <= k < n ==> (#[trigger] vs[k]).inner.name == ws[k].inner.name
                    && payload_instance(
                    env,
                    params,
                    args,
                    vs[k].inner.payload,
                    ws[k].inner.payload,
                )
        }),
    decreases n,
{
    if n > 0 {
        let subst = program::copy_subst(params, args);
        variants_are_instances(env, m, vs, (n - 1) as nat, params, args);
        let (before, m1) = program::copied_variants(env, m, vs, (n - 1) as nat, subst);
        let ws = program::copied_variants(env, m, vs, n, subst).0;
        match vs[n - 1].inner.payload {
            VariantPayloadV::Tuple(ts) => {
                all_are_instances(env, m1, ts, ts.len(), params, args);
            },
            VariantPayloadV::Record(fs) => {
                payload_fields_are_instances(env, m1, fs, fs.len(), params, args);
            },
            _ => {},
        }
        assert forall|k: int| 0 <= k < n implies (#[trigger] vs[k]).inner.name == ws[k].inner.name
            && payload_instance(
            env,
            params,
            args,
            vs[k].inner.payload,
            ws[k].inner.payload,
        ) by {
            if k < n - 1 {
                assert(ws[k] == before[k]);
            }
        }
    }
}

/// A copy of an enum has the variants of the template, in order and under
/// their names, each with its payload in which every parameter is replaced by
/// the argument at its place.
pub proof fn enum_copies_are_instances(
    env: EnvV,
    m: MonoV,
    decl: EnumDeclV,
    args: Seq<TypeV>,
    name: Text,
)
    requires
        are_distinct(decl.type_params),
        tables_ok(m),
    ensures
        ({
            let d = program::copied_enum(env, m, decl, args, name).0;
            &&& d.name.inner == name
            &&& d.type_params.len() == 0
            &&& d.variants.len() == decl.variants.len()
            &&& forall|k: int|
                0 <= k < decl.variants.len() ==> (#[trigger] decl.variants[k]).inner.name
                    == d.variants[k].inner.name && payload_instance(
                    env,
                    decl.type_params,
                    args,
                    decl.variants[k].inner.payload,
                    d.variants[k].inner.payload,
                )
        }),
{
    variants_are_instances(env, m, decl.variants, decl.variants.len(), decl.type_params, args);
}

// ── machines ───────────────────────────────────────────────────────────────

/// Whether a type is the `i`-th parameter.
pub open spec fn is_type_param(params: Seq<Spanned<Text>>, i: int, t: TypeV) -> bool {
    match t {
        TypeV::Named(id) => id.inner == params[i].inner,
        TypeV::TypeVar(id) => id.inner == params[i].inner,
        _ => false,
    }
}

/// Substituting nothing leaves a concrete type as it is.
proof fn concrete_stays(env: EnvV, m: MonoV, t: TypeV)
    requires
        concrete::concrete(t),
    ensures
        substitute::substituted(env, m, t, Map::empty()).0 == t,
    decreases t, 0nat,
{
    match t {
        TypeV::Struct(ts) => {
            all_concrete_stay(env, m, ts, ts.len());
            assert(ts.take(ts.len() as int) =~= ts);
        },
        TypeV::Generic(_, ts) => {
            all_concrete_stay(env, m, ts, ts.len());
            assert(ts.take(ts.len() as int) =~= ts);
        },
        TypeV::Path(_, rest, _) => {
            concrete_stays(env, m, *rest);
        },
        _ => {},
    }
}

proof fn all_concrete_stay(env: EnvV, m: MonoV, ts: Seq<Spanned<TypeV>>, n: nat)
    requires
        n <= ts.len(),
        concrete::all_concrete(ts),
    ensures
        substitute::substituted_all(env, m, ts, n, Map::empty()).0 == ts.take(n as int),
    decreases ts, n,
{
    if n > 0 {
        all_concrete_stay(env, m, ts, (n - 1) as nat);
        let m1 = substitute::substituted_all(env, m, ts, (n - 1) as nat, Map::empty()).1;
        assert(concrete::concrete(ts[n - 1].inner));
        concrete_stays(env, m1, ts[n - 1].inner);
        assert(ts.take(n as int) =~= ts.take(n - 1).push(ts[n - 1]));
    } else {
        assert(ts.take(0) =~= Seq::<Spanned<TypeV>>::empty());
    }
}

/// Whether `u` is what substituting makes of `t`, after whatever was asked
/// for before.
spec fn comes_from(env: EnvV, t: TypeV, u: TypeV, subst: Map<Text, TypeV>) -> bool {
    exists|m: MonoV| u == (#[trigger] substitute::substituted(env, m, t, subst)).0
}

proof fn patterns_keep_places(
    env: EnvV,
    m: MonoV,
    ps: Seq<Spanned<PatternV>>,
    n: nat,
    subst: Map<Text, TypeV>,
)
    requires
        n <= ps.len(),
    ensures
        substitute::sub_patterns(env, m, ps, n, subst).0.len() == n,
        forall|k: int|
            0 <= k < n ==> comes_from(
                env,
                ps[k].inner.ty.inner,
                (#[trigger] substitute::sub_patterns(env, m, ps, n, subst).0[k]).inner.ty.inner,
                subst,
            ),
        forall|k: int|
            0 <= k < n ==> (#[trigger] substitute::sub_patterns(
                env,
                m,
                ps,
                n,
                subst,
            ).0[k]).inner.ident == ps[k].inner.ident,
    decreases n,
{
    if n > 0 {
        patterns_keep_places(env, m, ps, (n - 1) as nat, subst);
        let (before, m1) = substitute::sub_patterns(env, m, ps, (n - 1) as nat, subst);
        let all = substitute::sub_patterns(env, m, ps, n, subst).0;
        assert forall|k: int| 0 <= k < n implies comes_from(
            env,
            ps[k].inner.ty.inner,
            (#[trigger] all[k]).inner.ty.inner,
            subst,
        ) by {
            if k < n - 1 {
                assert(all[k] == before[k]);
            } else {
                assert(all[k].inner.ty.inner == substitute::substituted(
                    env,
                    m1,
                    ps[k].inner.ty.inner,
                    subst,
                ).0);
            }
        }
        assert forall|k: int| 0 <= k < n implies (#[trigger] all[k]).inner.ident
            == ps[k].inner.ident by {
            if k < n - 1 {
                assert(all[k] == before[k]);
            }
        }
    }
}

proof fn deep_patterns_keep_places(
    env: EnvV,
    m: MonoV,
    ps: Seq<Spanned<PatternV>>,
    n: nat,
    subst: Map<Text, TypeV>,
)
    requires
        n <= ps.len(),
    ensures
        substitute::sub_patterns_deep(env, m, ps, n, subst).0.len() == n,
        forall|k: int|
            0 <= k < n ==> comes_from(
                env,
                ps[k].inner.ty.inner,
                (#[trigger] substitute::sub_patterns_deep(env, m, ps, n, subst).0[k]).inner.ty.inner,
                subst,
            ),
        forall|k: int|
            0 <= k < n ==> (#[trigger] substitute::sub_patterns_deep(
                env,
                m,
                ps,
                n,
                subst,
            ).0[k]).inner.ident == ps[k].inner.ident,
    decreases n,
{
    if n > 0 {
        deep_patterns_keep_places(env, m, ps, (n - 1) as nat, subst);
        let (before, m1) = substitute::sub_patterns_deep(env, m, ps, (n - 1) as nat, subst);
        let all = substitute::sub_patterns_deep(env, m, ps, n, subst).0;
        assert forall|k: int| 0 <= k < n implies comes_from(
            env,
            ps[k].inner.ty.inner,
            (#[trigger] all[k]).inner.ty.inner,
            subst,
        ) by {
            if k < n - 1 {
                assert(all[k] == before[k]);
            } else {
                assert(all[k].inner.ty.inner == substitute::substituted(
                    env,
                    m1,
                    ps[k].inner.ty.inner,
                    subst,
                ).0);
            }
        }
        assert forall|k: int| 0 <= k < n implies (#[trigger] all[k]).inner.ident
            == ps[k].inner.ident by {
            if k < n - 1 {
                assert(all[k] == before[k]);
            }
        }
    }
}

/// A branch of a copy of a machine has the parameters of the template, in
/// order and under their names.  A parameter or a return type that is exactly
/// a type parameter has the argument at the place of that parameter for its
/// type.
pub proof fn branch_copies_are_instances(
    env: EnvV,
    m: MonoV,
    b: BranchV,
    params: Seq<Spanned<Text>>,
    args: Seq<TypeV>,
)
    requires
        are_distinct(params),
        forall|i: int| 0 <= i < args.len() ==> concrete::concrete(#[trigger] args[i]),
    ensures
        ({
            let c = program::copied_branch(env, m, b, program::copy_subst(params, args)).0;
            &&& c.head.label == b.head.label
            &&& c.head.patterns.len() == b.head.patterns.len()
            &&& forall|k: int|
                0 <= k < b.head.patterns.len() ==> (#[trigger] c.head.patterns[k]).inner.ident
                    == b.head.patterns[k].inner.ident
            &&& forall|k: int, i: int|
                0 <= k < b.head.patterns.len() && 0 <= i < params.len() && i < args.len()
                    && #[trigger] is_type_param(params, i, b.head.patterns[k].inner.ty.inner)
                    ==> c.head.patterns[k].inner.ty.inner == args[i]
            &&& (c.head.ret_ty is Some) == (b.head.ret_ty is Some)
            &&& forall|i: int|
                0 <= i < params.len() && i < args.len() && b.head.ret_ty is Some
                    && #[trigger] is_type_param(params, i, b.head.ret_ty->0.inner)
                    ==> c.head.ret_ty->0.inner == args[i]
        }),
{
    let subst = program::copy_subst(params, args);
    let n = b.head.patterns.len();
    deep_patterns_keep_places(env, m, b.head.patterns, n, subst);
    let (ps, m1) = substitute::sub_patterns_deep(env, m, b.head.patterns, n, subst);
    let (ret, m2) = substitute::sub_ret(env, m1, b.head.ret_ty, subst);
    let (body, m3) = substitute::sub_kids(env, m2, b.body, b.body.len(), subst);
    let env2 = EnvV { subst, ..env };
    patterns_keep_places(env2, m3, ps, n, Map::empty());
    let (qs, m4) = substitute::sub_patterns(env2, m3, ps, n, Map::empty());
    assert forall|k: int, i: int|
        0 <= k < n && 0 <= i < params.len() && i < args.len() && #[trigger] is_type_param(
            params,
            i,
            b.head.patterns[k].inner.ty.inner,
        ) implies qs[k].inner.ty.inner == args[i] by {
        let t = b.head.patterns[k].inner.ty.inner;
        assert(comes_from(env, t, ps[k].inner.ty.inner, subst));
        let m5 = choose|m5: MonoV|
            ps[k].inner.ty.inner == (#[trigger] substitute::substituted(env, m5, t, subst)).0;
        a_parameter_becomes_its_argument(env, m5, params, args, i, t);
        assert(ps[k].inner.ty.inner == args[i]);
        assert(comes_from(env2, ps[k].inner.ty.inner, qs[k].inner.ty.inner, Map::empty()));
        let m6 = choose|m6: MonoV|
            qs[k].inner.ty.inner == (#[trigger] substitute::substituted(
                env2,
                m6,
                ps[k].inner.ty.inner,
                Map::empty(),
            )).0;
        concrete_stays(env2, m6, args[i]);
    }
    assert forall|k: int| 0 <= k < n implies (#[trigger] qs[k]).inner.ident
        == b.head.patterns[k].inner.ident by {
        assert(qs[k].inner.ident == ps[k].inner.ident);
    }
    assert forall|i: int|
        0 <= i < params.len() && i < args.len() && b.head.ret_ty is Some && #[trigger] is_type_param(
            params,
            i,
            b.head.ret_ty->0.inner,
        ) implies substitute::sub_ret(env2, m4, ret, Map::empty()).0->0.inner == args[i] by {
        a_parameter_becomes_its_argument(env, m1, params, args, i, b.head.ret_ty->0.inner);
        concrete_stays(env2, m4, args[i]);
    }
}

} // verus!
