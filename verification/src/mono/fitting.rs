//! What it means that arguments fit parameters.

use vstd::prelude::*;

use crate::api::ast::{BranchV, MachineItemV, MachineV, PatternKindV, PatternV, TypeV};
use crate::api::expr::Tree;
use crate::mono::callee;
use crate::mono::copies::are_distinct;
use crate::mono::infer;
use crate::mono::state;
use crate::mono::state::{EnvV, InstV, MonoV};
use crate::mono::types;
use crate::order::{picks, picks_last, picks_not_last};
use crate::span::Spanned;
use crate::text::Text;

verus! {

/// Whether two types are the same, wherever they stand.
pub open spec fn alike(a: TypeV, b: TypeV) -> bool
    decreases a,
{
    a == b || match (a, b) {
        (TypeV::Named(x), TypeV::Named(y)) => x.inner == y.inner,
        (TypeV::TypeVar(x), TypeV::TypeVar(y)) => x.inner == y.inner,
        (TypeV::Struct(xs), TypeV::Struct(ys)) => xs.len() == ys.len() && forall|i: int|
            0 <= i < xs.len() ==> alike((#[trigger] xs[i]).inner, ys[i].inner),
        (TypeV::NamedGeneric(m, xs), TypeV::NamedGeneric(n, ys)) => m.inner == n.inner && xs.len()
            == ys.len() && forall|i: int|
            0 <= i < xs.len() ==> alike((#[trigger] xs[i]).inner, ys[i].inner),
        _ => false,
    }
}

/// Whether `t` is the type parameter `p`.
pub open spec fn is_the_param(t: TypeV, params: Seq<Text>, p: Text) -> bool {
    params.contains(p) && match t {
        TypeV::Named(d) => d.inner == p,
        TypeV::TypeVar(d) => d.inner == p,
        _ => false,
    }
}

/// Whether `c` is a copy that goes by `name`, of the template `base` with `n`
/// arguments.
pub open spec fn is_copy(table: Seq<InstV>, c: int, name: Text, base: Text, n: nat) -> bool {
    0 <= c < table.len() && table[c].name == name && table[c].base == base && table[c].args.len()
        == n
}

/// Whether an actual type is the declared one, once the type parameters stand
/// for what `s` says.  An open type fits all; the name of a copy fits what it
/// is a copy of, argument by argument.
pub open spec fn fits(
    m: MonoV,
    declared: TypeV,
    actual: TypeV,
    params: Seq<Text>,
    s: Map<Text, TypeV>,
) -> bool
    decreases declared,
{
    ||| actual is Unknown
    ||| exists|p: Text|
        #[trigger] is_the_param(declared, params, p) && s.contains_key(p) && alike(s[p], actual)
    ||| (forall|p: Text| !#[trigger] is_the_param(declared, params, p)) && match (declared, actual) {
        (TypeV::Named(d), TypeV::Named(a)) => d.inner == a.inner,
        (TypeV::Unit, TypeV::Unit) => true,
        (TypeV::Struct(ds), TypeV::Struct(xs)) => ds.len() == xs.len() && forall|i: int|
            0 <= i < ds.len() ==> fits(m, (#[trigger] ds[i]).inner, xs[i].inner, params, s),
        (TypeV::NamedGeneric(n1, ds), TypeV::NamedGeneric(n2, xs)) => n1.inner == n2.inner
            && ds.len() == xs.len() && forall|i: int|
            0 <= i < ds.len() ==> fits(m, (#[trigger] ds[i]).inner, xs[i].inner, params, s),
        (TypeV::NamedGeneric(n1, ds), TypeV::Named(a)) => {
            ||| exists|c: int| #[trigger]
                is_copy(m.records, c, a.inner, n1.inner, ds.len()) && forall|i: int|
                    0 <= i < ds.len() ==> fits(
                        m,
                        (#[trigger] ds[i]).inner,
                        types::plain_named(m.records[c].args[i]),
                        params,
                        s,
                    )
            ||| exists|c: int| #[trigger]
                is_copy(m.enums, c, a.inner, n1.inner, ds.len()) && forall|i: int|
                    0 <= i < ds.len() ==> fits(
                        m,
                        (#[trigger] ds[i]).inner,
                        types::plain_named(m.enums[c].args[i]),
                        params,
                        s,
                    )
        },
        _ => false,
    }
}

/// Whether `t` says of every name what `s` says of it, and perhaps more.
pub open spec fn says_more(s: Map<Text, TypeV>, t: Map<Text, TypeV>) -> bool {
    forall|k: Text| #[trigger] s.contains_key(k) ==> t.contains_key(k) && t[k] == s[k]
}

proof fn same_shapes_are_alike(a: TypeV, b: TypeV)
    requires
        types::same_shape(a, b),
    ensures
        alike(a, b),
    decreases a, 0nat,
{
    match (a, b) {
        (TypeV::Struct(xs), TypeV::Struct(ys)) => {
            same_lists_are_alike(xs, ys, xs.len());
        },
        (TypeV::NamedGeneric(_, xs), TypeV::NamedGeneric(_, ys)) => {
            same_lists_are_alike(xs, ys, xs.len());
        },
        _ => {},
    }
}

proof fn same_lists_are_alike(xs: Seq<Spanned<TypeV>>, ys: Seq<Spanned<TypeV>>, n: nat)
    requires
        n <= xs.len(),
        types::same_shapes(xs, ys, n),
    ensures
        forall|i: int| 0 <= i < n ==> alike((#[trigger] xs[i]).inner, ys[i].inner),
    decreases xs, n,
{
    if n > 0 {
        same_lists_are_alike(xs, ys, (n - 1) as nat);
        assert(decreases_to!(xs => xs[n - 1]));
        same_shapes_are_alike(xs[n - 1].inner, ys[n - 1].inner);
    }
}

proof fn more_still_fits(
    m: MonoV,
    declared: TypeV,
    actual: TypeV,
    params: Seq<Text>,
    s: Map<Text, TypeV>,
    t: Map<Text, TypeV>,
)
    requires
        fits(m, declared, actual, params, s),
        says_more(s, t),
    ensures
        fits(m, declared, actual, params, t),
    decreases declared,
{
    if actual is Unknown {
    } else if exists|p: Text|
        #[trigger] is_the_param(declared, params, p) && s.contains_key(p) && alike(s[p], actual) {
    } else {
        match (declared, actual) {
            (TypeV::Struct(ds), TypeV::Struct(xs)) => {
                assert forall|i: int| 0 <= i < ds.len() implies fits(
                    m,
                    (#[trigger] ds[i]).inner,
                    xs[i].inner,
                    params,
                    t,
                ) by {
                    more_still_fits(m, ds[i].inner, xs[i].inner, params, s, t);
                }
            },
            (TypeV::NamedGeneric(n1, ds), TypeV::NamedGeneric(n2, xs)) => {
                assert forall|i: int| 0 <= i < ds.len() implies fits(
                    m,
                    (#[trigger] ds[i]).inner,
                    xs[i].inner,
                    params,
                    t,
                ) by {
                    more_still_fits(m, ds[i].inner, xs[i].inner, params, s, t);
                }
            },
            (TypeV::NamedGeneric(n1, ds), TypeV::Named(a)) => {
                let in_records = exists|c: int| #[trigger]
                    is_copy(m.records, c, a.inner, n1.inner, ds.len()) && forall|i: int|
                        0 <= i < ds.len() ==> fits(
                            m,
                            (#[trigger] ds[i]).inner,
                            types::plain_named(m.records[c].args[i]),
                            params,
                            s,
                        );
                if in_records {
                    let c = choose|c: int| #[trigger]
                        is_copy(m.records, c, a.inner, n1.inner, ds.len()) && forall|i: int|
                            0 <= i < ds.len() ==> fits(
                                m,
                                (#[trigger] ds[i]).inner,
                                types::plain_named(m.records[c].args[i]),
                                params,
                                s,
                            );
                    assert forall|i: int| 0 <= i < ds.len() implies fits(
                        m,
                        (#[trigger] ds[i]).inner,
                        types::plain_named(m.records[c].args[i]),
                        params,
                        t,
                    ) by {
                        let x = types::plain_named(m.records[c].args[i]);
                        more_still_fits(m, ds[i].inner, x, params, s, t);
                    }
                } else {
                    let c = choose|c: int| #[trigger]
                        is_copy(m.enums, c, a.inner, n1.inner, ds.len()) && forall|i: int|
                            0 <= i < ds.len() ==> fits(
                                m,
                                (#[trigger] ds[i]).inner,
                                types::plain_named(m.enums[c].args[i]),
                                params,
                                s,
                            );
                    assert forall|i: int| 0 <= i < ds.len() implies fits(
                        m,
                        (#[trigger] ds[i]).inner,
                        types::plain_named(m.enums[c].args[i]),
                        params,
                        t,
                    ) by {
                        let x = types::plain_named(m.enums[c].args[i]);
                        more_still_fits(m, ds[i].inner, x, params, s, t);
                    }
                }
            },
            _ => {},
        }
    }
}

proof fn copies_are_copies(table: Seq<InstV>, name: Text, base: Text, n: nat, from: int)
    requires
        0 <= from,
    ensures
        ({
            let c = state::named_inst(table, name, base, n, from);
            c >= from && (c < table.len() ==> is_copy(table, c, name, base, n))
        }),
    decreases table.len() - from,
{
    if from < table.len() && !is_copy(table, from, name, base, n) {
        copies_are_copies(table, name, base, n, from + 1);
    }
}

/// Fitting a declared type to an actual one without a contradiction makes
/// them fit, and unsays nothing.
pub proof fn unified_types_fit(
    m: MonoV,
    declared: TypeV,
    actual: TypeV,
    params: Seq<Text>,
    subst: Map<Text, TypeV>,
)
    ensures
        ({
            let (ok, s) = state::unified(m, declared, actual, params, subst);
            &&& says_more(subst, s)
            &&& ok ==> fits(m, declared, actual, params, s)
            &&& forall|k: Text| #[trigger]
                s.contains_key(k) && !subst.contains_key(k) ==> params.contains(k)
        }),
    decreases declared, 0nat,
{
    let (ok, s) = state::unified(m, declared, actual, params, subst);
    if state::param_of(declared, params) is Some {
        let p = state::param_of(declared, params)->0;
        assert(is_the_param(declared, params, p));
        if ok && !(actual is Unknown) && subst.contains_key(p) {
            same_shapes_are_alike(subst[p], actual);
        }
    } else {
        assert forall|p: Text| !#[trigger] is_the_param(declared, params, p) by {}
        match (declared, actual) {
            (TypeV::NamedGeneric(n1, a1), TypeV::NamedGeneric(n2, a2)) => {
                if n1.inner == n2.inner && a1.len() == a2.len() {
                    unified_lists_fit(m, a1, a2, a1.len(), params, subst);
                }
            },
            (TypeV::Struct(ds), TypeV::Struct(xs)) => {
                if ds.len() == xs.len() {
                    unified_lists_fit(m, ds, xs, ds.len(), params, subst);
                }
            },
            (TypeV::NamedGeneric(n1, a1), TypeV::Named(a)) => {
                let i = state::named_inst(m.records, a.inner, n1.inner, a1.len(), 0);
                let j = state::named_inst(m.enums, a.inner, n1.inner, a1.len(), 0);
                copies_are_copies(m.records, a.inner, n1.inner, a1.len(), 0);
                copies_are_copies(m.enums, a.inner, n1.inner, a1.len(), 0);
                if 0 <= i < m.records.len() {
                    let xs = state::arg_types(m.records[i].args);
                    unified_lists_fit(m, a1, xs, a1.len(), params, subst);
                    if ok {
                        assert forall|k: int| 0 <= k < a1.len() implies fits(
                            m,
                            (#[trigger] a1[k]).inner,
                            types::plain_named(m.records[i].args[k]),
                            params,
                            s,
                        ) by {
                            assert(xs[k].inner == types::plain_named(m.records[i].args[k]));
                        }
                    }
                } else if 0 <= j < m.enums.len() {
                    let xs = state::arg_types(m.enums[j].args);
                    unified_lists_fit(m, a1, xs, a1.len(), params, subst);
                    if ok {
                        assert forall|k: int| 0 <= k < a1.len() implies fits(
                            m,
                            (#[trigger] a1[k]).inner,
                            types::plain_named(m.enums[j].args[k]),
                            params,
                            s,
                        ) by {
                            assert(xs[k].inner == types::plain_named(m.enums[j].args[k]));
                        }
                    }
                }
            },
            _ => {},
        }
    }
}

proof fn unified_lists_fit(
    m: MonoV,
    declared: Seq<Spanned<TypeV>>,
    actual: Seq<Spanned<TypeV>>,
    n: nat,
    params: Seq<Text>,
    subst: Map<Text, TypeV>,
)
    requires
        n <= declared.len(),
    ensures
        ({
            let (ok, s) = state::unified_all(m, declared, actual, n, params, subst);
            &&& says_more(subst, s)
            &&& ok ==> forall|i: int|
                0 <= i < n ==> fits(
                    m,
                    (#[trigger] declared[i]).inner,
                    actual[i].inner,
                    params,
                    s,
                )
            &&& forall|k: Text| #[trigger]
                s.contains_key(k) && !subst.contains_key(k) ==> params.contains(k)
        }),
    decreases declared, n,
{
    if n > 0 {
        let (ok, s) = state::unified_all(m, declared, actual, (n - 1) as nat, params, subst);
        unified_lists_fit(m, declared, actual, (n - 1) as nat, params, subst);
        if ok {
            assert(decreases_to!(declared => declared[n - 1]));
            let (ok2, t) = state::unified(
                m,
                declared[n - 1].inner,
                actual[n - 1].inner,
                params,
                s,
            );
            unified_types_fit(m, declared[n - 1].inner, actual[n - 1].inner, params, s);
            if ok2 {
                assert forall|i: int| 0 <= i < n implies fits(
                    m,
                    (#[trigger] declared[i]).inner,
                    actual[i].inner,
                    params,
                    t,
                ) by {
                    if i < n - 1 {
                        more_still_fits(m, declared[i].inner, actual[i].inner, params, s, t);
                    }
                }
            }
        }
    }
}

// ── calls ──────────────────────────────────────────────────────────────────

/// Which parameters of a branch take an argument: all but `_` and guards on
/// numbers and strings.
pub open spec fn taking(ps: Seq<Spanned<PatternV>>) -> spec_fn(int) -> bool {
    |i: int|
        match ps[i].inner.kind {
            PatternKindV::Wildcard | PatternKindV::NumGuard(_) | PatternKindV::StrGuard(_) => false,
            _ => true,
        }
}

/// Whether a call fits a branch: there is an argument for every parameter that
/// takes one, and its type fits the parameter's, once the type parameters
/// stand for what `s` says; and `s` says something of all of them.
pub open spec fn call_fits(
    env: EnvV,
    m: MonoV,
    generics: Seq<Spanned<Text>>,
    b: BranchV,
    args: Seq<Tree>,
    scope: Map<Text, TypeV>,
    s: Map<Text, TypeV>,
) -> bool {
    let ps = b.head.patterns;
    &&& forall|i: int| 0 <= i < generics.len() ==> s.contains_key((#[trigger] generics[i]).inner)
    &&& exists|at: Seq<int>|
        {
            &&& #[trigger] picks(at, 0, ps.len(), taking(ps))
            &&& at.len() == args.len()
            &&& forall|k: int|
                0 <= k < args.len() ==> fits(
                    m,
                    ps[at[k]].inner.ty.inner,
                    infer::inferred(env, m, #[trigger] args[k], scope),
                    state::param_texts(generics),
                    s,
                )
        }
}

proof fn taking_params(ps: Seq<Spanned<PatternV>>, n: nat) -> (at: Seq<int>)
    requires
        n <= ps.len(),
    ensures
        picks(at, 0, n, taking(ps)),
        callee::arg_params(ps, n).len() == at.len(),
        forall|k: int|
            0 <= k < at.len() ==> #[trigger] callee::arg_params(ps, n)[k]
                == ps[at[k]].inner.ty.inner,
    decreases n,
{
    if n == 0 {
        Seq::empty()
    } else {
        let was = taking_params(ps, (n - 1) as nat);
        if taking(ps)(n - 1) {
            picks_last(was, (n - 1) as nat, taking(ps));
            was.push(n - 1)
        } else {
            picks_not_last(was, (n - 1) as nat, taking(ps));
            was
        }
    }
}

proof fn fitted_args_fit(
    env: EnvV,
    m: MonoV,
    declared: Seq<TypeV>,
    args: Seq<Tree>,
    n: nat,
    params: Seq<Text>,
    scope: Map<Text, TypeV>,
)
    requires
        n <= args.len(),
        n <= declared.len(),
    ensures
        ({
            let (ok, s) = callee::args_fit(env, m, declared, args, n, params, scope);
            ok ==> forall|k: int|
                0 <= k < n ==> fits(
                    m,
                    declared[k],
                    infer::inferred(env, m, #[trigger] args[k], scope),
                    params,
                    s,
                )
        }),
    decreases n,
{
    if n > 0 {
        let (ok, s) = callee::args_fit(env, m, declared, args, (n - 1) as nat, params, scope);
        fitted_args_fit(env, m, declared, args, (n - 1) as nat, params, scope);
        if ok {
            let last = infer::inferred(env, m, args[n - 1], scope);
            unified_types_fit(m, declared[n - 1], last, params, s);
            let t = state::unified(m, declared[n - 1], last, params, s).1;
            assert forall|k: int| 0 <= k < n - 1 implies fits(
                m,
                declared[k],
                infer::inferred(env, m, #[trigger] args[k], scope),
                params,
                t,
            ) by {
                more_still_fits(
                    m,
                    declared[k],
                    infer::inferred(env, m, args[k], scope),
                    params,
                    s,
                    t,
                );
            }
        }
    }
}

proof fn all_bound(params: Seq<Spanned<Text>>, s: Map<Text, TypeV>, from: int)
    requires
        0 <= from,
        callee::unbound_index(params, s, from) >= params.len(),
    ensures
        forall|i: int| from <= i < params.len() ==> s.contains_key((#[trigger] params[i]).inner),
    decreases params.len() - from,
{
    if from < params.len() {
        all_bound(params, s, from + 1);
    }
}

/// A call that is taken to fit a branch fits it.
pub proof fn fitted_branches_fit(
    env: EnvV,
    m: MonoV,
    generics: Seq<Spanned<Text>>,
    b: BranchV,
    args: Seq<Tree>,
    scope: Map<Text, TypeV>,
    ret_hint: Option<TypeV>,
)
    ensures
        callee::branch_fit(env, m, generics, b, args, scope, ret_hint) matches Some(s)
            ==> call_fits(env, m, generics, b, args, scope, s),
{
    if let Some(t) = callee::branch_fit(env, m, generics, b, args, scope, ret_hint) {
        let ps = b.head.patterns;
        let at = taking_params(ps, ps.len());
        let declared = callee::arg_params(ps, ps.len());
        let params = state::param_texts(generics);
        fitted_args_fit(env, m, declared, args, args.len(), params, scope);
        let s = callee::args_fit(env, m, declared, args, args.len(), params, scope).1;
        if let (Some(hint), Some(ret)) = (ret_hint, b.head.ret_ty) {
            unified_types_fit(m, ret.inner, hint, params, s);
        }
        assert(says_more(s, t));
        all_bound(generics, t, 0);
        assert forall|k: int| 0 <= k < args.len() implies fits(
            m,
            ps[at[k]].inner.ty.inner,
            infer::inferred(env, m, #[trigger] args[k], scope),
            params,
            t,
        ) by {
            assert(declared[k] == ps[at[k]].inner.ty.inner);
            more_still_fits(
                m,
                declared[k],
                infer::inferred(env, m, args[k], scope),
                params,
                s,
                t,
            );
        }
    }
}

/// A machine that a call is taken to fit has a branch that the call fits, with
/// what the type parameters are taken to stand for.
pub proof fn fitted_machines_fit(
    env: EnvV,
    m: MonoV,
    decl: MachineV,
    from: int,
    args: Seq<Tree>,
    scope: Map<Text, TypeV>,
    ret_hint: Option<TypeV>,
)
    requires
        0 <= from,
    ensures
        callee::machine_fit(env, m, decl, from, args, scope, ret_hint) matches Some(s) ==> exists|
            i: int,
        |
            from <= i < decl.items.len() && match (#[trigger] decl.items[i]).inner {
                MachineItemV::Branch(b) => call_fits(env, m, decl.generics, b, args, scope, s),
                _ => false,
            },
    decreases decl.items.len() - from,
{
    if from < decl.items.len() {
        fitted_machines_fit(env, m, decl, from + 1, args, scope, ret_hint);
        if let MachineItemV::Branch(b) = decl.items[from].inner {
            fitted_branches_fit(env, m, decl.generics, b, args, scope, ret_hint);
        }
    }
}

/// In a copy of a machine each type parameter stands for the argument at its
/// place.
pub proof fn copies_stand_for_their_arguments(
    generics: Seq<Spanned<Text>>,
    args: Seq<Text>,
    n: nat,
)
    requires
        n <= generics.len(),
        n <= args.len(),
        are_distinct(generics),
    ensures
        forall|i: int|
            0 <= i < n ==> infer::inst_subst(generics, args, n).contains_key(
                (#[trigger] generics[i]).inner,
            ) && infer::inst_subst(generics, args, n)[generics[i].inner] == types::plain_named(
                args[i],
            ),
    decreases n,
{
    if n > 0 {
        copies_stand_for_their_arguments(generics, args, (n - 1) as nat);
        assert forall|i: int| 0 <= i < n - 1 implies (#[trigger] generics[i]).inner
            != generics[n - 1].inner by {}
    }
}

} // verus!
