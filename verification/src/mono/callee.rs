//! Which concrete copy a call asks for.

use vstd::prelude::*;

use crate::api::ast;
use crate::api::ast::{
    dup_ident, EnumDecl, Ident, Machine, MachineItem, MachineItemV, MachineV, Pattern, PatternV,
    RecordDecl, RecordDeclV, Type, TypeV, Variant, VariantPayload, VariantPayloadV, VariantV,
};
use crate::api::ast::{Branch, BranchV};
use crate::api::expr;
use crate::api::expr::{Expr, Head, Tree};
use crate::error_handle;
use crate::error_handle::{ErrorV, LakeError};
use crate::mono::infer;
use crate::mono::protos;
use crate::mono::protos::find_template;
use crate::mono::state;
use crate::mono::state::{any_inst, EnvV, MonoCx, MonoState, MonoV};
use crate::mono::substitute;
use crate::name_map::NameMap;
use crate::registry::{ModuleId, Resolution, ResolutionV};
use crate::span::{SimpleSpan, SpanWrap, Spanned};
use crate::text::{cat3, same, Text};

verus! {

// ── type parameters that nothing fixes ─────────────────────────────────────

/// The first parameter from `from` on that a substitution does not bind.
pub open spec fn unbound_index(
    params: Seq<Spanned<Text>>,
    subst: Map<Text, TypeV>,
    from: int,
) -> int
    decreases params.len() - from,
{
    if from >= params.len() || !subst.contains_key(params[from].inner) {
        from
    } else {
        unbound_index(params, subst, from + 1)
    }
}

/// E040: no argument fixes a type parameter.
pub open spec fn cannot_infer(param: Text, base: Text, span: SimpleSpan, help: Text) -> ErrorV {
    error_handle::helped_error(
        "cannot infer type parameter `"@ + param + "` for `"@ + base + "`"@,
        span,
        "E040"@,
        help,
    )
}

/// `m` with one more error.
pub open spec fn reported(m: MonoV, e: ErrorV) -> MonoV {
    MonoV { errors: m.errors.push(e), ..m }
}

fn cannot_infer_error(param: &str, base: &str, span: SimpleSpan, help: &str) -> (e: LakeError)
    ensures
        e.deep_view() == cannot_infer(param@, base@, span, help@),
{
    let msg = cat3("cannot infer type parameter `", param, "` for `");
    let msg = cat3(msg.as_str(), base, "`");
    LakeError::new(msg.as_str(), span).code("E040").help(help)
}

fn find_unbound(params: &Vec<Spanned<Ident>>, subst: &NameMap<Type>) -> (r: usize)
    ensures
        r == unbound_index(params.deep_view(), subst.deep_view(), 0),
        r <= params@.len(),
        r == params@.len() ==> substitute::binds_first(
            params.deep_view(),
            params@.len(),
            subst.deep_view(),
        ),
{
    let ghost pv = params.deep_view();
    let ghost sv = subst.deep_view();
    let mut i: usize = 0;
    while i < params.len()
        invariant
            i <= params.len(),
            pv == params.deep_view(),
            sv == subst.deep_view(),
            unbound_index(pv, sv, 0) == unbound_index(pv, sv, i as int),
            substitute::binds_first(pv, i as nat, sv),
        decreases params.len() - i,
    {
        proof {
            assert(pv[i as int].inner == params@[i as int].inner.0@);
        }
        if !subst.contains_key(params[i].inner.0.as_str()) {
            return i;
        }
        i = i + 1;
    }
    i
}

fn args_bound(params: &Vec<Spanned<Ident>>, subst: &NameMap<Type>) -> (r: Vec<Type>)
    requires
        substitute::binds_first(params.deep_view(), params@.len(), subst.deep_view()),
    ensures
        r.deep_view() == substitute::bound_args(params.deep_view(), subst.deep_view()),
{
    let ghost pv = params.deep_view();
    let ghost sv = subst.deep_view();
    let mut out: Vec<Type> = Vec::new();
    let mut i: usize = 0;
    while i < params.len()
        invariant
            i <= params.len(),
            pv == params.deep_view(),
            sv == subst.deep_view(),
            substitute::binds_first(pv, params@.len(), sv),
            out@.len() == i,
            forall|j: int| 0 <= j < i ==> ast::type_view(#[trigger] out@[j]) == sv[pv[j].inner],
        decreases params.len() - i,
    {
        proof {
            assert(pv[i as int].inner == params@[i as int].inner.0@);
            assert(sv.contains_key(pv[i as int].inner));
        }
        let one = match subst.get(params[i].inner.0.as_str()) {
            Some(t) => t.dup(),
            None => Type::Unknown,
        };
        out.push(one);
        i = i + 1;
    }
    proof {
        assert(out.deep_view() =~= substitute::bound_args(pv, sv));
    }
    out
}

// ── records ────────────────────────────────────────────────────────────────

/// What the type parameters of a record stand for in a constructor call,
/// and an error where one stands for nothing.
pub open spec fn record_fit(
    env: EnvV,
    m: MonoV,
    decl: RecordDeclV,
    call: Seq<Tree>,
    scope: Map<Text, TypeV>,
    span: SimpleSpan,
) -> (Option<Map<Text, TypeV>>, MonoV) {
    if call.len() - 1 != decl.fields.len() {
        (None, m)
    } else {
        let subst = infer::field_bindings(
            env,
            m,
            decl.fields,
            call,
            call.len(),
            state::param_texts(decl.type_params),
            scope,
        );
        let i = unbound_index(decl.type_params, subst, 0);
        if 0 <= i < decl.type_params.len() {
            (
                None,
                reported(
                    m,
                    cannot_infer(
                        decl.type_params[i].inner,
                        decl.ident.inner,
                        span,
                        "supply an argument whose type fixes the parameter, or annotate the binding explicitly"@,
                    ),
                ),
            )
        } else {
            (Some(subst), m)
        }
    }
}

impl<'a> MonoCx<'a> {
    fn unify_against_record_fields(
        &self,
        decl: &RecordDecl,
        args: &Vec<Spanned<Expr>>,
        scope: &NameMap<Type>,
        call_span: SimpleSpan,
        st: &mut MonoState,
        Ghost(call): Ghost<Seq<Tree>>,
    ) -> (r: Option<NameMap<Type>>)
        requires
            self.deep_view().reg.wf(),
            call.len() == args@.len() + 1,
            call.skip(1) == expr::trees(args@),
        ensures
            ({
                let (fit, m) = record_fit(
                    self.deep_view(),
                    old(st).deep_view(),
                    decl.deep_view(),
                    call,
                    scope.deep_view(),
                    call_span,
                );
                final(st).deep_view() == m && match r {
                    Some(s) => fit == Some(s.deep_view()) && substitute::binds_first(
                        decl.deep_view().type_params,
                        decl.type_params@.len(),
                        s.deep_view(),
                    ),
                    None => fit is None,
                }
            }),
    {
        proof {
            assert(decl.deep_view().fields.len() == decl.fields@.len());
        }
        if args.len() != decl.fields.len() {
            return None;
        }
        let subst = self.bind_fields(decl, args, scope, st, Ghost(call));
        let i = find_unbound(&decl.type_params, &subst);
        if i < decl.type_params.len() {
            proof {
                assert(decl.deep_view().type_params[i as int].inner
                    == decl.type_params@[i as int].inner.0@);
            }
            st.report(
                cannot_infer_error(
                    decl.type_params[i].inner.0.as_str(),
                    decl.ident.inner.0.as_str(),
                    call_span,
                    "supply an argument whose type fixes the parameter, or annotate the binding explicitly",
                ),
            );
            return None;
        }
        Some(subst)
    }
}

// ── machines ───────────────────────────────────────────────────────────────

/// Whether a parameter takes an argument.
pub open spec fn takes_arg(p: PatternV) -> bool {
    !(p.kind is Wildcard) && !(p.kind is NumGuard) && !(p.kind is StrGuard)
}

/// The types of those of the first `n` parameters that take an argument.
pub open spec fn arg_params(ps: Seq<Spanned<PatternV>>, n: nat) -> Seq<TypeV>
    decreases n,
{
    if n == 0 {
        Seq::empty()
    } else {
        let before = arg_params(ps, (n - 1) as nat);
        if takes_arg(ps[n - 1].inner) {
            before.push(ps[n - 1].inner.ty.inner)
        } else {
            before
        }
    }
}

/// Fits the types of the first `n` arguments to declared types, up to a
/// contradiction.
pub open spec fn args_fit(
    env: EnvV,
    m: MonoV,
    declared: Seq<TypeV>,
    args: Seq<Tree>,
    n: nat,
    params: Seq<Text>,
    scope: Map<Text, TypeV>,
) -> (bool, Map<Text, TypeV>)
    decreases n,
{
    if n == 0 {
        (true, Map::empty())
    } else {
        let (ok, s) = args_fit(env, m, declared, args, (n - 1) as nat, params, scope);
        if ok {
            state::unified(
                m,
                declared[n - 1],
                infer::inferred(env, m, args[n - 1], scope),
                params,
                s,
            )
        } else {
            (false, s)
        }
    }
}

/// What the type parameters of a machine stand for, if a call fits one of
/// its branches.  The type that is expected of the call may fix parameters
/// that no argument does.
pub open spec fn branch_fit(
    env: EnvV,
    m: MonoV,
    generics: Seq<Spanned<Text>>,
    b: BranchV,
    args: Seq<Tree>,
    scope: Map<Text, TypeV>,
    ret_hint: Option<TypeV>,
) -> Option<Map<Text, TypeV>> {
    let declared = arg_params(b.head.patterns, b.head.patterns.len());
    let params = state::param_texts(generics);
    if declared.len() != args.len() {
        None
    } else {
        let (ok, s) = args_fit(env, m, declared, args, args.len(), params, scope);
        if !ok {
            None
        } else {
            let s2 = match (ret_hint, b.head.ret_ty) {
                (Some(hint), Some(ret)) => state::unified(m, ret.inner, hint, params, s).1,
                _ => s,
            };
            if unbound_index(generics, s2, 0) >= generics.len() {
                Some(s2)
            } else {
                None
            }
        }
    }
}

/// What the type parameters of a machine stand for, as the first branch
/// among the items from `from` on that a call fits tells.
pub open spec fn machine_fit(
    env: EnvV,
    m: MonoV,
    decl: MachineV,
    from: int,
    args: Seq<Tree>,
    scope: Map<Text, TypeV>,
    ret_hint: Option<TypeV>,
) -> Option<Map<Text, TypeV>>
    decreases decl.items.len() - from,
{
    if from >= decl.items.len() {
        None
    } else {
        let rest = machine_fit(env, m, decl, from + 1, args, scope, ret_hint);
        match decl.items[from].inner {
            MachineItemV::Branch(b) => match branch_fit(
                env,
                m,
                decl.generics,
                b,
                args,
                scope,
                ret_hint,
            ) {
                Some(s) => Some(s),
                None => rest,
            },
            MachineItemV::Field(_) => rest,
        }
    }
}

/// The first template from `from` on that is called `name` and that a call
/// fits.
pub open spec fn fit_index(
    env: EnvV,
    m: MonoV,
    name: Text,
    args: Seq<Tree>,
    scope: Map<Text, TypeV>,
    ret_hint: Option<TypeV>,
    from: int,
) -> int
    decreases env.templates.machines.len() - from,
{
    let ms = env.templates.machines;
    if from >= ms.len() || (ms[from].decl.ident.inner == name && machine_fit(
        env,
        m,
        ms[from].decl,
        0,
        args,
        scope,
        ret_hint,
    ) is Some) {
        from
    } else {
        fit_index(env, m, name, args, scope, ret_hint, from + 1)
    }
}

fn arg_param_types(ps: &Vec<Spanned<Pattern>>) -> (r: Vec<Type>)
    ensures
        r.deep_view() == arg_params(ast::patterns_view(ps@), ps@.len()),
{
    let ghost pv = ast::patterns_view(ps@);
    let mut out: Vec<Type> = Vec::new();
    proof {
        assert(out.deep_view() =~= Seq::<TypeV>::empty());
    }
    let mut i: usize = 0;
    while i < ps.len()
        invariant
            i <= ps.len(),
            pv == ast::patterns_view(ps@),
            out.deep_view() == arg_params(pv, i as nat),
        decreases ps.len() - i,
    {
        let ghost before = out.deep_view();
        proof {
            assert(pv[i as int].inner == ast::pattern_view(ps@[i as int].inner));
        }
        if !ps[i].inner.is_wildcard() && !ps[i].inner.is_literal_guard() {
            let one = ps[i].inner.ty.inner.dup();
            let ghost ov = ast::type_view(one);
            out.push(one);
            proof {
                assert(out.deep_view() =~= before.push(ov));
            }
        }
        i = i + 1;
    }
    out
}

impl<'a> MonoCx<'a> {
    fn fit_args(
        &self,
        declared: &Vec<Type>,
        args: &Vec<Spanned<Expr>>,
        params: &Vec<Spanned<Ident>>,
        scope: &NameMap<Type>,
        st: &MonoState,
        subst: &mut NameMap<Type>,
    ) -> (r: bool)
        requires
            self.deep_view().reg.wf(),
            declared@.len() == args@.len(),
            old(subst).deep_view() == Map::<Text, TypeV>::empty(),
        ensures
            (r, final(subst).deep_view()) == args_fit(
                self.deep_view(),
                st.deep_view(),
                declared.deep_view(),
                expr::trees(args@),
                args@.len(),
                state::param_texts(params.deep_view()),
                scope.deep_view(),
            ),
    {
        let ghost env = self.deep_view();
        let ghost m = st.deep_view();
        let ghost dv = declared.deep_view();
        let ghost ts = expr::trees(args@);
        let ghost ps = state::param_texts(params.deep_view());
        let ghost sv = scope.deep_view();
        let mut ok = true;
        let mut i: usize = 0;
        while i < args.len()
            invariant
                i <= args.len(),
                declared@.len() == args@.len(),
                env == self.deep_view(),
                env.reg.wf(),
                m == st.deep_view(),
                dv == declared.deep_view(),
                ts == expr::trees(args@),
                ps == state::param_texts(params.deep_view()),
                sv == scope.deep_view(),
                (ok, subst.deep_view()) == args_fit(env, m, dv, ts, i as nat, ps, sv),
            decreases args.len() - i,
        {
            proof {
                assert(dv[i as int] == ast::type_view(declared@[i as int]));
                assert(ts[i as int] == expr::tree_of(args@[i as int]));
            }
            if ok {
                let actual = self.infer_expr_type(&args[i], scope, st);
                ok = st.unify(&declared[i], &actual, params, subst);
            }
            i = i + 1;
        }
        ok
    }

    fn fit_branch(
        &self,
        generics: &Vec<Spanned<Ident>>,
        b: &Branch,
        args: &Vec<Spanned<Expr>>,
        scope: &NameMap<Type>,
        ret_hint: &Option<Type>,
        st: &MonoState,
    ) -> (r: Option<NameMap<Type>>)
        requires
            self.deep_view().reg.wf(),
        ensures
            ({
                let fit = branch_fit(
                    self.deep_view(),
                    st.deep_view(),
                    generics.deep_view(),
                    b.deep_view(),
                    expr::trees(args@),
                    scope.deep_view(),
                    ret_hint.deep_view(),
                );
                match r {
                    Some(s) => fit == Some(s.deep_view()) && substitute::binds_first(
                        generics.deep_view(),
                        generics@.len(),
                        s.deep_view(),
                    ),
                    None => fit is None,
                }
            }),
    {
        let declared = arg_param_types(&b.patterns);
        proof {
            assert(declared.deep_view().len() == declared@.len());
            assert(expr::trees(args@).len() == args@.len());
        }
        if declared.len() != args.len() {
            return None;
        }
        let mut subst: NameMap<Type> = NameMap::new();
        proof {
            assert(subst.deep_view() =~= Map::<Text, TypeV>::empty());
        }
        if !self.fit_args(&declared, args, generics, scope, st, &mut subst) {
            return None;
        }
        if let Some(hint) = ret_hint {
            if let Some(ret) = &b.ret_ty {
                let _ = st.unify(&ret.inner, hint, generics, &mut subst);
            }
        }
        if find_unbound(generics, &subst) < generics.len() {
            return None;
        }
        Some(subst)
    }

    /// Argument-driven unification against the branches of a machine, in
    /// order, without diagnostics.
    pub fn unify_against_machine_quiet(
        &self,
        decl: &Machine,
        args: &Vec<Spanned<Expr>>,
        scope: &NameMap<Type>,
        ret_hint: &Option<Type>,
        st: &MonoState,
    ) -> (r: Option<NameMap<Type>>)
        requires
            self.deep_view().reg.wf(),
        ensures
            ({
                let fit = machine_fit(
                    self.deep_view(),
                    st.deep_view(),
                    decl.deep_view(),
                    0,
                    expr::trees(args@),
                    scope.deep_view(),
                    ret_hint.deep_view(),
                );
                match r {
                    Some(s) => fit == Some(s.deep_view()) && substitute::binds_first(
                        decl.deep_view().generics,
                        decl.generics@.len(),
                        s.deep_view(),
                    ),
                    None => fit is None,
                }
            }),
    {
        let ghost env = self.deep_view();
        let ghost m = st.deep_view();
        let ghost dv = decl.deep_view();
        let ghost ts = expr::trees(args@);
        let ghost sv = scope.deep_view();
        let ghost rv = ret_hint.deep_view();
        let mut i: usize = 0;
        while i < decl.items.len()
            invariant
                i <= decl.items.len(),
                env == self.deep_view(),
                env.reg.wf(),
                m == st.deep_view(),
                dv == decl.deep_view(),
                ts == expr::trees(args@),
                sv == scope.deep_view(),
                rv == ret_hint.deep_view(),
                machine_fit(env, m, dv, 0, ts, sv, rv) == machine_fit(
                    env,
                    m,
                    dv,
                    i as int,
                    ts,
                    sv,
                    rv,
                ),
            decreases decl.items.len() - i,
        {
            proof {
                assert(dv.items[i as int] == decl.items@[i as int].deep_view());
            }
            if let MachineItem::Branch(b) = &decl.items[i].inner {
                let fit = self.fit_branch(&decl.generics, b, args, scope, ret_hint, st);
                if fit.is_some() {
                    return fit;
                }
            }
            i = i + 1;
        }
        None
    }
}

// ── callees ────────────────────────────────────────────────────────────────

/// A callee that names a generic record or machine, renamed to the copy
/// that the call asks for.
pub open spec fn rewritten_callee(
    env: EnvV,
    m: MonoV,
    callee: Tree,
    args: Seq<Tree>,
    scope: Map<Text, TypeV>,
    ret_hint: Option<TypeV>,
    span: SimpleSpan,
) -> (Tree, MonoV) {
    match callee.head {
        Head::Var(name, ty) => {
            let records = env.templates.records;
            let ms = env.templates.machines;
            if records.contains_key(name) {
                let decl = records[name];
                let (fit, m2) = record_fit(env, m, decl, seq![callee] + args, scope, span);
                match fit {
                    Some(s) => {
                        let (copy, m3) = state::record_asked(
                            m2,
                            name,
                            substitute::bound_args(decl.type_params, s),
                        );
                        (expr::leaf(Head::Var(copy, ty), callee.span), m3)
                    },
                    None => (callee, m2),
                }
            } else {
                let i = fit_index(env, m, name, args, scope, ret_hint, 0);
                let first = protos::template_index(ms, name, 0);
                if 0 <= i < ms.len() {
                    let s = machine_fit(env, m, ms[i].decl, 0, args, scope, ret_hint)->0;
                    let (copy, m3) = protos::machine_asked(
                        env,
                        m,
                        name,
                        substitute::bound_args(ms[i].decl.generics, s),
                        ms[i].module,
                        span,
                    );
                    (expr::leaf(Head::Var(copy, ty), callee.span), m3)
                } else if 0 <= first < ms.len() && ms[first].decl.generics.len() > 0 {
                    (
                        callee,
                        reported(
                            m,
                            cannot_infer(
                                ms[first].decl.generics[0].inner,
                                name,
                                span,
                                "supply arguments whose types fix the parameter(s), or annotate the binding explicitly"@,
                            ),
                        ),
                    )
                } else {
                    (callee, m)
                }
            }
        },
        _ => (callee, m),
    }
}

impl<'a> MonoCx<'a> {
    fn rewrite_machine_callee(
        &self,
        name: &str,
        args: &Vec<Spanned<Expr>>,
        scope: &NameMap<Type>,
        ret_hint: &Option<Type>,
        call_span: SimpleSpan,
        st: &mut MonoState,
    ) -> (r: Option<String>)
        requires
            self.deep_view().reg.wf(),
        ensures
            ({
                let env = self.deep_view();
                let m = old(st).deep_view();
                let ts = expr::trees(args@);
                let sv = scope.deep_view();
                let rv = ret_hint.deep_view();
                let ms = env.templates.machines;
                let i = fit_index(env, m, name@, ts, sv, rv, 0);
                let first = protos::template_index(ms, name@, 0);
                match r {
                    Some(copy) => 0 <= i < ms.len() && (copy@, final(st).deep_view())
                        == protos::machine_asked(
                        env,
                        m,
                        name@,
                        substitute::bound_args(
                            ms[i].decl.generics,
                            machine_fit(env, m, ms[i].decl, 0, ts, sv, rv)->0,
                        ),
                        ms[i].module,
                        call_span,
                    ),
                    None => i >= ms.len() && final(st).deep_view() == (if 0 <= first < ms.len()
                        && ms[first].decl.generics.len() > 0 {
                        reported(
                            m,
                            cannot_infer(
                                ms[first].decl.generics[0].inner,
                                name@,
                                call_span,
                                "supply arguments whose types fix the parameter(s), or annotate the binding explicitly"@,
                            ),
                        )
                    } else {
                        m
                    }),
                }
            }),
    {
        let ghost env = self.deep_view();
        let ghost m = st.deep_view();
        let ghost ts = expr::trees(args@);
        let ghost sv = scope.deep_view();
        let ghost rv = ret_hint.deep_view();
        let ms = &self.templates.machines;
        let (at, fit) = self.find_fit(name, args, scope, ret_hint, st);
        match fit {
            Some(subst) => {
                proof {
                    assert(env.templates.machines[at as int] == ms@[at as int].deep_view());
                }
                let concrete = args_bound(&ms[at].decl.generics, &subst);
                Some(self.intern_machine_mono(name, concrete, ms[at].module, call_span, st))
            },
            None => {
                let first = find_template(ms, name, 0);
                if first < ms.len() {
                    proof {
                        assert(env.templates.machines[first as int]
                            == ms@[first as int].deep_view());
                        assert(ms@[first as int].decl.deep_view().generics.len()
                            == ms@[first as int].decl.generics@.len());
                    }
                    if ms[first].decl.generics.len() > 0 {
                        proof {
                            assert(ms@[first as int].decl.deep_view().generics[0].inner
                                == ms@[first as int].decl.generics@[0].inner.0@);
                        }
                        st.report(
                            cannot_infer_error(
                                ms[first].decl.generics[0].inner.0.as_str(),
                                name,
                                call_span,
                                "supply arguments whose types fix the parameter(s), or annotate the binding explicitly",
                            ),
                        );
                    }
                }
                None
            },
        }
    }

    fn find_fit(
        &self,
        name: &str,
        args: &Vec<Spanned<Expr>>,
        scope: &NameMap<Type>,
        ret_hint: &Option<Type>,
        st: &MonoState,
    ) -> (r: (usize, Option<NameMap<Type>>))
        requires
            self.deep_view().reg.wf(),
        ensures
            ({
                let env = self.deep_view();
                let m = st.deep_view();
                let ts = expr::trees(args@);
                let sv = scope.deep_view();
                let rv = ret_hint.deep_view();
                let ms = env.templates.machines;
                let i = fit_index(env, m, name@, ts, sv, rv, 0);
                match r.1 {
                    Some(s) => r.0 == i && 0 <= i < ms.len() && machine_fit(
                        env,
                        m,
                        ms[i].decl,
                        0,
                        ts,
                        sv,
                        rv,
                    ) == Some(s.deep_view()) && substitute::binds_first(
                        ms[i].decl.generics,
                        ms[i].decl.generics.len(),
                        s.deep_view(),
                    ),
                    None => i >= ms.len(),
                }
            }),
    {
        let ghost env = self.deep_view();
        let ghost m = st.deep_view();
        let ghost ts = expr::trees(args@);
        let ghost sv = scope.deep_view();
        let ghost rv = ret_hint.deep_view();
        let ms = &self.templates.machines;
        let mut i: usize = 0;
        while i < ms.len()
            invariant
                i <= ms.len(),
                ms == self.templates.machines,
                env == self.deep_view(),
                env.reg.wf(),
                m == st.deep_view(),
                ts == expr::trees(args@),
                sv == scope.deep_view(),
                rv == ret_hint.deep_view(),
                fit_index(env, m, name@, ts, sv, rv, 0) == fit_index(
                    env,
                    m,
                    name@,
                    ts,
                    sv,
                    rv,
                    i as int,
                ),
            decreases ms.len() - i,
        {
            proof {
                assert(env.templates.machines[i as int] == ms@[i as int].deep_view());
            }
            if same(ms[i].decl.ident.inner.0.as_str(), name) {
                let fit = self.unify_against_machine_quiet(&ms[i].decl, args, scope, ret_hint, st);
                if fit.is_some() {
                    return (i, fit);
                }
            }
            i = i + 1;
        }
        (i, None)
    }

    /// If a callee names a generic record or machine, find out its type
    /// arguments, ask for a copy and rename the callee to it.  Other callees
    /// pass through.
    pub fn maybe_rewrite_callee(
        &self,
        callee: Spanned<Expr>,
        args: &Vec<Spanned<Expr>>,
        scope: &NameMap<Type>,
        ret_hint: &Option<Type>,
        call_span: SimpleSpan,
        st: &mut MonoState,
    ) -> (r: Spanned<Expr>)
        requires
            self.deep_view().reg.wf(),
        ensures
            (expr::tree_of(r), final(st).deep_view()) == rewritten_callee(
                self.deep_view(),
                old(st).deep_view(),
                expr::tree_of(callee),
                expr::trees(args@),
                scope.deep_view(),
                ret_hint.deep_view(),
                call_span,
            ),
    {
        let ghost t = expr::tree_of(callee);
        let span = callee.span;
        match &callee.inner {
            Expr::Var(name, ty) => {
                if let Some(decl) = self.templates.records.get(name.as_str()) {
                    proof {
                        assert(self.deep_view().templates.records[name@] == decl.deep_view());
                        let call = seq![t] + expr::trees(args@);
                        assert(call.skip(1) =~= expr::trees(args@));
                        assert(decl.deep_view().type_params.len() == decl.type_params@.len());
                    }
                    match self.unify_against_record_fields(
                        decl,
                        args,
                        scope,
                        call_span,
                        st,
                        Ghost(seq![t] + expr::trees(args@)),
                    ) {
                        Some(subst) => {
                            let concrete = args_bound(&decl.type_params, &subst);
                            let copy = st.intern_record_mono(name.as_str(), concrete);
                            Expr::Var(copy, ty.dup()).with_span(span)
                        },
                        None => callee,
                    }
                } else {
                    match self.rewrite_machine_callee(
                        name.as_str(),
                        args,
                        scope,
                        ret_hint,
                        call_span,
                        st,
                    ) {
                        Some(copy) => Expr::Var(copy, ty.dup()).with_span(span),
                        None => callee,
                    }
                }
            },
            _ => callee,
        }
    }
}

// ── enum constructors ──────────────────────────────────────────────────────

/// The type arguments of an enum that an annotation names.
pub struct Hint {
    pub name: String,
    pub args: Vec<Type>,
}

#[verifier::ext_equal]
pub struct HintV {
    pub name: Text,
    pub args: Seq<TypeV>,
}

impl DeepView for Hint {
    type V = HintV;

    open spec fn deep_view(&self) -> HintV {
        HintV { name: self.name@, args: self.args.deep_view() }
    }
}

/// The innermost of the first `n` hints for an enum; nothing where there is
/// none.
pub open spec fn hint_for(hints: Seq<HintV>, n: nat, name: Text) -> Seq<TypeV>
    decreases n,
{
    if n == 0 {
        Seq::empty()
    } else if hints[n - 1].name == name {
        hints[n - 1].args
    } else {
        hint_for(hints, (n - 1) as nat, name)
    }
}

/// The types that a variant's payload holds.
pub open spec fn payload_types(p: VariantPayloadV) -> Seq<TypeV> {
    match p {
        VariantPayloadV::NoPayload => Seq::empty(),
        VariantPayloadV::Tuple(ts) => substitute::inners(ts),
        VariantPayloadV::Record(fs) => Seq::new(fs.len(), |i: int| fs[i].1.inner),
    }
}

/// The types that the payload of the first variant called `name` holds,
/// among the variants from `from` on.
pub open spec fn variant_types(vs: Seq<Spanned<VariantV>>, name: Text, from: int) -> Seq<TypeV>
    decreases vs.len() - from,
{
    if from >= vs.len() {
        Seq::empty()
    } else if vs[from].inner.name.inner == name {
        payload_types(vs[from].inner.payload)
    } else {
        variant_types(vs, name, from + 1)
    }
}

/// What the type parameters of an enum stand for, as the first `n` arguments
/// of a constructor tell.
pub open spec fn ctor_bindings(
    env: EnvV,
    m: MonoV,
    declared: Seq<TypeV>,
    args: Seq<Tree>,
    n: nat,
    params: Seq<Text>,
    scope: Map<Text, TypeV>,
) -> Map<Text, TypeV>
    decreases n,
{
    if n == 0 {
        Map::empty()
    } else {
        let s = ctor_bindings(env, m, declared, args, (n - 1) as nat, params, scope);
        state::unified(
            m,
            declared[n - 1],
            infer::inferred(env, m, args[n - 1], scope),
            params,
            s,
        ).1
    }
}

/// E040: nothing fixes the type parameters of an enum.
pub open spec fn cannot_infer_enum(name: Text, span: SimpleSpan) -> ErrorV {
    error_handle::coded_error(
        "cannot infer type parameter(s) for enum `"@ + name
            + "` — annotate the binding (e.g. `let x EnumName[T] = ...`)"@,
        span,
        "E040"@,
    )
}

/// The constructor `name.field`, taken from the copy `copy`.
pub open spec fn ctor_of(callee: Tree, copy: Text) -> Tree {
    Tree { kids: seq![expr::leaf(Head::Var(copy, TypeV::Unknown), callee.kids[0].span)], ..callee }
}

/// A constructor of a generic enum, taken from the copy that the call asks
/// for; nothing where the callee is no such constructor or its type
/// arguments are not known.
pub open spec fn enum_ctor(
    env: EnvV,
    m: MonoV,
    callee: Tree,
    args: Seq<Tree>,
    scope: Map<Text, TypeV>,
    hints: Seq<HintV>,
    span: SimpleSpan,
) -> (Option<Tree>, MonoV) {
    if callee.head is DotAccess && callee.kids.len() == 1 && callee.kids[0].head is Var
        && env.templates.enums.contains_key(callee.kids[0].head->Var_0) {
        let name = callee.kids[0].head->Var_0;
        let field = callee.head->DotAccess_0;
        let decl = env.templates.enums[name];
        let hint = hint_for(hints, hints.len(), name);
        if hint.len() > 0 {
            let (copy, m2) = state::enum_asked(m, name, hint);
            (Some(ctor_of(callee, copy)), m2)
        } else {
            let declared = variant_types(decl.variants, field.inner, 0);
            let s = ctor_bindings(
                env,
                m,
                declared,
                args,
                protos::shorter(declared.len(), args.len()),
                state::param_texts(decl.type_params),
                scope,
            );
            if unbound_index(decl.type_params, s, 0) >= decl.type_params.len() {
                let (copy, m2) = state::enum_asked(
                    m,
                    name,
                    substitute::bound_args(decl.type_params, s),
                );
                (Some(ctor_of(callee, copy)), m2)
            } else {
                (None, reported(m, cannot_infer_enum(name, span)))
            }
        }
    } else {
        (None, m)
    }
}

fn find_hint(hints: &Vec<Hint>, name: &str) -> (r: Vec<Type>)
    ensures
        r.deep_view() == hint_for(hints.deep_view(), hints@.len(), name@),
{
    let ghost hv = hints.deep_view();
    let mut n: usize = hints.len();
    while n > 0
        invariant
            n <= hints@.len(),
            hv == hints.deep_view(),
            hint_for(hv, hints@.len(), name@) == hint_for(hv, n as nat, name@),
        decreases n,
    {
        proof {
            assert(hv[n - 1] == hints@[n - 1].deep_view());
        }
        if same(hints[n - 1].name.as_str(), name) {
            return dup_plain_types(&hints[n - 1].args);
        }
        n = n - 1;
    }
    let out: Vec<Type> = Vec::new();
    proof {
        assert(out.deep_view() =~= Seq::<TypeV>::empty());
    }
    out
}

/// A copy of a list of types.
pub fn dup_plain_types(ts: &Vec<Type>) -> (r: Vec<Type>)
    ensures
        r.deep_view() == ts.deep_view(),
{
    let mut out: Vec<Type> = Vec::new();
    let mut i: usize = 0;
    while i < ts.len()
        invariant
            i <= ts.len(),
            out@.len() == i,
            forall|j: int|
                0 <= j < i ==> ast::type_view(#[trigger] out@[j]) == ast::type_view(ts@[j]),
        decreases ts.len() - i,
    {
        out.push(ts[i].dup());
        i = i + 1;
    }
    proof {
        assert(out.deep_view() =~= ts.deep_view());
    }
    out
}

fn payload_type_list(p: &VariantPayload) -> (r: Vec<Type>)
    ensures
        r.deep_view() == payload_types(p.deep_view()),
{
    match p {
        VariantPayload::NoPayload => {
            let out: Vec<Type> = Vec::new();
            proof {
                assert(out.deep_view() =~= Seq::<TypeV>::empty());
            }
            out
        },
        VariantPayload::Tuple(ts) => {
            proof {
                ast::types_view_is_deep_view(*ts);
            }
            substitute::inner_types(ts)
        },
        VariantPayload::Record(fs) => {
            let mut out: Vec<Type> = Vec::new();
            let mut i: usize = 0;
            while i < fs.len()
                invariant
                    i <= fs.len(),
                    out@.len() == i,
                    forall|j: int|
                        0 <= j < i ==> ast::type_view(#[trigger] out@[j]) == ast::type_view(
                            fs@[j].1.inner,
                        ),
                decreases fs.len() - i,
            {
                out.push(fs[i].1.inner.dup());
                i = i + 1;
            }
            proof {
                assert(out.deep_view() =~= payload_types(p.deep_view()));
            }
            out
        },
    }
}

fn variant_type_list(vs: &Vec<Spanned<Variant>>, name: &str) -> (r: Vec<Type>)
    ensures
        r.deep_view() == variant_types(vs.deep_view(), name@, 0),
{
    let ghost vv = vs.deep_view();
    let mut i: usize = 0;
    while i < vs.len()
        invariant
            i <= vs.len(),
            vv == vs.deep_view(),
            variant_types(vv, name@, 0) == variant_types(vv, name@, i as int),
        decreases vs.len() - i,
    {
        proof {
            assert(vv[i as int] == vs@[i as int].deep_view());
        }
        if same(vs[i].inner.name.inner.0.as_str(), name) {
            return payload_type_list(&vs[i].inner.payload);
        }
        i = i + 1;
    }
    let out: Vec<Type> = Vec::new();
    proof {
        assert(out.deep_view() =~= Seq::<TypeV>::empty());
    }
    out
}

impl<'a> MonoCx<'a> {
    fn bind_ctor_args(
        &self,
        declared: &Vec<Type>,
        args: &Vec<Spanned<Expr>>,
        params: &Vec<Spanned<Ident>>,
        scope: &NameMap<Type>,
        st: &MonoState,
    ) -> (r: NameMap<Type>)
        requires
            self.deep_view().reg.wf(),
        ensures
            r.deep_view() == ctor_bindings(
                self.deep_view(),
                st.deep_view(),
                declared.deep_view(),
                expr::trees(args@),
                protos::shorter(declared@.len(), args@.len()),
                state::param_texts(params.deep_view()),
                scope.deep_view(),
            ),
    {
        let ghost env = self.deep_view();
        let ghost m = st.deep_view();
        let ghost dv = declared.deep_view();
        let ghost ts = expr::trees(args@);
        let ghost ps = state::param_texts(params.deep_view());
        let ghost sv = scope.deep_view();
        let mut subst: NameMap<Type> = NameMap::new();
        proof {
            assert(subst.deep_view() =~= Map::<Text, TypeV>::empty());
        }
        let mut i: usize = 0;
        while i < declared.len() && i < args.len()
            invariant
                i <= declared@.len(),
                i <= args@.len(),
                env == self.deep_view(),
                env.reg.wf(),
                m == st.deep_view(),
                dv == declared.deep_view(),
                ts == expr::trees(args@),
                ps == state::param_texts(params.deep_view()),
                sv == scope.deep_view(),
                subst.deep_view() == ctor_bindings(env, m, dv, ts, i as nat, ps, sv),
            decreases declared.len() - i,
        {
            proof {
                assert(dv[i as int] == ast::type_view(declared@[i as int]));
                assert(ts[i as int] == expr::tree_of(args@[i as int]));
            }
            let actual = self.infer_expr_type(&args[i], scope, st);
            let _ = st.unify(&declared[i], &actual, params, &mut subst);
            i = i + 1;
        }
        subst
    }

    fn ctor_args(
        &self,
        name: &str,
        field: &str,
        decl: &EnumDecl,
        args: &Vec<Spanned<Expr>>,
        scope: &NameMap<Type>,
        st: &MonoState,
    ) -> (r: Option<Vec<Type>>)
        requires
            self.deep_view().reg.wf(),
        ensures
            ({
                let dv = decl.deep_view();
                let declared = variant_types(dv.variants, field@, 0);
                let s = ctor_bindings(
                    self.deep_view(),
                    st.deep_view(),
                    declared,
                    expr::trees(args@),
                    protos::shorter(declared.len(), args@.len()),
                    state::param_texts(dv.type_params),
                    scope.deep_view(),
                );
                match r {
                    Some(concrete) => unbound_index(dv.type_params, s, 0) >= dv.type_params.len()
                        && concrete.deep_view() == substitute::bound_args(dv.type_params, s),
                    None => unbound_index(dv.type_params, s, 0) < dv.type_params.len(),
                }
            }),
    {
        let declared = variant_type_list(&decl.variants, field);
        proof {
            assert(declared.deep_view().len() == declared@.len());
            assert(decl.deep_view().type_params.len() == decl.type_params@.len());
        }
        let subst = self.bind_ctor_args(&declared, args, &decl.type_params, scope, st);
        if find_unbound(&decl.type_params, &subst) < decl.type_params.len() {
            None
        } else {
            Some(args_bound(&decl.type_params, &subst))
        }
    }

    /// Rewrite `Enum.Variant` whose head is a generic enum to the concrete
    /// copy.  An annotation of the binding decides the type arguments, else
    /// the arguments of the constructor.
    pub fn maybe_rewrite_enum_dot_ctor(
        &self,
        callee: &Spanned<Expr>,
        args: &Vec<Spanned<Expr>>,
        scope: &NameMap<Type>,
        hints: &Vec<Hint>,
        call_span: SimpleSpan,
        st: &mut MonoState,
    ) -> (r: Option<Spanned<Expr>>)
        requires
            self.deep_view().reg.wf(),
        ensures
            ({
                let (ctor, m) = enum_ctor(
                    self.deep_view(),
                    old(st).deep_view(),
                    expr::tree_of(*callee),
                    expr::trees(args@),
                    scope.deep_view(),
                    hints.deep_view(),
                    call_span,
                );
                final(st).deep_view() == m && match r {
                    Some(e) => ctor == Some(expr::tree_of(e)),
                    None => ctor is None,
                }
            }),
    {
        let ghost t = expr::tree_of(*callee);
        match &callee.inner {
            Expr::DotAccess { receiver, field } => {
                proof {
                    assert(t.kids == seq![expr::tree_of(**receiver)]);
                    assert(t.kids[0] == expr::tree_of(**receiver));
                    assert(expr::trees(args@).len() == args@.len());
                }
                match &receiver.inner {
                    Expr::Var(name, _) => match self.templates.enums.get(name.as_str()) {
                        None => None,
                        Some(decl) => {
                            proof {
                                assert(self.deep_view().templates.enums[name@]
                                    == decl.deep_view());
                            }
                            let hint = find_hint(hints, name.as_str());
                            proof {
                                assert(hint.deep_view().len() == hint@.len());
                            }
                            let concrete = if hint.len() > 0 {
                                hint
                            } else {
                                match self.ctor_args(
                                    name.as_str(),
                                    field.inner.0.as_str(),
                                    decl,
                                    args,
                                    scope,
                                    st,
                                ) {
                                    Some(concrete) => concrete,
                                    None => {
                                        let msg = cat3(
                                            "cannot infer type parameter(s) for enum `",
                                            name.as_str(),
                                            "` — annotate the binding (e.g. `let x EnumName[T] = ...`)",
                                        );
                                        st.report(
                                            LakeError::new(msg.as_str(), call_span).code("E040"),
                                        );
                                        return None;
                                    },
                                }
                            };
                            let copy = st.intern_enum_mono(name.as_str(), concrete);
                            let head = Expr::Var(copy, Type::Unknown).with_span(receiver.span);
                            let r = Expr::DotAccess {
                                receiver: Box::new(head),
                                field: dup_ident(field),
                            }.with_span(callee.span);
                            proof {
                                assert(expr::tree_of(r).kids =~= seq![expr::tree_of(head)]);
                                assert(expr::tree_of(r) == ctor_of(t, copy@));
                            }
                            Some(r)
                        },
                    },
                    _ => None,
                }
            },
            _ => None,
        }
    }

    /// Whether `recv[i]` on a receiver of this type calls a method.
    pub fn is_indexable_via_proto(&self, ty: &Type, st: &MonoState) -> (r: bool)
        requires
            self.deep_view().reg.wf(),
        ensures
            r == indexed_by_method(self.deep_view(), st.deep_view(), ast::type_view(*ty)),
    {
        match ty {
            Type::NamedGeneric { .. } => true,
            Type::Named(name) => {
                let n = name.inner.0.as_str();
                if same(n, "buf") {
                    return false;
                }
                let record = match self.registry.resolve_bare_in(ModuleId(0), n) {
                    Some(Resolution::Record(_)) => true,
                    _ => false,
                };
                record || self.registry.lookup_enum_in(ModuleId(0), n).is_some() || any_inst(
                    &st.records,
                    n,
                ) || any_inst(&st.enums, n)
            },
            _ => false,
        }
    }
}

/// Whether a value of this type is indexed by calling a method: records and
/// enums are, `buf` and everything else is not.
pub open spec fn indexed_by_method(env: EnvV, m: MonoV, ty: TypeV) -> bool {
    match ty {
        TypeV::NamedGeneric(_, _) => true,
        TypeV::Named(id) => id.inner != "buf"@ && (env.reg.resolved(
            ModuleId(0),
            id.inner,
        ) matches Some(ResolutionV::Record(_)) || env.reg.enum_in(ModuleId(0), id.inner) is Some
            || state::has_inst(m.records, id.inner) || state::has_inst(m.enums, id.inner)),
        _ => false,
    }
}

} // verus!
