//! Types of expressions, as far as they can be read off before resolution.

use vstd::prelude::*;

use crate::api::ast;
use crate::api::ast::{
    dup_ident, Ident, Machine, MachineItem, MachineItemV, MachineV, RecordDecl, RecordFieldV, Type,
    TypeV,
};
use crate::api::expr;
use crate::api::expr::{Expr, Head, Tree};
use crate::mono::protos;
use crate::mono::protos::find_template;
use crate::mono::state;
use crate::mono::state::{any_inst, EnvV, MachineTemplateV, MonoCx, MonoState, MonoV};
use crate::mono::types;
use crate::mono::types::{src_named, substitute_type_pure};
use crate::name_map;
use crate::name_map::NameMap;
use crate::registry::{ModuleId, Resolution, ResolutionV, Signature, SignatureV};
use crate::span::{SpanWrap, Spanned};
use crate::text::{same, Text};

verus! {

/// The literal type, unless the literal already has one.
pub open spec fn or_named(ty: TypeV, name: Text) -> TypeV {
    if ty is Unknown {
        types::plain_named(name)
    } else {
        ty
    }
}

/// The type of a variable.
pub open spec fn var_type(name: Text, ty: TypeV, scope: Map<Text, TypeV>) -> TypeV {
    if !(ty is Unknown) {
        ty
    } else if scope.contains_key(name) {
        scope[name]
    } else {
        TypeV::Unknown
    }
}

/// The enum whose constructor is taken from `receiver`.
pub open spec fn ctor_type(env: EnvV, m: MonoV, receiver: Tree) -> Option<TypeV> {
    match receiver.head {
        Head::Var(name, _) => if state::has_inst(m.enums, name) || env.reg.enum_in(
            ModuleId(0),
            name,
        ) is Some {
            Some(types::plain_named(name))
        } else {
            None
        },
        _ => None,
    }
}

/// The template called `base` that takes `n` type arguments, else the first
/// of that name.
pub open spec fn fitting_index(ms: Seq<MachineTemplateV>, base: Text, n: nat) -> int {
    let i = arity_index(ms, base, n, 0);
    if i < ms.len() {
        i
    } else {
        protos::template_index(ms, base, 0)
    }
}

/// The first template from `from` on that is called `base` and takes `n`
/// type arguments.
pub open spec fn arity_index(ms: Seq<MachineTemplateV>, base: Text, n: nat, from: int) -> int
    decreases ms.len() - from,
{
    if from >= ms.len() || (ms[from].decl.ident.inner == base && ms[from].decl.generics.len()
        == n) {
        from
    } else {
        arity_index(ms, base, n, from + 1)
    }
}

/// What the first `n` type parameters stand for in a copy.
pub open spec fn inst_subst(generics: Seq<Spanned<Text>>, args: Seq<Text>, n: nat) -> Map<
    Text,
    TypeV,
>
    decreases n,
{
    if n == 0 {
        Map::empty()
    } else {
        inst_subst(generics, args, (n - 1) as nat).insert(
            generics[n - 1].inner,
            types::plain_named(args[n - 1]),
        )
    }
}

/// The return type of the first branch that has one, among the items from
/// `from` on.
pub open spec fn first_ret_type(items: Seq<Spanned<MachineItemV>>, from: int) -> Option<TypeV>
    decreases items.len() - from,
{
    if from >= items.len() {
        None
    } else {
        match items[from].inner {
            MachineItemV::Branch(b) => match b.head.ret_ty {
                Some(t) => Some(t.inner),
                None => first_ret_type(items, from + 1),
            },
            MachineItemV::Field(_) => first_ret_type(items, from + 1),
        }
    }
}

/// What a copy of a machine returns.
pub open spec fn copy_ret(decl: MachineV, args: Seq<Text>) -> TypeV {
    match first_ret_type(decl.items, 0) {
        Some(t) => types::replaced(
            t,
            inst_subst(
                decl.generics,
                args,
                protos::shorter(decl.generics.len(), args.len()),
            ),
        ),
        None => types::plain_named("pid"@),
    }
}

/// What the copy of a machine called `name` returns, among the copies from
/// `from` on.
pub open spec fn inst_ret(env: EnvV, m: MonoV, name: Text, from: int) -> Option<TypeV>
    decreases m.machines.len() - from,
{
    if from >= m.machines.len() {
        None
    } else {
        let c = m.machines[from];
        let ms = env.templates.machines;
        let i = fitting_index(ms, c.base, c.args.len());
        if c.name == name && 0 <= i < ms.len() {
            Some(copy_ret(ms[i].decl, c.args))
        } else {
            inst_ret(env, m, name, from + 1)
        }
    }
}

/// Whether every branch of a machine gives a pid.
pub open spec fn gives_pid(env: EnvV, name: Text) -> bool {
    match env.reg.resolved(ModuleId(0), name) {
        Some(ResolutionV::Machine(mm)) => all_pid(mm.branches),
        _ => false,
    }
}

/// Whether all signatures give a pid.
pub open spec fn all_pid(branches: Seq<SignatureV>) -> bool {
    forall|i: int| 0 <= i < branches.len() ==> (#[trigger] branches[i]).ret == "pid"@
}

/// What a call of the machine or record copy `name` gives.
pub open spec fn named_call_type(env: EnvV, m: MonoV, name: Text) -> TypeV {
    if state::has_inst(m.records, name) {
        types::plain_named(name)
    } else if gives_pid(env, name) {
        types::plain_named("pid"@)
    } else {
        match inst_ret(env, m, name, 0) {
            Some(t) => t,
            None => TypeV::Unknown,
        }
    }
}

/// The type arguments of a generic record, as far as they are known.
pub open spec fn known_args(params: Seq<Spanned<Text>>, subst: Map<Text, TypeV>) -> Seq<
    Spanned<TypeV>,
> {
    Seq::new(
        params.len(),
        |i: int|
            Spanned {
                inner: if subst.contains_key(params[i].inner) {
                    subst[params[i].inner]
                } else {
                    TypeV::Unknown
                },
                span: params[i].span,
            },
    )
}

/// The type of an expression.
pub open spec fn inferred(env: EnvV, m: MonoV, t: Tree, scope: Map<Text, TypeV>) -> TypeV
    decreases t, 0nat,
{
    match t.head {
        Head::Num(_, ty) => or_named(ty, "i64"@),
        Head::Str(_, ty) => or_named(ty, "str"@),
        Head::Bool(_) => types::plain_named("bool"@),
        Head::Atom(_) => types::plain_named("atom"@),
        Head::Unit => TypeV::Unit,
        Head::Var(name, ty) => var_type(name, ty, scope),
        Head::Bin(op) => if (op is Add || op is Sub || op is Mul || op is Div) && t.kids.len()
            > 0 {
            inferred(env, m, t.kids[0], scope)
        } else {
            types::plain_named("i64"@)
        },
        Head::Neg => if t.kids.len() > 0 {
            inferred(env, m, t.kids[0], scope)
        } else {
            TypeV::Unknown
        },
        Head::Index => types::plain_named("i64"@),
        Head::Tuple => TypeV::Struct(inferred_all(env, m, t.kids, scope)),
        Head::Jump => if t.kids.len() > 0 {
            let callee = t.kids[0];
            match callee.head {
                Head::DotAccess(_) => if callee.kids.len() > 0 && ctor_type(
                    env,
                    m,
                    callee.kids[0],
                ) is Some {
                    ctor_type(env, m, callee.kids[0])->0
                } else {
                    TypeV::Unknown
                },
                Head::Var(name, _) => {
                    let records = env.templates.records;
                    if records.contains_key(name) && records[name].fields.len() == t.kids.len()
                        - 1 {
                        let decl = records[name];
                        TypeV::NamedGeneric(
                            decl.ident,
                            known_args(
                                decl.type_params,
                                field_bindings(
                                    env,
                                    m,
                                    decl.fields,
                                    t.kids,
                                    t.kids.len(),
                                    state::param_texts(decl.type_params),
                                    scope,
                                ),
                            ),
                        )
                    } else {
                        named_call_type(env, m, name)
                    }
                },
                _ => TypeV::Unknown,
            }
        } else {
            TypeV::Unknown
        },
        Head::DotAccess(_) => if t.kids.len() > 0 && ctor_type(env, m, t.kids[0]) is Some {
            ctor_type(env, m, t.kids[0])->0
        } else {
            TypeV::Unknown
        },
        _ => TypeV::Unknown,
    }
}

/// The types of a list of expressions.
pub open spec fn inferred_all(env: EnvV, m: MonoV, ts: Seq<Tree>, scope: Map<Text, TypeV>) -> Seq<
    Spanned<TypeV>,
>
    decreases ts, 0nat,
{
    Seq::new(
        ts.len(),
        |i: int|
            if 0 <= i < ts.len() {
                Spanned { inner: inferred(env, m, ts[i], scope), span: ts[i].span }
            } else {
                arbitrary()
            },
    )
}

/// What the type parameters of a record stand for, as the arguments of a
/// constructor call tell: `call[0]` is the callee and `call[1..n]` the
/// arguments looked at.
pub open spec fn field_bindings(
    env: EnvV,
    m: MonoV,
    fields: Seq<Spanned<RecordFieldV>>,
    call: Seq<Tree>,
    n: nat,
    params: Seq<Text>,
    scope: Map<Text, TypeV>,
) -> Map<Text, TypeV>
    decreases call, n,
{
    if n <= 1 || n > call.len() {
        Map::empty()
    } else {
        let s = field_bindings(env, m, fields, call, (n - 1) as nat, params, scope);
        state::unified(
            m,
            fields[n - 2].inner.ty.inner,
            inferred(env, m, call[n - 1], scope),
            params,
            s,
        ).1
    }
}

// ── executable side ────────────────────────────────────────────────────────

fn or_named_type(ty: &Type, name: &str) -> (r: Type)
    ensures
        ast::type_view(r) == or_named(ast::type_view(*ty), name@),
{
    if matches!(ty, Type::Unknown) {
        src_named(name)
    } else {
        ty.dup()
    }
}

fn find_arity(ms: &Vec<state::MachineTemplate>, base: &str, n: usize) -> (r: usize)
    ensures
        r == arity_index(ms.deep_view(), base@, n as nat, 0),
        r <= ms@.len(),
{
    let ghost mv = ms.deep_view();
    let mut i: usize = 0;
    while i < ms.len()
        invariant
            i <= ms.len(),
            mv == ms.deep_view(),
            arity_index(mv, base@, n as nat, 0) == arity_index(mv, base@, n as nat, i as int),
        decreases ms.len() - i,
    {
        proof {
            assert(mv[i as int] == ms@[i as int].deep_view());
            assert(mv[i as int].decl.generics.len() == ms@[i as int].decl.generics@.len());
        }
        if same(ms[i].decl.ident.inner.0.as_str(), base) && ms[i].decl.generics.len() == n {
            return i;
        }
        i = i + 1;
    }
    i
}

fn find_ret_type<'b>(items: &'b Vec<Spanned<MachineItem>>) -> (r: Option<&'b Type>)
    ensures
        match r {
            Some(t) => first_ret_type(items.deep_view(), 0) == Some(ast::type_view(*t)),
            None => first_ret_type(items.deep_view(), 0) is None,
        },
{
    let ghost iv = items.deep_view();
    let mut i: usize = 0;
    while i < items.len()
        invariant
            i <= items.len(),
            iv == items.deep_view(),
            first_ret_type(iv, 0) == first_ret_type(iv, i as int),
        decreases items.len() - i,
    {
        proof {
            assert(iv[i as int] == items@[i as int].deep_view());
        }
        if let MachineItem::Branch(b) = &items[i].inner {
            if let Some(t) = &b.ret_ty {
                return Some(&t.inner);
            }
        }
        i = i + 1;
    }
    None
}

fn subst_of_inst(generics: &Vec<Spanned<Ident>>, args: &Vec<String>) -> (r: NameMap<Type>)
    ensures
        r.deep_view() == inst_subst(
            generics.deep_view(),
            args.deep_view(),
            protos::shorter(generics@.len(), args@.len()),
        ),
{
    let ghost gv = generics.deep_view();
    let ghost av = args.deep_view();
    let mut map: NameMap<Type> = NameMap::new();
    proof {
        assert(map.deep_view() =~= inst_subst(gv, av, 0));
    }
    let mut i: usize = 0;
    while i < generics.len() && i < args.len()
        invariant
            i <= generics@.len(),
            i <= args@.len(),
            gv == generics.deep_view(),
            av == args.deep_view(),
            map.deep_view() == inst_subst(gv, av, i as nat),
        decreases generics.len() - i,
    {
        proof {
            assert(gv[i as int].inner == generics@[i as int].inner.0@);
            assert(av[i as int] == args@[i as int]@);
        }
        let ghost before = map;
        let ty = src_named(args[i].as_str());
        map.insert(generics[i].inner.0.clone(), ty);
        proof {
            name_map::insert_deep(before, map, generics@[i as int].inner.0@, ty);
        }
        i = i + 1;
    }
    map
}

fn copy_ret_type(decl: &Machine, args: &Vec<String>) -> (r: Type)
    ensures
        ast::type_view(r) == copy_ret(decl.deep_view(), args.deep_view()),
{
    match find_ret_type(&decl.items) {
        Some(t) => {
            let subst = subst_of_inst(&decl.generics, args);
            substitute_type_pure(t, &subst)
        },
        None => src_named("pid"),
    }
}

fn all_give_pid(branches: &Vec<Signature>) -> (r: bool)
    ensures
        r == all_pid(branches.deep_view()),
{
    let ghost bv = branches.deep_view();
    let mut i: usize = 0;
    while i < branches.len()
        invariant
            i <= branches.len(),
            bv == branches.deep_view(),
            forall|j: int| 0 <= j < i ==> (#[trigger] bv[j]).ret == "pid"@,
        decreases branches.len() - i,
    {
        proof {
            assert(bv[i as int] == branches@[i as int].deep_view());
        }
        if !same(branches[i].ret.as_str(), "pid") {
            return false;
        }
        i = i + 1;
    }
    true
}

impl<'a> MonoCx<'a> {
    fn ctor_enum(&self, receiver: &Spanned<Expr>, st: &MonoState) -> (r: Option<Type>)
        requires
            self.deep_view().reg.wf(),
        ensures
            r.deep_view() == ctor_type(
                self.deep_view(),
                st.deep_view(),
                expr::tree_of(*receiver),
            ),
    {
        match &receiver.inner {
            Expr::Var(name, _) => {
                if any_inst(&st.enums, name.as_str()) || self.registry.lookup_enum_in(
                    ModuleId(0),
                    name.as_str(),
                ).is_some() {
                    Some(src_named(name.as_str()))
                } else {
                    None
                }
            },
            _ => None,
        }
    }

    fn machine_gives_pid(&self, name: &str) -> (r: bool)
        requires
            self.deep_view().reg.wf(),
        ensures
            r == gives_pid(self.deep_view(), name@),
    {
        match self.registry.resolve_bare_in(ModuleId(0), name) {
            Some(Resolution::Machine(m)) => {
                all_give_pid(&m.branches)
            },
            _ => false,
        }
    }

    fn copy_return(&self, name: &str, st: &MonoState) -> (r: Option<Type>)
        ensures
            r.deep_view() == inst_ret(self.deep_view(), st.deep_view(), name@, 0),
    {
        let ghost env = self.deep_view();
        let ghost m = st.deep_view();
        let ms = &self.templates.machines;
        let mut i: usize = 0;
        while i < st.machines.len()
            invariant
                i <= st.machines.len(),
                env == self.deep_view(),
                m == st.deep_view(),
                ms == self.templates.machines,
                inst_ret(env, m, name@, 0) == inst_ret(env, m, name@, i as int),
            decreases st.machines.len() - i,
        {
            let c = &st.machines[i];
            proof {
                assert(m.machines[i as int] == c.deep_view());
                assert(c.deep_view().args.len() == c.args@.len());
            }
            if same(c.name.as_str(), name) {
                let exact = find_arity(ms, c.base.as_str(), c.args.len());
                let at = if exact < ms.len() {
                    exact
                } else {
                    find_template(ms, c.base.as_str(), 0)
                };
                if at < ms.len() {
                    proof {
                        assert(env.templates.machines[at as int] == ms@[at as int].deep_view());
                    }
                    return Some(copy_ret_type(&ms[at].decl, &c.args));
                }
            }
            i = i + 1;
        }
        None
    }

    fn type_of_named_call(&self, name: &str, st: &MonoState) -> (r: Type)
        requires
            self.deep_view().reg.wf(),
        ensures
            ast::type_view(r) == named_call_type(self.deep_view(), st.deep_view(), name@),
    {
        if any_inst(&st.records, name) {
            return src_named(name);
        }
        if self.machine_gives_pid(name) {
            return src_named("pid");
        }
        match self.copy_return(name, st) {
            Some(t) => t,
            None => Type::Unknown,
        }
    }

    /// Infer an expression's static type: literals and variables carry
    /// theirs; everything that cannot be read off is unknown.
    pub fn infer_expr_type(
        &self,
        e: &Spanned<Expr>,
        scope: &NameMap<Type>,
        st: &MonoState,
    ) -> (r: Type)
        requires
            self.deep_view().reg.wf(),
        ensures
            ast::type_view(r) == inferred(
                self.deep_view(),
                st.deep_view(),
                expr::tree_of(*e),
                scope.deep_view(),
            ),
        decreases expr::tree_of(*e), 0nat,
    {
        let ghost t = expr::tree_of(*e);
        match &e.inner {
            Expr::Num(_, ty) => or_named_type(ty, "i64"),
            Expr::String(_, ty) => or_named_type(ty, "str"),
            Expr::Bool(_) => src_named("bool"),
            Expr::Atom(_) => src_named("atom"),
            Expr::Unit => Type::Unit,
            Expr::Var(name, ty) => {
                if !matches!(ty, Type::Unknown) {
                    return ty.dup();
                }
                match scope.get(name.as_str()) {
                    Some(found) => found.dup(),
                    None => Type::Unknown,
                }
            },
            Expr::Add(l, _) | Expr::Sub(l, _) | Expr::Mul(l, _) | Expr::Div(l, _) => {
                proof {
                    assert(t.kids[0] == expr::tree_of(**l));
                    assert(decreases_to!(t => t.kids[0]));
                }
                self.infer_expr_type(l, scope, st)
            },
            Expr::Neg(i) => {
                proof {
                    assert(t.kids[0] == expr::tree_of(**i));
                    assert(decreases_to!(t => t.kids[0]));
                }
                self.infer_expr_type(i, scope, st)
            },
            Expr::Eq(_, _) | Expr::Le(_, _) | Expr::Ge(_, _) | Expr::Lt(_, _) | Expr::Gt(_, _)
            | Expr::BAnd(_, _) | Expr::BOr(_, _) | Expr::BXor(_, _) | Expr::Shl(_, _)
            | Expr::Shr(_, _) => src_named("i64"),
            Expr::Index { .. } => src_named("i64"),
            Expr::Tuple(elems) => {
                proof {
                    assert(t.kids == expr::trees(elems@));
                    assert(decreases_to!(t => t.kids));
                }
                Type::Struct(self.infer_all(elems, scope, st))
            },
            Expr::Jump { ident, args } => {
                proof {
                    assert(t.kids == seq![expr::tree_of(**ident)] + expr::trees(args@));
                    assert(t.kids[0] == expr::tree_of(**ident));
                    assert(t.kids.skip(1) =~= expr::trees(args@));
                    assert(decreases_to!(t => t.kids));
                    assert(t.kids.len() == args@.len() + 1);
                }
                match &ident.inner {
                    Expr::DotAccess { receiver, .. } => {
                        proof {
                            assert(t.kids[0].kids[0] == expr::tree_of(**receiver));
                        }
                        match self.ctor_enum(receiver, st) {
                            Some(ty) => ty,
                            None => Type::Unknown,
                        }
                    },
                    Expr::Var(name, _) => {
                        if let Some(decl) = self.templates.records.get(name.as_str()) {
                            proof {
                                assert(self.deep_view().templates.records[name@]
                                    == decl.deep_view());
                                assert(decl.deep_view().fields.len() == decl.fields@.len());
                            }
                            if decl.fields.len() == args.len() {
                                let subst = self.bind_fields(
                                    decl,
                                    args,
                                    scope,
                                    st,
                                    Ghost(t.kids),
                                );
                                return Type::NamedGeneric {
                                    name: dup_ident(&decl.ident),
                                    args: known_arg_types(&decl.type_params, &subst),
                                };
                            }
                        }
                        self.type_of_named_call(name.as_str(), st)
                    },
                    _ => Type::Unknown,
                }
            },
            Expr::DotAccess { receiver, .. } => {
                proof {
                    assert(t.kids[0] == expr::tree_of(**receiver));
                }
                match self.ctor_enum(receiver, st) {
                    Some(ty) => ty,
                    None => Type::Unknown,
                }
            },
            _ => Type::Unknown,
        }
    }

    fn infer_all(&self, es: &Vec<Spanned<Expr>>, scope: &NameMap<Type>, st: &MonoState) -> (r: Vec<
        Spanned<Type>,
    >)
        requires
            self.deep_view().reg.wf(),
        ensures
            ast::types_view(r@) == inferred_all(
                self.deep_view(),
                st.deep_view(),
                expr::trees(es@),
                scope.deep_view(),
            ),
        decreases expr::trees(es@), 1nat,
    {
        let ghost env = self.deep_view();
        let ghost m = st.deep_view();
        let ghost ts = expr::trees(es@);
        let ghost sv = scope.deep_view();
        let mut out: Vec<Spanned<Type>> = Vec::new();
        let mut i: usize = 0;
        while i < es.len()
            invariant
                i <= es.len(),
                env == self.deep_view(),
                env.reg.wf(),
                m == st.deep_view(),
                ts == expr::trees(es@),
                sv == scope.deep_view(),
                out@.len() == i,
                forall|j: int|
                    0 <= j < i ==> ast::type_view((#[trigger] out@[j]).inner) == inferred(
                        env,
                        m,
                        ts[j],
                        sv,
                    ) && out@[j].span == ts[j].span,
            decreases es.len() - i,
        {
            proof {
                assert(ts[i as int] == expr::tree_of(es@[i as int]));
                assert(decreases_to!(ts => ts[i as int]));
            }
            out.push(self.infer_expr_type(&es[i], scope, st).with_span(es[i].span));
            i = i + 1;
        }
        proof {
            assert(ast::types_view(out@) =~= inferred_all(env, m, ts, sv));
        }
        out
    }

    /// What the type parameters of a record stand for in a constructor call.
    pub(crate) fn bind_fields(
        &self,
        decl: &RecordDecl,
        args: &Vec<Spanned<Expr>>,
        scope: &NameMap<Type>,
        st: &MonoState,
        Ghost(call): Ghost<Seq<Tree>>,
    ) -> (r: NameMap<Type>)
        requires
            self.deep_view().reg.wf(),
            decl.fields@.len() == args@.len(),
            call.len() == args@.len() + 1,
            call.skip(1) == expr::trees(args@),
        ensures
            r.deep_view() == field_bindings(
                self.deep_view(),
                st.deep_view(),
                decl.deep_view().fields,
                call,
                call.len(),
                state::param_texts(decl.deep_view().type_params),
                scope.deep_view(),
            ),
        decreases call, 0nat,
    {
        let ghost env = self.deep_view();
        let ghost m = st.deep_view();
        let ghost fv = decl.deep_view().fields;
        let ghost ps = state::param_texts(decl.deep_view().type_params);
        let ghost sv = scope.deep_view();
        let mut subst: NameMap<Type> = NameMap::new();
        proof {
            assert(subst.deep_view() =~= Map::<Text, TypeV>::empty());
        }
        let mut i: usize = 0;
        while i < args.len()
            invariant
                i <= args.len(),
                env == self.deep_view(),
                env.reg.wf(),
                m == st.deep_view(),
                fv == decl.deep_view().fields,
                ps == state::param_texts(decl.deep_view().type_params),
                sv == scope.deep_view(),
                decl.fields@.len() == args@.len(),
                call.len() == args@.len() + 1,
                call.skip(1) == expr::trees(args@),
                subst.deep_view() == field_bindings(env, m, fv, call, (i + 1) as nat, ps, sv),
            decreases args.len() - i,
        {
            proof {
                assert(call[i + 1] == call.skip(1)[i as int]);
                assert(call[i + 1] == expr::tree_of(args@[i as int]));
                assert(decreases_to!(call => call[i + 1]));
                assert(fv[i as int] == decl.fields@[i as int].deep_view());
            }
            let actual = self.infer_expr_type(&args[i], scope, st);
            let _ = st.unify(&decl.fields[i].inner.ty.inner, &actual, &decl.type_params, &mut subst);
            i = i + 1;
        }
        subst
    }
}

fn known_arg_types(params: &Vec<Spanned<Ident>>, subst: &NameMap<Type>) -> (r: Vec<Spanned<Type>>)
    ensures
        ast::types_view(r@) == known_args(params.deep_view(), subst.deep_view()),
{
    let ghost pv = params.deep_view();
    let ghost sv = subst.deep_view();
    let mut out: Vec<Spanned<Type>> = Vec::new();
    let mut i: usize = 0;
    while i < params.len()
        invariant
            i <= params.len(),
            pv == params.deep_view(),
            sv == subst.deep_view(),
            out@.len() == i,
            forall|j: int|
                0 <= j < i ==> ast::type_view((#[trigger] out@[j]).inner) == known_args(
                    pv,
                    sv,
                )[j].inner && out@[j].span == pv[j].span,
        decreases params.len() - i,
    {
        proof {
            assert(pv[i as int] == params@[i as int].deep_view());
        }
        let ty = match subst.get(params[i].inner.0.as_str()) {
            Some(t) => t.dup(),
            None => Type::Unknown,
        };
        out.push(ty.with_span(params[i].span));
        i = i + 1;
    }
    proof {
        assert(ast::types_view(out@) =~= known_args(pv, sv));
    }
    out
}

} // verus!
