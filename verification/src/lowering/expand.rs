//! Expanding calls of pure machines in place.

use vstd::prelude::*;

use crate::api::ast;
use crate::api::ast::{dup_ident, dup_type, Branch, Ident, Pattern, PatternV, Type};
use crate::api::expr;
use crate::api::expr::{dup_expr, dup_exprs, kids_of, Expr, Head, Tree};
use crate::lowering::lift;
use crate::lowering::lift::{lift_nested_calls, Fresh};
use crate::lowering::passes;
use crate::lowering::passes::Rename;
use crate::lowering::pure;
use crate::lowering::pure::{KeyTable, PureBodyTemplate, RetKey, RetKeyV, TemplateV};
use crate::lowering::tuples::join_bodies;
use crate::name_map;
use crate::name_map::NameMap;
use crate::registry;
use crate::registry::{ModuleId, ProgramRegistry, RegistryV, Resolution, ResolutionV};
use crate::rewrite;
use crate::rewrite::{rewrite_all, Pass};
use crate::span::{SimpleSpan, SpanWrap, Spanned};
use crate::text;
use crate::text::{cat, cat3, decimal_text, Text};

verus! {

// ── names that a body binds ────────────────────────────────────────────────

/// The positions that are searched for bindings.
pub open spec fn binds_in(head: Head, i: int) -> bool {
    match head {
        Head::Let(_, _) | Head::Ret | Head::Pin | Head::Neg | Head::Bin(_) | Head::Tuple
        | Head::TupleIndex(_) | Head::Index | Head::When | Head::Handler(_) => true,
        Head::Jump | Head::Arm | Head::Wait => i >= 1,
        _ => false,
    }
}

/// The names that `let`s inside `t` bind.
pub open spec fn bound(t: Tree) -> Set<Text>
    decreases t, 0nat,
{
    let inside = bound_kids(t.head, t.kids, t.kids.len());
    match t.head {
        Head::Let(ident, _) => inside.insert(ident.inner),
        _ => inside,
    }
}

/// The names that the first `n` subtrees below `head` bind.
pub open spec fn bound_kids(head: Head, ts: Seq<Tree>, n: nat) -> Set<Text>
    decreases ts, n,
{
    if n == 0 || n > ts.len() {
        Set::empty()
    } else {
        let before = bound_kids(head, ts, (n - 1) as nat);
        if binds_in(head, n - 1) {
            before.union(bound(ts[n - 1]))
        } else {
            before
        }
    }
}

/// The names that the first `n` statements of a body bind.
pub open spec fn bound_all(body: Seq<Tree>, n: nat) -> Set<Text>
    decreases n,
{
    if n == 0 {
        Set::empty()
    } else {
        bound_all(body, (n - 1) as nat).union(bound(body[n - 1]))
    }
}

/// The name that stands for `name` at inlining number `id`.
pub open spec fn inl_name(id: u32, name: Text) -> Text {
    "__inl_"@ + text::decimal(id as nat) + "_"@ + name
}

/// Fresh names for all names of a set.
pub open spec fn fresh_names(id: u32, names: Set<Text>) -> Map<Text, Text> {
    Map::new(|k: Text| names.contains(k), |k: Text| inl_name(id, k))
}

fn inl_name_text(id: u32, name: &str) -> (r: String)
    ensures
        r@ == inl_name(id, name@),
{
    let prefix = cat3("__inl_", decimal_text(id as u64).as_str(), "_");
    cat(prefix.as_str(), name)
}

fn add_name(map: &mut NameMap<String>, id: u32, name: &str, Ghost(names): Ghost<Set<Text>>)
    requires
        old(map).deep_view() == fresh_names(id, names),
    ensures
        final(map).deep_view() == fresh_names(id, names.insert(name@)),
{
    let fresh = inl_name_text(id, name);
    let ghost before = *map;
    map.insert(name.to_owned(), fresh);
    proof {
        name_map::insert_deep(before, *map, name@, fresh);
        assert(map.deep_view() =~= fresh_names(id, names.insert(name@)));
    }
}

fn collect_let_names_in_expr(
    e: &Spanned<Expr>,
    map: &mut NameMap<String>,
    id: u32,
    Ghost(names): Ghost<Set<Text>>,
)
    requires
        old(map).deep_view() == fresh_names(id, names),
    ensures
        final(map).deep_view() == fresh_names(id, names.union(bound(expr::tree_of(*e)))),
    decreases expr::tree_of(*e), 0nat,
{
    let ghost t = expr::tree_of(*e);
    match &e.inner {
        Expr::When { cond, branches } => {
            let ghost av = expr::arms_view(branches@);
            let ghost c = expr::tree_of(**cond);
            proof {
                assert(t.kids == seq![c] + av);
                assert(t.kids[0] == c);
                assert(t.kids.skip(1) =~= av);
                assert(decreases_to!(t => t.kids[0]));
                assert(decreases_to!(t => t.kids.skip(1)));
            }
            collect_let_names_in_expr(cond, map, id, Ghost(names));
            collect_in_arms(branches, map, id, Ghost(names.union(bound(c))));
            proof {
                bound_after_first(Head::When, c, av, av.len());
                assert(names.union(bound(c)).union(bound_kids(Head::When, av, av.len()))
                    =~= names.union(bound(t)));
            }
        },
        Expr::Wait { handlers, filter } => {
            let ghost hv = expr::handlers_view(handlers@);
            let ghost f = t.kids[0];
            proof {
                assert(t.kids == seq![f] + hv);
                assert(t.kids.skip(1) =~= hv);
                assert(decreases_to!(t => t.kids.skip(1)));
            }
            collect_in_handlers(handlers, map, id, Ghost(names));
            proof {
                bound_after_filter(f, hv, hv.len());
                assert(names.union(bound_kids(Head::When, hv, hv.len())) =~= names.union(bound(t)));
            }
        },
        other => {
            let kids = kids_of(other);
            proof {
                assert(t.kids == expr::ref_trees(kids@));
                assert(decreases_to!(t => t.kids));
            }
            collect_in_kids(other, kids, map, id, Ghost(names), Ghost(t));
            let ghost so_far = names.union(bound_kids(t.head, t.kids, t.kids.len()));
            if let Expr::Let { ident, .. } = other {
                add_name(map, id, ident.inner.0.as_str(), Ghost(so_far));
            }
            proof {
                if t.head is Let {
                    assert(so_far.insert(t.head->Let_0.inner) =~= names.union(bound(t)));
                }
            }
        },
    }
}

proof fn bound_after_first(head: Head, first: Tree, rest: Seq<Tree>, n: nat)
    requires
        head is When,
        n <= rest.len(),
    ensures
        bound_kids(head, seq![first] + rest, n + 1) == bound(first).union(
            bound_kids(head, rest, n),
        ),
    decreases n,
{
    let all = seq![first] + rest;
    if n > 0 {
        bound_after_first(head, first, rest, (n - 1) as nat);
        assert(all[n as int] == rest[n - 1]);
        assert(bound(first).union(bound_kids(head, rest, (n - 1) as nat)).union(bound(rest[n - 1]))
            =~= bound(first).union(
            bound_kids(head, rest, (n - 1) as nat).union(bound(rest[n - 1])),
        ));
    } else {
        assert(bound_kids(head, all, 0) =~= Set::<Text>::empty());
        assert(all[0] == first);
        assert(Set::<Text>::empty().union(bound(first)) =~= bound(first).union(
            bound_kids(head, rest, 0),
        ));
    }
}

proof fn bound_after_filter(first: Tree, rest: Seq<Tree>, n: nat)
    requires
        n <= rest.len(),
    ensures
        bound_kids(Head::Wait, seq![first] + rest, n + 1) == bound_kids(Head::When, rest, n),
    decreases n,
{
    let all = seq![first] + rest;
    if n > 0 {
        bound_after_filter(first, rest, (n - 1) as nat);
        assert(all[n as int] == rest[n - 1]);
    } else {
        assert(bound_kids(Head::Wait, all, 0) =~= Set::<Text>::empty());
    }
}

fn looks_for_names(e: &Expr, i: usize) -> (r: bool)
    requires
        !(e is When),
        !(e is Wait),
    ensures
        forall|span: SimpleSpan| r == binds_in((#[trigger] expr::tree(*e, span)).head, i as int),
{
    match e {
        Expr::Num(_, _) | Expr::String(_, _) | Expr::Bool(_) | Expr::Unit | Expr::Var(_, _)
        | Expr::Path(_) | Expr::Atom(_) | Expr::LetTuple { .. } | Expr::MethodCall { .. }
        | Expr::AtAccess { .. } | Expr::DotAccess { .. } | Expr::StructInit { .. }
        | Expr::RecordLiteral { .. } => false,
        Expr::Jump { .. } => i >= 1,
        _ => true,
    }
}

fn collect_in_kids<'a>(
    e: &'a Expr,
    kids: Vec<&'a Spanned<Expr>>,
    map: &mut NameMap<String>,
    id: u32,
    Ghost(names): Ghost<Set<Text>>,
    Ghost(t): Ghost<Tree>,
)
    requires
        t == expr::tree(*e, t.span),
        t.kids == expr::ref_trees(kids@),
        !(e is When),
        !(e is Wait),
        old(map).deep_view() == fresh_names(id, names),
    ensures
        final(map).deep_view() == fresh_names(
            id,
            names.union(bound_kids(t.head, t.kids, t.kids.len())),
        ),
    decreases t.kids, 1nat,
{
    let mut i: usize = 0;
    proof {
        assert(names.union(bound_kids(t.head, t.kids, 0)) =~= names);
    }
    while i < kids.len()
        invariant
            i <= kids.len(),
            t == expr::tree(*e, t.span),
            t.kids == expr::ref_trees(kids@),
            !(e is When),
            !(e is Wait),
            map.deep_view() == fresh_names(id, names.union(bound_kids(t.head, t.kids, i as nat))),
        decreases kids.len() - i,
    {
        let ghost so_far = names.union(bound_kids(t.head, t.kids, i as nat));
        proof {
            assert(t.kids[i as int] == expr::tree_of(*kids@[i as int]));
            assert(decreases_to!(t.kids => t.kids[i as int]));
            assert(so_far.union(bound(t.kids[i as int])) =~= names.union(
                bound_kids(t.head, t.kids, i as nat).union(bound(t.kids[i as int])),
            ));
        }
        if looks_for_names(e, i) {
            collect_let_names_in_expr(kids[i], map, id, Ghost(so_far));
        }
        i = i + 1;
    }
}

fn collect_in_arms(
    arms: &Vec<(Spanned<Expr>, Vec<Spanned<Expr>>)>,
    map: &mut NameMap<String>,
    id: u32,
    Ghost(names): Ghost<Set<Text>>,
)
    requires
        old(map).deep_view() == fresh_names(id, names),
    ensures
        final(map).deep_view() == fresh_names(
            id,
            names.union(bound_kids(Head::When, expr::arms_view(arms@), arms@.len())),
        ),
    decreases expr::arms_view(arms@), 1nat,
{
    let ghost av = expr::arms_view(arms@);
    let mut i: usize = 0;
    proof {
        assert(names.union(bound_kids(Head::When, av, 0)) =~= names);
    }
    while i < arms.len()
        invariant
            i <= arms.len(),
            av == expr::arms_view(arms@),
            map.deep_view() == fresh_names(id, names.union(bound_kids(Head::When, av, i as nat))),
        decreases arms.len() - i,
    {
        let ghost so_far = names.union(bound_kids(Head::When, av, i as nat));
        let ghost p = av[i as int];
        let ghost b = expr::trees(arms@[i as int].1@);
        proof {
            assert(p == expr::arm_tree(expr::tree_of(arms@[i as int].0), b));
            assert(p.kids.skip(1) =~= b);
            assert(decreases_to!(av => p));
            assert(decreases_to!(av => p.kids));
            assert(decreases_to!(av => p.kids.skip(1)));
        }
        collect_local_let_names(&arms[i].1, map, id, Ghost(so_far));
        proof {
            bound_in_arm(p.kids[0], b, b.len());
            assert(bound(p) == bound_all(b, b.len()));
            assert(so_far.union(bound(p)) =~= names.union(
                bound_kids(Head::When, av, i as nat).union(bound(p)),
            ));
        }
        i = i + 1;
    }
}

proof fn bound_in_arm(pat: Tree, body: Seq<Tree>, n: nat)
    requires
        n <= body.len(),
    ensures
        bound_kids(Head::Arm, seq![pat] + body, n + 1) == bound_all(body, n),
    decreases n,
{
    let all = seq![pat] + body;
    if n > 0 {
        bound_in_arm(pat, body, (n - 1) as nat);
        assert(all[n as int] == body[n - 1]);
    } else {
        assert(bound_kids(Head::Arm, all, 0) =~= Set::<Text>::empty());
    }
}

proof fn bound_in_handler(h: Head, body: Seq<Tree>, n: nat)
    requires
        h is Handler,
        n <= body.len(),
    ensures
        bound_kids(h, body, n) == bound_all(body, n),
    decreases n,
{
    if n > 0 {
        bound_in_handler(h, body, (n - 1) as nat);
    }
}

fn collect_in_handlers(
    hs: &Vec<Spanned<Branch>>,
    map: &mut NameMap<String>,
    id: u32,
    Ghost(names): Ghost<Set<Text>>,
)
    requires
        old(map).deep_view() == fresh_names(id, names),
    ensures
        final(map).deep_view() == fresh_names(
            id,
            names.union(bound_kids(Head::When, expr::handlers_view(hs@), hs@.len())),
        ),
    decreases expr::handlers_view(hs@), 1nat,
{
    let ghost hv = expr::handlers_view(hs@);
    let mut i: usize = 0;
    proof {
        assert(names.union(bound_kids(Head::When, hv, 0)) =~= names);
    }
    while i < hs.len()
        invariant
            i <= hs.len(),
            hv == expr::handlers_view(hs@),
            map.deep_view() == fresh_names(id, names.union(bound_kids(Head::When, hv, i as nat))),
        decreases hs.len() - i,
    {
        let ghost so_far = names.union(bound_kids(Head::When, hv, i as nat));
        let ghost p = hv[i as int];
        proof {
            assert(p.kids == expr::trees(hs@[i as int].inner.body@));
            assert(decreases_to!(hv => p));
            assert(decreases_to!(hv => p.kids));
        }
        collect_local_let_names(&hs[i].inner.body, map, id, Ghost(so_far));
        proof {
            bound_in_handler(p.head, p.kids, p.kids.len());
            assert(bound(p) == bound_all(p.kids, p.kids.len()));
            assert(so_far.union(bound(p)) =~= names.union(
                bound_kids(Head::When, hv, i as nat).union(bound(p)),
            ));
        }
        i = i + 1;
    }
}

/// Adds fresh names for the names that the `let`s of a body bind.
fn collect_local_let_names(
    body: &Vec<Spanned<Expr>>,
    map: &mut NameMap<String>,
    id: u32,
    Ghost(names): Ghost<Set<Text>>,
)
    requires
        old(map).deep_view() == fresh_names(id, names),
    ensures
        final(map).deep_view() == fresh_names(
            id,
            names.union(bound_all(expr::trees(body@), body@.len())),
        ),
    decreases expr::trees(body@), 1nat,
{
    let ghost ts = expr::trees(body@);
    let mut i: usize = 0;
    proof {
        assert(names.union(bound_all(ts, 0)) =~= names);
    }
    while i < body.len()
        invariant
            i <= body.len(),
            ts == expr::trees(body@),
            map.deep_view() == fresh_names(id, names.union(bound_all(ts, i as nat))),
        decreases body.len() - i,
    {
        let ghost so_far = names.union(bound_all(ts, i as nat));
        proof {
            assert(ts[i as int] == expr::tree_of(body@[i as int]));
            assert(decreases_to!(ts => ts[i as int]));
            assert(so_far.union(bound(ts[i as int])) =~= names.union(
                bound_all(ts, i as nat).union(bound(ts[i as int])),
            ));
        }
        collect_let_names_in_expr(&body[i], map, id, Ghost(so_far));
        i = i + 1;
    }
}

} // verus!

verus! {

// ── the context of a module ────────────────────────────────────────────────

/// What is known while the bodies of a module are lowered.
pub struct LowerCx<'a> {
    pub registry: &'a ProgramRegistry,
    pub module_id: ModuleId,
    pub ret_machines: &'a KeyTable<String>,
    /// The machines whose calls are expanded in place.
    pub pure_bodies: &'a KeyTable<PureBodyTemplate>,
}

#[verifier::ext_equal]
pub struct CxV {
    pub reg: RegistryV,
    pub id: ModuleId,
    pub ret: Seq<(RetKeyV, Text)>,
    pub pure: Seq<(RetKeyV, TemplateV)>,
}

impl<'a> DeepView for LowerCx<'a> {
    type V = CxV;

    open spec fn deep_view(&self) -> CxV {
        CxV {
            reg: self.registry.deep_view(),
            id: self.module_id,
            ret: self.ret_machines.deep_view(),
            pure: self.pure_bodies.deep_view(),
        }
    }
}

/// A template comes from a module that exists and ends in a `ret`.
pub open spec fn template_ok(t: TemplateV, reg: RegistryV) -> bool {
    reg.has(t.origin_module) && t.body.len() > 0 && t.body.last().head is Ret
}

/// All templates of a table are in order.
pub open spec fn templates_ok(table: Seq<(RetKeyV, TemplateV)>, reg: RegistryV) -> bool {
    forall|i: int| 0 <= i < table.len() ==> template_ok((#[trigger] table[i]).1, reg)
}

impl CxV {
    pub open spec fn wf(self) -> bool {
        self.reg.wf() && self.reg.has(self.id) && templates_ok(self.pure, self.reg)
    }

    /// The template of the machine that `name` denotes in module `scope`.
    pub open spec fn pure_in(self, scope: ModuleId, name: Text) -> Option<TemplateV> {
        match self.reg.resolved(scope, name) {
            Some(ResolutionV::Machine(m)) => pure::key_lookup(
                self.pure,
                RetKeyV { module: self.reg.scope(m.module).path, name },
            ),
            _ => None,
        }
    }
}

/// What a callee is called: a variable's name or a path's last segment.
pub open spec fn callee_name(t: Tree) -> Option<Text> {
    match t.head {
        Head::Var(name, _) => Some(name),
        Head::Path(segs) => Some(
            if segs.len() > 0 {
                segs.last().inner
            } else {
                ""@
            },
        ),
        _ => None,
    }
}

/// The template that a statement `let r = f(args)` is expanded by.
pub open spec fn template_for(cx: CxV, t: Tree, scope: ModuleId) -> Option<TemplateV> {
    if t.head is Let && t.kids.len() == 1 && t.kids[0].head is Jump && t.kids[0].kids.len() > 0 {
        match callee_name(t.kids[0].kids[0]) {
            Some(name) => match cx.pure_in(scope, name) {
                Some(tm) => if tm.params.len() == t.kids[0].kids.len() - 1 {
                    Some(tm)
                } else {
                    None
                },
                None => None,
            },
            None => None,
        }
    } else {
        None
    }
}

/// The names of the first `n` parameters.
pub open spec fn param_names(params: Seq<Spanned<PatternV>>, n: nat) -> Set<Text>
    decreases n,
{
    if n == 0 {
        Set::empty()
    } else {
        param_names(params, (n - 1) as nat).insert(params[n - 1].inner.ident.inner)
    }
}

/// The names that an expansion of a template renames.
pub open spec fn template_names(tm: TemplateV) -> Set<Text> {
    param_names(tm.params, tm.params.len()).union(bound_all(tm.body, tm.body.len()))
}

/// The `let`s that bind the first `n` parameters to their arguments.
pub open spec fn arg_lets(
    params: Seq<Spanned<PatternV>>,
    args: Seq<Tree>,
    n: nat,
    id: u32,
    span: SimpleSpan,
) -> Seq<Tree>
    decreases n,
{
    if n == 0 {
        Seq::empty()
    } else {
        let p = params[n - 1].inner;
        arg_lets(params, args, (n - 1) as nat, id, span).push(
            expr::node(
                Head::Let(Spanned { inner: inl_name(id, p.ident.inner), span }, p.ty),
                span,
                seq![args[n - 1]],
            ),
        )
    }
}

/// What `let r = f(args)` expands to: bindings of the parameters, the
/// statements of the machine, and `let r` of what it returns.
pub open spec fn inlined_let(tm: TemplateV, t: Tree, id: u32) -> Seq<Tree> {
    let names = fresh_names(id, template_names(tm));
    let body = rewrite::rewritten_all(passes::rename_rule(names), tm.body);
    arg_lets(tm.params, t.kids[0].kids.skip(1), tm.params.len(), id, t.span) + body.drop_last()
        + seq![Tree { kids: seq![body.last().kids[0]], ..t }]
}

/// A body with the calls of pure machines expanded, up to `fuel` deep.
pub open spec fn inlined(
    cx: CxV,
    body: Seq<Tree>,
    scope: ModuleId,
    next: u32,
    fuel: nat,
) -> (Seq<Tree>, u32)
    decreases fuel, 0nat,
{
    if cx.pure.len() == 0 || fuel == 0 {
        (body, next)
    } else {
        let lifted = lift::lifted_body(body, body.len(), next);
        inlined_stmts(
            cx,
            lifted.lifts,
            lifted.lifts.len(),
            scope,
            lifted.next,
            (fuel - 1) as nat,
        )
    }
}

/// The first `n` statements, with the calls of pure machines expanded.
/// What an expansion brings in is looked at from the module it comes from.
pub open spec fn inlined_stmts(
    cx: CxV,
    body: Seq<Tree>,
    n: nat,
    scope: ModuleId,
    next: u32,
    fuel: nat,
) -> (Seq<Tree>, u32)
    decreases fuel, n,
{
    if n == 0 {
        (Seq::empty(), next)
    } else {
        let (before, c) = inlined_stmts(cx, body, (n - 1) as nat, scope, next, fuel);
        let t = body[n - 1];
        match template_for(cx, t, scope) {
            Some(tm) => {
                let (these, c2) = inlined(
                    cx,
                    inlined_let(tm, t, c),
                    tm.origin_module,
                    lift::succ(c),
                    fuel,
                );
                (before + these, c2)
            },
            None => (before.push(t), c),
        }
    }
}

// ── executable side ────────────────────────────────────────────────────────

fn callee_name_text<'b>(callee: &'b Spanned<Expr>) -> (r: Option<&'b str>)
    ensures
        match r {
            Some(s) => callee_name(expr::tree_of(*callee)) == Some(s@),
            None => callee_name(expr::tree_of(*callee)) is None,
        },
{
    match &callee.inner {
        Expr::Var(name, _) => Some(name.as_str()),
        Expr::Path(segs) => {
            let n = segs.len();
            if n > 0 {
                proof {
                    assert(segs.deep_view().last() == segs@[n - 1].deep_view());
                }
                Some(segs[n - 1].inner.0.as_str())
            } else {
                Some("")
            }
        },
        _ => None,
    }
}

/// Splits a body whose last statement is a `ret` into the statements before
/// it and the value that it returns.
fn split_final_ret(body: Vec<Spanned<Expr>>) -> (r: (Vec<Spanned<Expr>>, Spanned<Expr>))
    requires
        body@.len() > 0,
        expr::trees(body@).last().head is Ret,
    ensures
        expr::trees(r.0@) == expr::trees(body@).drop_last(),
        expr::tree_of(r.1) == expr::trees(body@).last().kids[0],
{
    let ghost ts = expr::trees(body@);
    let ghost n = body@.len();
    let mut out = body;
    let last = out.pop().unwrap();
    proof {
        assert(ts.last() == expr::tree_of(last));
        assert(expr::trees(out@) =~= ts.drop_last());
    }
    match last.inner {
        Expr::Ret(value) => (out, *value),
        other => {
            proof {
                assert(expr::tree_of(last).head is Ret);
                assert(false);
            }
            (out, Spanned { inner: other, span: last.span })
        },
    }
}

/// A key is found only in an entry of the table.
pub proof fn found_template_is_ok(table: Seq<(RetKeyV, TemplateV)>, key: RetKeyV, reg: RegistryV)
    requires
        templates_ok(table, reg),
    ensures
        pure::key_lookup(table, key) matches Some(tm) ==> template_ok(tm, reg),
{
    let i = pure::key_index(table, key, 0);
    if 0 <= i < table.len() {
        assert(template_ok(table[i].1, reg));
    }
}

fn bind_args(
    params: &Vec<Spanned<Pattern>>,
    args: &Vec<Spanned<Expr>>,
    id: u32,
    span: SimpleSpan,
) -> (r: Vec<Spanned<Expr>>)
    requires
        params@.len() == args@.len(),
    ensures
        expr::trees(r@) == arg_lets(
            ast::patterns_view(params@),
            expr::trees(args@),
            params@.len(),
            id,
            span,
        ),
{
    let ghost pv = ast::patterns_view(params@);
    let ghost ts = expr::trees(args@);
    let mut out: Vec<Spanned<Expr>> = Vec::new();
    proof {
        assert(expr::trees(out@) =~= Seq::<Tree>::empty());
    }
    let mut i: usize = 0;
    while i < params.len()
        invariant
            i <= params.len(),
            params@.len() == args@.len(),
            pv == ast::patterns_view(params@),
            ts == expr::trees(args@),
            expr::trees(out@) == arg_lets(pv, ts, i as nat, id, span),
        decreases params.len() - i,
    {
        let ghost before = out@;
        proof {
            assert(pv[i as int].inner == ast::pattern_view(params@[i as int].inner));
            assert(ts[i as int] == expr::tree_of(args@[i as int]));
        }
        let p = &params[i].inner;
        let fresh = inl_name_text(id, p.ident.inner.0.as_str());
        let one = Expr::Let {
            ident: Ident(fresh).with_span(span),
            ty: dup_type(&p.ty),
            default: Some(Box::new(dup_expr(&args[i]))),
        }.with_span(span);
        let ghost t = expr::tree_of(one);
        out.push(one);
        proof {
            assert(expr::trees(out@) =~= expr::trees(before).push(t));
        }
        i = i + 1;
    }
    out
}

fn names_for(template: &PureBodyTemplate, id: u32) -> (r: NameMap<String>)
    ensures
        r.deep_view() == fresh_names(id, template_names(template.deep_view())),
{
    let ghost tm = template.deep_view();
    let mut map: NameMap<String> = NameMap::new();
    proof {
        assert(map.deep_view() =~= fresh_names(id, param_names(tm.params, 0)));
    }
    let mut i: usize = 0;
    while i < template.params.len()
        invariant
            i <= template.params.len(),
            tm == template.deep_view(),
            map.deep_view() == fresh_names(id, param_names(tm.params, i as nat)),
        decreases template.params.len() - i,
    {
        proof {
            assert(tm.params[i as int].inner == ast::pattern_view(
                template.params@[i as int].inner,
            ));
        }
        let ghost so_far = param_names(tm.params, i as nat);
        add_name(&mut map, id, template.params[i].inner.ident.inner.0.as_str(), Ghost(so_far));
        i = i + 1;
    }
    collect_local_let_names(
        &template.body,
        &mut map,
        id,
        Ghost(param_names(tm.params, tm.params.len())),
    );
    map
}

fn expand_template(
    template: &PureBodyTemplate,
    ident: &Spanned<Ident>,
    ty: &Spanned<Type>,
    args: &Vec<Spanned<Expr>>,
    span: SimpleSpan,
    id: u32,
    Ghost(t): Ghost<Tree>,
) -> (r: Vec<Spanned<Expr>>)
    requires
        template.deep_view().body.len() > 0,
        template.deep_view().body.last().head is Ret,
        template.params@.len() == args@.len(),
        t.head == Head::Let(ident.deep_view(), ty.deep_view()),
        t.span == span,
        t.kids.len() == 1,
        t.kids[0].kids.skip(1) == expr::trees(args@),
    ensures
        expr::trees(r@) == inlined_let(template.deep_view(), t, id),
{
    let ghost tm = template.deep_view();
    let names = names_for(template, id);
    let lets = bind_args(&template.params, args, id, span);
    let pass = Rename { names: &names };
    let body = rewrite_all(&pass, dup_exprs(&template.body));
    proof {
        let rule = passes::rename_rule(fresh_names(id, template_names(tm)));
        assert(pass.rule() == rule);
        let last = tm.body.last();
        assert(expr::trees(body@).last() == rewrite::rewritten(rule, last));
        assert(rewrite::rewritten(rule, last).head is Ret);
    }
    let (before, value) = split_final_ret(body);
    let last = Expr::Let {
        ident: dup_ident(ident),
        ty: dup_type(ty),
        default: Some(Box::new(value)),
    }.with_span(span);
    let ghost lt = expr::tree_of(last);
    let mut out = join_bodies(lets, before);
    let ghost so_far = out@;
    out.push(last);
    proof {
        assert(expr::trees(out@) =~= expr::trees(so_far) + seq![lt]);
    }
    out
}

impl<'a> LowerCx<'a> {
    /// Look up an inlineable machine by source-visible name, resolved in
    /// module `scope`.
    pub fn lookup_pure(&self, name: &str, scope: ModuleId) -> (r: Option<&'a PureBodyTemplate>)
        requires
            self.deep_view().wf(),
            self.deep_view().reg.has(scope),
        ensures
            match r {
                Some(tm) => self.deep_view().pure_in(scope, name@) == Some(tm.deep_view())
                    && template_ok(tm.deep_view(), self.deep_view().reg),
                None => self.deep_view().pure_in(scope, name@) is None,
            },
    {
        match self.registry.resolve_bare_in(scope, name) {
            Some(Resolution::Machine(m)) => {
                proof {
                    registry::resolved_machine_has_module(
                        self.registry.deep_view(),
                        scope,
                        name@,
                    );
                }
                let key = RetKey {
                    module: self.registry.module(m.module).path.dup(),
                    name: name.to_owned(),
                };
                proof {
                    found_template_is_ok(
                        self.pure_bodies.deep_view(),
                        key.deep_view(),
                        self.registry.deep_view(),
                    );
                }
                self.pure_bodies.get(&key)
            },
            _ => None,
        }
    }

    /// Expands a statement `let r = f(args)` whose callee is inlineable, and
    /// tells which module the expansion comes from.
    pub fn try_inline_pure_let(
        &self,
        stmt: &Spanned<Expr>,
        scope: ModuleId,
        fresh: &mut Fresh,
    ) -> (r: Option<(Vec<Spanned<Expr>>, ModuleId)>)
        requires
            self.deep_view().wf(),
            self.deep_view().reg.has(scope),
        ensures
            match r {
                Some((body, donor)) => {
                    &&& template_for(self.deep_view(), expr::tree_of(*stmt), scope) matches Some(tm)
                    &&& donor == tm.origin_module
                    &&& self.deep_view().reg.has(donor)
                    &&& expr::trees(body@) == inlined_let(
                        tm,
                        expr::tree_of(*stmt),
                        old(fresh).next,
                    )
                    &&& final(fresh).next == lift::succ(old(fresh).next)
                },
                None => template_for(self.deep_view(), expr::tree_of(*stmt), scope) is None
                    && final(fresh).next == old(fresh).next,
            },
    {
        let ghost t = expr::tree_of(*stmt);
        match &stmt.inner {
            Expr::Let { ident, ty, default: Some(rhs) } => {
                proof {
                    assert(t.kids == seq![expr::tree_of(**rhs)]);
                    assert(t.kids[0] == expr::tree_of(**rhs));
                }
                match &rhs.inner {
                    Expr::Jump { ident: callee, args } => {
                        proof {
                            let j = t.kids[0];
                            assert(j.kids == seq![expr::tree_of(**callee)] + expr::trees(args@));
                            assert(j.kids[0] == expr::tree_of(**callee));
                            assert(j.kids.skip(1) =~= expr::trees(args@));
                            assert(expr::trees(args@).len() == args@.len());
                        }
                        match callee_name_text(callee) {
                            None => None,
                            Some(name) => match self.lookup_pure(name, scope) {
                                None => None,
                                Some(template) => {
                                    proof {
                                        assert(template.deep_view().params.len()
                                            == template.params@.len());
                                    }
                                    if template.params.len() != args.len() {
                                        return None;
                                    }
                                    let id = fresh.fresh_id();
                                    let body = expand_template(
                                        template,
                                        ident,
                                        ty,
                                        args,
                                        stmt.span,
                                        id,
                                        Ghost(t),
                                    );
                                    Some((body, template.origin_module))
                                },
                            },
                        }
                    },
                    _ => None,
                }
            },
            _ => None,
        }
    }

    /// Expands the calls of pure machines in a body, and in what the
    /// expansions bring in.
    pub fn inline_pure_calls_in_scope(
        &self,
        body: Vec<Spanned<Expr>>,
        scope: ModuleId,
        fresh: &mut Fresh,
        fuel: u64,
    ) -> (r: Vec<Spanned<Expr>>)
        requires
            self.deep_view().wf(),
            self.deep_view().reg.has(scope),
        ensures
            (expr::trees(r@), final(fresh).next) == inlined(
                self.deep_view(),
                expr::trees(body@),
                scope,
                old(fresh).next,
                fuel as nat,
            ),
        decreases fuel,
    {
        let ghost cx = self.deep_view();
        if self.pure_bodies.entries.len() == 0 || fuel == 0 {
            return body;
        }
        let body = lift_nested_calls(body, fresh);
        let ghost es = body@;
        let ghost ts = expr::trees(es);
        let ghost start = fresh.next;
        let mut out: Vec<Spanned<Expr>> = Vec::new();
        proof {
            assert(expr::trees(out@) =~= Seq::<Tree>::empty());
        }
        for stmt in it: body
            invariant
                it.seq() == es,
                ts == expr::trees(es),
                cx == self.deep_view(),
                cx.wf(),
                cx.reg.has(scope),
                fuel > 0,
                (expr::trees(out@), fresh.next) == inlined_stmts(
                    cx,
                    ts,
                    it.index() as nat,
                    scope,
                    start,
                    (fuel - 1) as nat,
                ),
        {
            let ghost before = out@;
            proof {
                assert(ts[it.index() as int] == expr::tree_of(stmt));
            }
            match self.try_inline_pure_let(&stmt, scope, fresh) {
                Some((expanded, donor)) => {
                    let these = self.inline_pure_calls_in_scope(expanded, donor, fresh, fuel - 1);
                    out = join_bodies(out, these);
                },
                None => {
                    let ghost t = expr::tree_of(stmt);
                    out.push(stmt);
                    proof {
                        assert(expr::trees(out@) =~= expr::trees(before).push(t));
                    }
                },
            }
        }
        out
    }
}

} // verus!
