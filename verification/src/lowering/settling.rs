//! Telling whether a program is lowered already.

use vstd::prelude::*;

use crate::api::ast::{Branch, BranchV, Item, ItemV, Machine, MachineItem, MachineItemV};
use crate::api::expr;
use crate::api::expr::{kids_of, Expr};
use crate::inspect::{check, Ask, Property};
use crate::loader::{ParsedModule, ParsedProgram};
use crate::lowering::expand::LowerCx;
use crate::lowering::lift::is_flat;
use crate::lowering::program;
use crate::lowering::program::starts_with_caller;
use crate::lowering::pure;
use crate::lowering::pure::{collect_ret_machines, KeyTable, PureBodyTemplate};
use crate::lowering::settled;
use crate::lowering::synth::is_var_named;
use crate::lowering::tuples;
use crate::lowering::tuples::arity_to_split;
use crate::registry;
use crate::registry::{ModuleId, ProgramRegistry, Resolution};
use crate::span::Spanned;

verus! {

/// Checks that a rewriting pass finds nothing to change.
pub struct Calm<'a> {
    pub registry: &'a ProgramRegistry,
    pub module_id: ModuleId,
    pub is_ret: bool,
}

impl<'a> Property for Calm<'a> {
    open spec fn ready(&self) -> bool {
        self.registry.deep_view().wf() && self.registry.deep_view().has(self.module_id)
    }

    open spec fn ask(&self) -> Ask {
        settled::calm(self.registry.deep_view(), self.module_id, self.is_ret)
    }

    fn check_local(&self, e: &Spanned<Expr>) -> (r: bool) {
        let ghost t = expr::tree_of(*e);
        match &e.inner {
            Expr::Path(segments) => self.registry.resolve_path(self.module_id, segments).is_none(),
            Expr::Var(name, _) => {
                match self.registry.resolve_bare_in(self.module_id, name.as_str()) {
                    Some(Resolution::Const(_)) => false,
                    _ => true,
                }
            },
            Expr::Ret(_) => false,
            Expr::Jump { ident, args } => {
                proof {
                    assert(t.kids == seq![expr::tree_of(**ident)] + expr::trees(args@));
                    if args@.len() > 0 {
                        assert(expr::trees(args@)[0] == expr::tree_of(args@[0]));
                        assert(t.kids[1] == expr::tree_of(args@[0]));
                    }
                }
                let is_self = is_var_named(&ident.inner, "self");
                let threaded = args.len() > 0 && is_var_named(&args[0].inner, "__caller");
                !self.is_ret || !is_self || threaded
            },
            _ => true,
        }
    }

    fn check_covers(&self, e: &Expr, i: usize) -> (r: bool) {
        true
    }
}

fn looks_into(e: &Expr) -> (r: bool)
    requires
        !(e is When),
        !(e is Wait),
    ensures
        forall|span: crate::span::SimpleSpan|
            r == tuples::looks_inside((#[trigger] expr::tree(*e, span)).head),
{
    matches!(
        e,
        Expr::Let { .. } | Expr::Jump { .. } | Expr::Tuple(_) | Expr::TupleIndex { .. }
            | Expr::Ret(_) | Expr::Pin(_) | Expr::Neg(_)
    )
}

impl<'a> LowerCx<'a> {
    fn stmt_is_settled(&self, e: &Spanned<Expr>, is_ret: bool) -> (r: bool)
        requires
            self.deep_view().wf(),
        ensures
            r == settled::settled_stmt(self.deep_view(), expr::tree_of(*e), is_ret),
    {
        let ghost t = expr::tree_of(*e);
        let plain = match &e.inner {
            Expr::LetTuple { .. } | Expr::Pin(_) => false,
            Expr::When { cond, branches } => {
                proof {
                    assert(t.kids[0] == expr::tree_of(**cond));
                    assert(t.kids.skip(1) =~= expr::arms_view(branches@));
                }
                arity_to_split(cond, branches) == 0
            },
            Expr::Jump { .. } => self.ret_target(e).is_none(),
            _ => true,
        };
        if !plain || self.is_let_with_ret_target(e) || !is_flat(e) {
            return false;
        }
        let calm = Calm { registry: self.registry, module_id: self.module_id, is_ret };
        check(&calm, e)
    }

    fn inside_is_settled(&self, e: &Spanned<Expr>, is_ret: bool) -> (r: bool)
        requires
            self.deep_view().wf(),
        ensures
            r == settled::settled_inside(self.deep_view(), expr::tree_of(*e), is_ret),
        decreases expr::tree_of(*e), 0nat,
    {
        let ghost cx = self.deep_view();
        let ghost t = expr::tree_of(*e);
        match &e.inner {
            Expr::When { cond, branches } => {
                let ghost av = expr::arms_view(branches@);
                proof {
                    assert(t.kids == seq![expr::tree_of(**cond)] + av);
                    assert(t.kids[0] == expr::tree_of(**cond));
                    assert(t.kids.skip(1) =~= av);
                    assert(decreases_to!(t => t.kids[0]));
                    assert(decreases_to!(t => t.kids.skip(1)));
                }
                if !self.inside_is_settled(cond, is_ret) {
                    return false;
                }
                let r = self.arms_are_settled(branches, is_ret);
                proof {
                    assert forall|k: int| 1 <= k < t.kids.len() implies #[trigger] t.kids[k]
                        == av[k - 1] by {}
                    if !r {
                        let k = choose|k: int|
                            0 <= k < av.len() && !settled::settled_inside(
                                cx,
                                #[trigger] av[k],
                                is_ret,
                            );
                        assert(t.kids[k + 1] == av[k]);
                    }
                }
                r
            },
            Expr::Wait { handlers, filter } => {
                let ghost hv = expr::handlers_view(handlers@);
                let ghost f = t.kids[0];
                proof {
                    assert(t.kids == seq![f] + hv);
                    assert(t.kids.skip(1) =~= hv);
                    assert(f.head is Filter);
                    assert(f.kids == expr::trees(filter@));
                    assert(decreases_to!(t => t.kids.skip(1)));
                    assert(decreases_to!(t => t.kids[0]));
                    assert(decreases_to!(t.kids[0] => t.kids[0].kids));
                }
                let a = self.all_inside_settled(filter, is_ret);
                proof {
                    assert(a == settled::settled_inside(cx, f, is_ret));
                }
                if !a {
                    return false;
                }
                let r = self.handlers_are_settled(handlers, is_ret);
                proof {
                    assert forall|k: int| 1 <= k < t.kids.len() implies #[trigger] t.kids[k]
                        == hv[k - 1] by {}
                    if !r {
                        let k = choose|k: int|
                            0 <= k < hv.len() && !settled::settled_inside(
                                cx,
                                #[trigger] hv[k],
                                is_ret,
                            );
                        assert(t.kids[k + 1] == hv[k]);
                    }
                }
                r
            },
            other => {
                if !looks_into(other) {
                    return true;
                }
                let kids = kids_of(other);
                proof {
                    assert(t.kids == expr::ref_trees(kids@));
                    assert(decreases_to!(t => t.kids));
                }
                let mut i: usize = 0;
                while i < kids.len()
                    invariant
                        i <= kids.len(),
                        cx == self.deep_view(),
                        cx.wf(),
                        t == expr::tree_of(*e),
                        tuples::looks_inside(t.head),
                        !(t.head is Arm),
                        !(t.head is Handler),
                        t.kids == expr::ref_trees(kids@),
                        forall|j: int|
                            0 <= j < i ==> settled::settled_inside(
                                cx,
                                #[trigger] t.kids[j],
                                is_ret,
                            ),
                    decreases kids.len() - i,
                {
                    proof {
                        assert(t.kids[i as int] == expr::tree_of(*kids@[i as int]));
                        assert(decreases_to!(t => t.kids[i as int]));
                    }
                    if !self.inside_is_settled(kids[i], is_ret) {
                        proof {
                            assert(!settled::settled_inside(cx, t.kids[i as int], is_ret));
                        }
                        return false;
                    }
                    i = i + 1;
                }
                true
            },
        }
    }

    fn all_inside_settled(&self, es: &Vec<Spanned<Expr>>, is_ret: bool) -> (r: bool)
        requires
            self.deep_view().wf(),
        ensures
            r == (forall|k: int|
                0 <= k < es@.len() ==> settled::settled_inside(
                    self.deep_view(),
                    #[trigger] expr::trees(es@)[k],
                    is_ret,
                )),
        decreases expr::trees(es@), 1nat,
    {
        let ghost cx = self.deep_view();
        let ghost ts = expr::trees(es@);
        let mut i: usize = 0;
        while i < es.len()
            invariant
                i <= es.len(),
                cx == self.deep_view(),
                cx.wf(),
                ts == expr::trees(es@),
                forall|k: int|
                    0 <= k < i ==> settled::settled_inside(cx, #[trigger] ts[k], is_ret),
            decreases es.len() - i,
        {
            proof {
                assert(ts[i as int] == expr::tree_of(es@[i as int]));
                assert(decreases_to!(ts => ts[i as int]));
            }
            if !self.inside_is_settled(&es[i], is_ret) {
                proof {
                    assert(!settled::settled_inside(cx, ts[i as int], is_ret));
                }
                return false;
            }
            i = i + 1;
        }
        true
    }

    fn body_is_settled(&self, es: &Vec<Spanned<Expr>>, is_ret: bool) -> (r: bool)
        requires
            self.deep_view().wf(),
        ensures
            r == settled::settled_body(self.deep_view(), expr::trees(es@), is_ret),
        decreases expr::trees(es@), 1nat,
    {
        let ghost cx = self.deep_view();
        let ghost ts = expr::trees(es@);
        let mut i: usize = 0;
        while i < es.len()
            invariant
                i <= es.len(),
                cx == self.deep_view(),
                cx.wf(),
                ts == expr::trees(es@),
                forall|k: int|
                    0 <= k < i ==> settled::settled_stmt(cx, #[trigger] ts[k], is_ret)
                        && settled::settled_inside(cx, ts[k], is_ret),
            decreases es.len() - i,
        {
            proof {
                assert(ts[i as int] == expr::tree_of(es@[i as int]));
                assert(decreases_to!(ts => ts[i as int]));
            }
            if !self.stmt_is_settled(&es[i], is_ret) || !self.inside_is_settled(&es[i], is_ret) {
                proof {
                    assert(!(settled::settled_stmt(cx, ts[i as int], is_ret)
                        && settled::settled_inside(cx, ts[i as int], is_ret)));
                }
                return false;
            }
            i = i + 1;
        }
        true
    }

    fn arms_are_settled(
        &self,
        arms: &Vec<(Spanned<Expr>, Vec<Spanned<Expr>>)>,
        is_ret: bool,
    ) -> (r: bool)
        requires
            self.deep_view().wf(),
        ensures
            r == (forall|k: int|
                0 <= k < arms@.len() ==> settled::settled_inside(
                    self.deep_view(),
                    #[trigger] expr::arms_view(arms@)[k],
                    is_ret,
                )),
        decreases expr::arms_view(arms@), 1nat,
    {
        let ghost cx = self.deep_view();
        let ghost ts = expr::arms_view(arms@);
        let mut i: usize = 0;
        while i < arms.len()
            invariant
                i <= arms.len(),
                cx == self.deep_view(),
                cx.wf(),
                ts == expr::arms_view(arms@),
                forall|k: int|
                    0 <= k < i ==> settled::settled_inside(cx, #[trigger] ts[k], is_ret),
            decreases arms.len() - i,
        {
            let ghost arm = ts[i as int];
            let ghost body = expr::trees(arms@[i as int].1@);
            proof {
                assert(arm == expr::arm_tree(expr::tree_of(arms@[i as int].0), body));
                assert(arm.kids[0] == expr::tree_of(arms@[i as int].0));
                assert(arm.kids.skip(1) =~= body);
                assert(decreases_to!(ts => arm));
                assert(decreases_to!(ts => arm.kids[0]));
                assert(decreases_to!(ts => arm.kids.skip(1)));
            }
            let a = self.inside_is_settled(&arms[i].0, is_ret);
            let b = self.body_is_settled(&arms[i].1, is_ret);
            proof {
                assert forall|k: int| 1 <= k < arm.kids.len() implies #[trigger] arm.kids[k]
                    == body[k - 1] by {}
                if a && b {
                    assert forall|k: int| 0 <= k < arm.kids.len() implies settled::settled_inside(
                        cx,
                        #[trigger] arm.kids[k],
                        is_ret,
                    ) && (k > 0 ==> settled::settled_stmt(cx, arm.kids[k], is_ret)) by {
                        if k > 0 {
                            assert(settled::settled_stmt(cx, body[k - 1], is_ret));
                        }
                    }
                }
                if !b {
                    let k = choose|k: int|
                        0 <= k < body.len() && !(settled::settled_stmt(
                            cx,
                            #[trigger] body[k],
                            is_ret,
                        ) && settled::settled_inside(cx, body[k], is_ret));
                    assert(arm.kids[k + 1] == body[k]);
                }
                assert((a && b) == settled::settled_inside(cx, arm, is_ret));
            }
            if !(a && b) {
                return false;
            }
            i = i + 1;
        }
        true
    }

    fn handlers_are_settled(&self, hs: &Vec<Spanned<Branch>>, is_ret: bool) -> (r: bool)
        requires
            self.deep_view().wf(),
        ensures
            r == (forall|k: int|
                0 <= k < hs@.len() ==> settled::settled_inside(
                    self.deep_view(),
                    #[trigger] expr::handlers_view(hs@)[k],
                    is_ret,
                )),
        decreases expr::handlers_view(hs@), 1nat,
    {
        let ghost cx = self.deep_view();
        let ghost ts = expr::handlers_view(hs@);
        let mut i: usize = 0;
        while i < hs.len()
            invariant
                i <= hs.len(),
                cx == self.deep_view(),
                cx.wf(),
                ts == expr::handlers_view(hs@),
                forall|k: int|
                    0 <= k < i ==> settled::settled_inside(cx, #[trigger] ts[k], is_ret),
            decreases hs.len() - i,
        {
            let ghost h = ts[i as int];
            proof {
                assert(h.kids == expr::trees(hs@[i as int].inner.body@));
                assert(h.head is Handler);
                assert(decreases_to!(ts => h));
                assert(decreases_to!(ts => h.kids));
            }
            let ok = self.body_is_settled(&hs[i].inner.body, is_ret);
            proof {
                assert(ok == settled::settled_inside(cx, h, is_ret));
            }
            if !ok {
                return false;
            }
            i = i + 1;
        }
        true
    }

    fn branch_is_settled(&self, b: &Branch) -> (r: bool)
        requires
            self.deep_view().wf(),
        ensures
            r == settled::settled_branch(self.deep_view(), b.deep_view()),
    {
        let is_ret = b.ret_ty.is_some();
        if !self.body_is_settled(&b.body, is_ret) {
            return false;
        }
        if !is_ret {
            return true;
        }
        starts_with_caller(&b.patterns)
    }

    fn machine_is_settled(&self, m: &Machine) -> (r: bool)
        requires
            self.deep_view().wf(),
        ensures
            r == program::each_item_branch(
                m.deep_view().items,
                |b: BranchV| settled::settled_branch(self.deep_view(), b),
            ),
    {
        let ghost cx = self.deep_view();
        let ghost iv = m.deep_view().items;
        let ghost good = |b: BranchV| settled::settled_branch(cx, b);
        let mut i: usize = 0;
        while i < m.items.len()
            invariant
                i <= m.items.len(),
                cx == self.deep_view(),
                cx.wf(),
                iv == m.deep_view().items,
                good == (|b: BranchV| settled::settled_branch(cx, b)),
                forall|k: int|
                    0 <= k < i ==> match (#[trigger] iv[k]).inner {
                        MachineItemV::Branch(b) => good(b),
                        MachineItemV::Field(_) => true,
                    },
            decreases m.items.len() - i,
        {
            proof {
                assert(iv[i as int] == m.items@[i as int].deep_view());
            }
            if let MachineItem::Branch(b) = &m.items[i].inner {
                let ok = self.branch_is_settled(b);
                proof {
                    assert(iv[i as int].inner == MachineItemV::Branch(b.deep_view()));
                    assert(ok == good(b.deep_view()));
                }
                if !ok {
                    return false;
                }
            }
            i = i + 1;
        }
        true
    }

    fn module_is_settled(&self, m: &ParsedModule) -> (r: bool)
        requires
            self.deep_view().wf(),
        ensures
            r == program::each_ast_branch(
                m.deep_view().ast,
                |b: BranchV| settled::settled_branch(self.deep_view(), b),
            ),
    {
        let ghost cx = self.deep_view();
        let ghost av = m.deep_view().ast;
        let ghost good = |b: BranchV| settled::settled_branch(cx, b);
        let mut i: usize = 0;
        while i < m.ast.len()
            invariant
                i <= m.ast.len(),
                cx == self.deep_view(),
                cx.wf(),
                av == m.deep_view().ast,
                good == (|b: BranchV| settled::settled_branch(cx, b)),
                forall|j: int|
                    0 <= j < i ==> match (#[trigger] av[j]).inner {
                        ItemV::Machine(mach) => program::each_item_branch(mach.inner.items, good),
                        _ => true,
                    },
            decreases m.ast.len() - i,
        {
            proof {
                assert(av[i as int] == m.ast@[i as int].deep_view());
            }
            if let Item::Machine(mach) = &m.ast[i].inner {
                let ok = self.machine_is_settled(&mach.inner);
                proof {
                    assert(av[i as int].inner == ItemV::Machine(mach.deep_view()));
                    assert(ok == program::each_item_branch(
                        mach.inner.deep_view().items,
                        good,
                    ));
                }
                if !ok {
                    return false;
                }
            }
            i = i + 1;
        }
        true
    }
}

/// Whether lowering finds nothing to do in a program.
pub fn is_settled(program: &ParsedProgram, registry: &ProgramRegistry) -> (r: bool)
    requires
        registry.deep_view().wf(),
        pure::all_registered(program.deep_view(), registry.deep_view()),
    ensures
        r == settled::settled_program(program.deep_view(), registry.deep_view()),
{
    let ghost ms = program.deep_view();
    let ghost reg = registry.deep_view();
    let ret_machines = collect_ret_machines(program);
    let pure_bodies: KeyTable<PureBodyTemplate> = KeyTable::new();
    let mut i: usize = 0;
    while i < program.modules.len()
        invariant
            i <= program.modules.len(),
            ms == program.deep_view(),
            reg == registry.deep_view(),
            reg.wf(),
            pure::all_registered(ms, reg),
            ret_machines.deep_view() == pure::ret_machines_of(ms, ms.len()),
            pure_bodies.deep_view() == Seq::<(pure::RetKeyV, pure::TemplateV)>::empty(),
            forall|k: int| 0 <= k < i ==> settled::settled_module(ms, reg, #[trigger] ms[k]),
        decreases program.modules.len() - i,
    {
        let m = &program.modules[i];
        proof {
            assert(ms[i as int] == m.deep_view());
            assert(reg.id_for_path(ms[i as int].path) is Some);
            registry::index_of_path_bounds(reg, m.deep_view().path, 0);
        }
        let module_id = registry.module_id_for_path(&m.path).unwrap();
        let cx = LowerCx {
            registry,
            module_id,
            ret_machines: &ret_machines,
            pure_bodies: &pure_bodies,
        };
        proof {
            assert(cx.deep_view() == settled::plain_context(ms, reg, m.deep_view()));
        }
        let ok = cx.module_is_settled(m);
        proof {
            assert(ok == settled::settled_module(ms, reg, ms[i as int]));
        }
        if !ok {
            return false;
        }
        i = i + 1;
    }
    true
}

} // verus!
