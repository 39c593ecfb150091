//! How many passes lowering takes.

use vstd::prelude::*;

use crate::api::ast::{BranchV, ItemV, MachineItemV};
use crate::inspect;
use crate::loader::ModuleV;
use crate::lowering::calls;
use crate::lowering::expand::CxV;
use crate::lowering::program;
use crate::lowering::pure;
use crate::lowering::pure::{RetKeyV, TemplateV};
use crate::lowering::rest;
use crate::lowering::ret_free;
use crate::lowering::settled;
use crate::lowering::steady;
use crate::registry;
use crate::registry::{ModuleId, RegistryV, ResolutionV};
use crate::span::Spanned;
use crate::text::Text;

verus! {

// ── what a pass without expansion keeps ────────────────────────────────────

/// Whether a machine item stays a branch with its return type, or a field.
spec fn like_parts(a: MachineItemV, b: MachineItemV) -> bool {
    match (a, b) {
        (MachineItemV::Branch(x), MachineItemV::Branch(y)) => x.head.ret_ty == y.head.ret_ty,
        (MachineItemV::Field(_), MachineItemV::Field(_)) => true,
        _ => false,
    }
}

proof fn lowered_items_keep_rets(
    cx: CxV,
    items: Seq<Spanned<MachineItemV>>,
    n: nat,
    next: u32,
)
    requires
        n <= items.len(),
    ensures
        program::lowered_items(cx, items, n, next).0.len() == n,
        forall|k: int|
            0 <= k < n ==> like_parts(
                (#[trigger] items[k]).inner,
                program::lowered_items(cx, items, n, next).0[k].inner,
            ),
    decreases n,
{
    if n > 0 {
        lowered_items_keep_rets(cx, items, (n - 1) as nat, next);
        let before = program::lowered_items(cx, items, (n - 1) as nat, next).0;
        let all = program::lowered_items(cx, items, n, next).0;
        assert forall|k: int| 0 <= k < n implies like_parts(
            (#[trigger] items[k]).inner,
            all[k].inner,
        ) by {
            if k < n - 1 {
                assert(all[k] == before[k]);
            }
        }
    }
}

proof fn same_first_ret(
    a: Seq<Spanned<MachineItemV>>,
    b: Seq<Spanned<MachineItemV>>,
    from: int,
)
    requires
        a.len() == b.len(),
        0 <= from,
        forall|k: int| 0 <= k < a.len() ==> like_parts((#[trigger] a[k]).inner, b[k].inner),
    ensures
        pure::first_ret(a, from) == pure::first_ret(b, from),
    decreases a.len() - from,
{
    if from < a.len() {
        assert(like_parts(a[from].inner, b[from].inner));
        same_first_ret(a, b, from + 1);
    }
}

/// Whether an item stays what it is to a table of ret-machines.
spec fn like_rets(a: ItemV, b: ItemV) -> bool {
    match (a, b) {
        (ItemV::Machine(m), ItemV::Machine(n)) => m.inner.ident.inner == n.inner.ident.inner
            && pure::first_ret(m.inner.items, 0) == pure::first_ret(n.inner.items, 0),
        _ => a == b,
    }
}

proof fn lowered_ast_keeps_rets(
    cx: CxV,
    path: Seq<Text>,
    ast: Seq<Spanned<ItemV>>,
    n: nat,
    next: u32,
)
    requires
        cx.pure.len() == 0,
        n <= ast.len(),
    ensures
        program::lowered_ast(cx, path, ast, n, next).0.len() == n,
        forall|j: int|
            0 <= j < n ==> like_rets(
                (#[trigger] ast[j]).inner,
                program::lowered_ast(cx, path, ast, n, next).0[j].inner,
            ),
    decreases n,
{
    if n > 0 {
        lowered_ast_keeps_rets(cx, path, ast, (n - 1) as nat, next);
        let (before, c) = program::lowered_ast(cx, path, ast, (n - 1) as nat, next);
        let all = program::lowered_ast(cx, path, ast, n, next).0;
        if let ItemV::Machine(m) = ast[n - 1].inner {
            let key = RetKeyV { module: path, name: m.inner.ident.inner };
            assert(pure::key_lookup(cx.pure, key) is None);
            let items = m.inner.items;
            lowered_items_keep_rets(cx, items, items.len(), c);
            same_first_ret(items, program::lowered_items(cx, items, items.len(), c).0, 0);
        }
        assert forall|j: int| 0 <= j < n implies like_rets(
            (#[trigger] ast[j]).inner,
            all[j].inner,
        ) by {
            if j < n - 1 {
                assert(all[j] == before[j]);
            }
        }
    }
}

proof fn same_module_rets(
    table: Seq<(RetKeyV, Text)>,
    a: ModuleV,
    b: ModuleV,
    n: nat,
)
    requires
        a.path == b.path,
        n <= a.ast.len(),
        a.ast.len() == b.ast.len(),
        forall|j: int| 0 <= j < a.ast.len() ==> like_rets((#[trigger] a.ast[j]).inner, b.ast[j].inner),
    ensures
        pure::module_ret_machines(table, a, n) == pure::module_ret_machines(table, b, n),
    decreases n,
{
    if n > 0 {
        same_module_rets(table, a, b, (n - 1) as nat);
        assert(like_rets(a.ast[n - 1].inner, b.ast[n - 1].inner));
    }
}

proof fn lowered_modules_keep_rets(
    reg: RegistryV,
    ret: Seq<(RetKeyV, Text)>,
    ms: Seq<ModuleV>,
    n: nat,
    next: u32,
)
    requires
        n <= ms.len(),
    ensures
        program::lowered_modules(reg, ret, Seq::empty(), ms, n, next).0.len() == n,
        pure::ret_machines_of(
            program::lowered_modules(reg, ret, Seq::empty(), ms, n, next).0,
            n,
        ) == pure::ret_machines_of(ms, n),
        forall|i: int|
            0 <= i < n ==> (#[trigger] program::lowered_modules(
                reg,
                ret,
                Seq::empty(),
                ms,
                n,
                next,
            ).0[i]).path == ms[i].path,
    decreases n,
{
    if n > 0 {
        lowered_modules_keep_rets(reg, ret, ms, (n - 1) as nat, next);
        let (before, c) = program::lowered_modules(
            reg,
            ret,
            Seq::empty(),
            ms,
            (n - 1) as nat,
            next,
        );
        let all = program::lowered_modules(reg, ret, Seq::empty(), ms, n, next).0;
        let m = ms[n - 1];
        lowered_ast_keeps_rets(
            program::context_of(reg, ret, Seq::empty(), m),
            m.path,
            m.ast,
            m.ast.len(),
            c,
        );
        same_module_rets(
            pure::ret_machines_of(ms, (n - 1) as nat),
            m,
            all[n - 1],
            m.ast.len(),
        );
        same_prefix_rets(before, all, (n - 1) as nat);
        assert forall|i: int| 0 <= i < n implies (#[trigger] all[i]).path == ms[i].path by {
            if i < n - 1 {
                assert(all[i] == before[i]);
            }
        }
    }
}

proof fn same_prefix_rets(a: Seq<ModuleV>, b: Seq<ModuleV>, n: nat)
    requires
        n <= a.len(),
        n <= b.len(),
        forall|i: int| 0 <= i < n ==> #[trigger] a[i] == b[i],
    ensures
        pure::ret_machines_of(a, n) == pure::ret_machines_of(b, n),
    decreases n,
{
    if n > 0 {
        same_prefix_rets(a, b, (n - 1) as nat);
        assert(a[n - 1] == b[n - 1]);
    }
}

// ── one pass without expansion settles ─────────────────────────────────────

/// Whether a branch is lowered in full: every `ret` has its operand, and the
/// bodies inside it are not deeper than lowering goes.
pub open spec fn branch_reaches(cx: CxV, b: BranchV) -> bool {
    &&& inspect::all_hold(ret_free::rets_whole(), b.body)
    &&& forall|next: u32| #[trigger] body_reaches(cx, b, next)
}

/// Whether the bodies of a branch are not deeper than lowering goes.
pub open spec fn body_reaches(cx: CxV, b: BranchV, next: u32) -> bool {
    rest::reaches(
        cx,
        b.body,
        b.head.ret_ty is Some,
        !program::has_caller(b.head.patterns),
        next,
        program::depth(),
    )
}

/// [`branch_reaches`] of all branches of a program.
pub open spec fn program_reaches(ms: Seq<ModuleV>, reg: RegistryV) -> bool {
    forall|i: int|
        0 <= i < ms.len() ==> program::each_ast_branch(
            (#[trigger] ms[i]).ast,
            |b: BranchV| branch_reaches(settled::plain_context(ms, reg, ms[i]), b),
        )
}

proof fn branch_settles(cx: CxV, b: BranchV, next: u32)
    requires
        cx.pure.len() == 0,
        steady::names_are_free(cx),
        branch_reaches(cx, b),
    ensures
        settled::settled_branch(cx, program::lowered_branch(cx, b, next).0),
{
    assert(body_reaches(cx, b, next));
    rest::lowered_bodies_are_settled(
        cx,
        b.body,
        b.head.ret_ty is Some,
        !program::has_caller(b.head.patterns),
        next,
        program::depth(),
    );
    program::lowering_patterns_twice_is_once(b.head);
    program::lowered_patterns_have_the_caller(b.head);
}

proof fn items_settle(cx: CxV, items: Seq<Spanned<MachineItemV>>, n: nat, next: u32)
    requires
        cx.pure.len() == 0,
        steady::names_are_free(cx),
        n <= items.len(),
        program::each_item_branch(items, |b: BranchV| branch_reaches(cx, b)),
    ensures
        program::each_item_branch(
            program::lowered_items(cx, items, n, next).0,
            |b: BranchV| settled::settled_branch(cx, b),
        ),
    decreases n,
{
    if n > 0 {
        items_settle(cx, items, (n - 1) as nat, next);
        let (before, c) = program::lowered_items(cx, items, (n - 1) as nat, next);
        let all = program::lowered_items(cx, items, n, next).0;
        let good = |b: BranchV| settled::settled_branch(cx, b);
        assert forall|k: int| 0 <= k < all.len() implies match (#[trigger] all[k]).inner {
            MachineItemV::Branch(b) => good(b),
            MachineItemV::Field(_) => true,
        } by {
            if k < before.len() {
                assert(all[k] == before[k]);
            } else if let MachineItemV::Branch(b) = items[n - 1].inner {
                assert(branch_reaches(cx, b));
                branch_settles(cx, b, c);
            }
        }
    }
}

proof fn ast_settles(cx: CxV, path: Seq<Text>, ast: Seq<Spanned<ItemV>>, n: nat, next: u32)
    requires
        cx.pure.len() == 0,
        steady::names_are_free(cx),
        n <= ast.len(),
        program::each_ast_branch(ast, |b: BranchV| branch_reaches(cx, b)),
    ensures
        program::each_ast_branch(
            program::lowered_ast(cx, path, ast, n, next).0,
            |b: BranchV| settled::settled_branch(cx, b),
        ),
    decreases n,
{
    if n > 0 {
        ast_settles(cx, path, ast, (n - 1) as nat, next);
        let (before, c) = program::lowered_ast(cx, path, ast, (n - 1) as nat, next);
        let all = program::lowered_ast(cx, path, ast, n, next).0;
        let good = |b: BranchV| settled::settled_branch(cx, b);
        if let ItemV::Machine(m) = ast[n - 1].inner {
            assert(program::each_item_branch(
                m.inner.items,
                |b: BranchV| branch_reaches(cx, b),
            ));
            items_settle(cx, m.inner.items, m.inner.items.len(), c);
        }
        assert forall|j: int| 0 <= j < all.len() implies match (#[trigger] all[j]).inner {
            ItemV::Machine(m) => program::each_item_branch(m.inner.items, good),
            _ => true,
        } by {
            if j < before.len() {
                assert(all[j] == before[j]);
            }
        }
    }
}

proof fn modules_settle(
    reg: RegistryV,
    ret: Seq<(RetKeyV, Text)>,
    ms: Seq<ModuleV>,
    n: nat,
    next: u32,
)
    requires
        n <= ms.len(),
        forall|i: int|
            0 <= i < ms.len() ==> steady::names_are_free(
                program::context_of(reg, ret, Seq::empty(), #[trigger] ms[i]),
            ),
        forall|i: int|
            0 <= i < ms.len() ==> program::each_ast_branch(
                (#[trigger] ms[i]).ast,
                |b: BranchV|
                    branch_reaches(program::context_of(reg, ret, Seq::empty(), ms[i]), b),
            ),
    ensures
        program::lowered_modules(reg, ret, Seq::empty(), ms, n, next).0.len() == n,
        forall|i: int|
            0 <= i < n ==> program::each_ast_branch(
                program::lowered_modules(reg, ret, Seq::empty(), ms, n, next).0[i].ast,
                |b: BranchV|
                    settled::settled_branch(
                        program::context_of(reg, ret, Seq::empty(), #[trigger] ms[i]),
                        b,
                    ),
            ),
    decreases n,
{
    if n > 0 {
        modules_settle(reg, ret, ms, (n - 1) as nat, next);
        let (before, c) = program::lowered_modules(
            reg,
            ret,
            Seq::empty(),
            ms,
            (n - 1) as nat,
            next,
        );
        let all = program::lowered_modules(reg, ret, Seq::empty(), ms, n, next).0;
        let m = ms[n - 1];
        ast_settles(
            program::context_of(reg, ret, Seq::empty(), m),
            m.path,
            m.ast,
            m.ast.len(),
            c,
        );
        assert forall|i: int| 0 <= i < n implies program::each_ast_branch(
            all[i].ast,
            |b: BranchV|
                settled::settled_branch(
                    program::context_of(reg, ret, Seq::empty(), #[trigger] ms[i]),
                    b,
                ),
        ) by {
            if i < n - 1 {
                assert(all[i] == before[i]);
            }
        }
    }
}

/// Where no machine is expanded, one pass leaves nothing to do.
pub proof fn one_pass_settles(ms: Seq<ModuleV>, reg: RegistryV, inline_pure: bool, next: u32)
    requires
        program::templates_for(ms, reg, inline_pure).len() == 0,
        program_reaches(ms, reg),
        forall|i: int|
            0 <= i < ms.len() ==> steady::names_are_free(
                settled::plain_context(ms, reg, #[trigger] ms[i]),
            ),
    ensures
        settled::settled_program(program::passed(ms, reg, inline_pure, next).0, reg),
{
    let ret = pure::ret_machines_of(ms, ms.len());
    assert(program::templates_for(ms, reg, inline_pure) =~= Seq::<
        (RetKeyV, TemplateV),
    >::empty());
    let q = program::passed(ms, reg, inline_pure, next).0;
    lowered_modules_keep_rets(reg, ret, ms, ms.len(), next);
    assert forall|i: int| 0 <= i < ms.len() implies steady::names_are_free(
        program::context_of(reg, ret, Seq::empty(), #[trigger] ms[i]),
    ) by {
        assert(steady::names_are_free(settled::plain_context(ms, reg, ms[i])));
    }
    modules_settle(reg, ret, ms, ms.len(), next);
    assert forall|i: int| 0 <= i < q.len() implies settled::settled_module(
        q,
        reg,
        #[trigger] q[i],
    ) by {
        assert(q[i].path == ms[i].path);
        assert(settled::plain_context(q, reg, q[i]) == program::context_of(
            reg,
            ret,
            Seq::empty(),
            ms[i],
        ));
    }
}

// ── names ──────────────────────────────────────────────────────────────────

/// Whether no machine of a program has a name that lowering uses for itself.
pub open spec fn machines_are_ours(ms: Seq<ModuleV>) -> bool {
    forall|i: int, j: int|
        0 <= i < ms.len() && 0 <= j < ms[i].ast.len() ==> item_is_ours(
            (#[trigger] ms[i].ast[j]).inner,
        )
}

pub open spec fn item_is_ours(item: ItemV) -> bool {
    item matches ItemV::Machine(m) ==> !steady::reserved(m.inner.ident.inner)
}

/// Whether the names that lowering uses for itself, `self`, `_` and those that
/// begin with two underscores, belong to no constant, import or machine.
pub open spec fn names_are_ours(ms: Seq<ModuleV>, reg: RegistryV) -> bool {
    &&& forall|id: ModuleId, name: Text|
        reg.has(id) && steady::reserved(name) ==> !((#[trigger] reg.resolved(id, name)) matches Some(
            ResolutionV::Const(_),
        ))
    &&& forall|i: int, name: Text|
        0 <= i < reg.modules.len() && steady::reserved(name)
            ==> !#[trigger] reg.modules[i].imports.contains_key(name)
    &&& machines_are_ours(ms)
}

/// Whether no entry of a table has a name that lowering uses for itself.
spec fn table_is_ours(table: Seq<(RetKeyV, Text)>) -> bool {
    forall|k: int| 0 <= k < table.len() ==> !steady::reserved((#[trigger] table[k]).0.name)
}

proof fn module_table_is_ours(table: Seq<(RetKeyV, Text)>, m: ModuleV, n: nat)
    requires
        table_is_ours(table),
        n <= m.ast.len(),
        forall|j: int| 0 <= j < m.ast.len() ==> item_is_ours((#[trigger] m.ast[j]).inner),
    ensures
        table_is_ours(pure::module_ret_machines(table, m, n)),
    decreases n,
{
    if n > 0 {
        module_table_is_ours(table, m, (n - 1) as nat);
        let before = pure::module_ret_machines(table, m, (n - 1) as nat);
        let after = pure::module_ret_machines(table, m, n);
        assert(item_is_ours(m.ast[n - 1].inner));
        assert forall|k: int| 0 <= k < after.len() implies !steady::reserved(
            (#[trigger] after[k]).0.name,
        ) by {
            if k < before.len() {
                assert(!steady::reserved(before[k].0.name));
            }
        }
    }
}

proof fn table_of_ours(ms: Seq<ModuleV>, n: nat)
    requires
        machines_are_ours(ms),
        n <= ms.len(),
    ensures
        table_is_ours(pure::ret_machines_of(ms, n)),
    decreases n,
{
    if n > 0 {
        table_of_ours(ms, (n - 1) as nat);
        let m = ms[n - 1];
        assert forall|j: int| 0 <= j < m.ast.len() implies item_is_ours(
            (#[trigger] m.ast[j]).inner,
        ) by {
            assert(item_is_ours(ms[n - 1].ast[j].inner));
        }
        module_table_is_ours(pure::ret_machines_of(ms, (n - 1) as nat), m, m.ast.len());
    }
}

proof fn not_in_table(table: Seq<(RetKeyV, Text)>, name: Text, module: Seq<Text>, from: int)
    requires
        table_is_ours(table),
        steady::reserved(name),
        0 <= from,
    ensures
        pure::key_index(table, RetKeyV { module, name }, from) >= table.len(),
        calls::ret_named(table, name, from) is None,
    decreases table.len() - from,
{
    if from < table.len() {
        assert(!steady::reserved(table[from].0.name));
        not_in_table(table, name, module, from + 1);
    }
}

/// Where the names that lowering uses are its own, they are free in every
/// module.
proof fn ours_are_free(ms: Seq<ModuleV>, reg: RegistryV, m: ModuleV)
    requires
        reg.wf(),
        reg.id_for_path(m.path) is Some,
        names_are_ours(ms, reg),
    ensures
        steady::names_are_free(settled::plain_context(ms, reg, m)),
{
    let cx = settled::plain_context(ms, reg, m);
    registry::index_of_path_bounds(reg, m.path, 0);
    table_of_ours(ms, ms.len());
    assert forall|name: Text| #[trigger] steady::reserved(name) implies !(cx.reg.resolved(
        cx.id,
        name,
    ) matches Some(ResolutionV::Const(_))) && calls::ret_by_name(cx, name) is None by {
        not_in_table(cx.ret, name, cx.reg.scope(cx.id).path, 0);
        assert(!reg.modules[cx.id.0 as int].imports.contains_key(name));
        assert(!(reg.resolved(cx.id, name) matches Some(ResolutionV::Const(_))));
    }
}

proof fn lowered_ast_stays_ours(
    cx: CxV,
    path: Seq<Text>,
    ast: Seq<Spanned<ItemV>>,
    n: nat,
    next: u32,
)
    requires
        n <= ast.len(),
        forall|j: int| 0 <= j < ast.len() ==> item_is_ours((#[trigger] ast[j]).inner),
    ensures
        forall|j: int|
            0 <= j < program::lowered_ast(cx, path, ast, n, next).0.len() ==> item_is_ours(
                (#[trigger] program::lowered_ast(cx, path, ast, n, next).0[j]).inner,
            ),
    decreases n,
{
    if n > 0 {
        lowered_ast_stays_ours(cx, path, ast, (n - 1) as nat, next);
        let before = program::lowered_ast(cx, path, ast, (n - 1) as nat, next).0;
        let after = program::lowered_ast(cx, path, ast, n, next).0;
        assert(item_is_ours(ast[n - 1].inner));
        assert forall|j: int| 0 <= j < after.len() implies item_is_ours(
            (#[trigger] after[j]).inner,
        ) by {
            if j < before.len() {
                assert(after[j] == before[j]);
            }
        }
    }
}

proof fn lowered_modules_stay_ours(
    reg: RegistryV,
    ret: Seq<(RetKeyV, Text)>,
    templates: Seq<(RetKeyV, TemplateV)>,
    ms: Seq<ModuleV>,
    n: nat,
    next: u32,
)
    requires
        n <= ms.len(),
        machines_are_ours(ms),
    ensures
        machines_are_ours(program::lowered_modules(reg, ret, templates, ms, n, next).0),
    decreases n,
{
    if n > 0 {
        lowered_modules_stay_ours(reg, ret, templates, ms, (n - 1) as nat, next);
        let (before, c) = program::lowered_modules(reg, ret, templates, ms, (n - 1) as nat, next);
        let after = program::lowered_modules(reg, ret, templates, ms, n, next).0;
        let m = ms[n - 1];
        assert forall|j: int| 0 <= j < m.ast.len() implies item_is_ours(
            (#[trigger] m.ast[j]).inner,
        ) by {
            assert(item_is_ours(ms[n - 1].ast[j].inner));
        }
        lowered_ast_stays_ours(
            program::context_of(reg, ret, templates, m),
            m.path,
            m.ast,
            m.ast.len(),
            c,
        );
        assert forall|i: int, j: int|
            0 <= i < after.len() && 0 <= j < after[i].ast.len() implies item_is_ours(
            (#[trigger] after[i].ast[j]).inner,
        ) by {
            if i < before.len() {
                assert(after[i] == before[i]);
                assert(item_is_ours(before[i].ast[j].inner));
            }
        }
    }
}

// ── two passes ─────────────────────────────────────────────────────────────

proof fn free_branches_end_without_ret(ms: Seq<ModuleV>)
    requires
        program::each_branch(ms, |b: BranchV| inspect::all_hold(pure::no_ret(), b.body)),
    ensures
        program::each_branch(ms, |b: BranchV| settled::ends_without_ret(b)),
{
    let free = |b: BranchV| inspect::all_hold(pure::no_ret(), b.body);
    let good = |b: BranchV| settled::ends_without_ret(b);
    assert forall|i: int| 0 <= i < ms.len() implies program::each_ast_branch(
        (#[trigger] ms[i]).ast,
        good,
    ) by {
        let ast = ms[i].ast;
        assert(program::each_ast_branch(ast, free));
        assert forall|j: int| 0 <= j < ast.len() implies match (#[trigger] ast[j]).inner {
            ItemV::Machine(m) => program::each_item_branch(m.inner.items, good),
            _ => true,
        } by {
            if let ItemV::Machine(m) = ast[j].inner {
                let items = m.inner.items;
                assert(program::each_item_branch(items, free));
                assert forall|k: int| 0 <= k < items.len() implies match (
                #[trigger] items[k]).inner {
                    MachineItemV::Branch(b) => good(b),
                    MachineItemV::Field(_) => true,
                } by {
                    if let MachineItemV::Branch(b) = items[k].inner {
                        assert(free(b));
                        if b.body.len() > 0 {
                            let last = b.body[b.body.len() - 1];
                            assert(inspect::holds(pure::no_ret(), last));
                            inspect::holds_iff(pure::no_ret(), last);
                        }
                    }
                }
            }
        }
    }
}

/// Two passes are enough: the first expands pure machines and leaves no
/// `ret`, and the second leaves nothing to do.  The names that lowering makes
/// up have to be its own, and what the first pass gives not deeper than
/// lowering goes.
pub proof fn lowering_comes_to_rest(ms: Seq<ModuleV>, reg: RegistryV, inline_pure: bool)
    requires
        reg.wf(),
        pure::all_registered(ms, reg),
        ret_free::returns_are_whole(ms),
        names_are_ours(ms, reg),
        program_reaches(program::passed(ms, reg, inline_pure, 0).0, reg),
    ensures
        program::rests(ms, reg, inline_pure, 0, program::rounds(ms, reg)),
{
    let (q, c) = program::passed(ms, reg, inline_pure, 0);
    ret_free::passed_programs_hold_no_ret(ms, reg, inline_pure, 0);
    free_branches_end_without_ret(q);
    settled::program_has_no_template(
        q,
        pure::pure_machines(q, pure::ret_machines_of(q, q.len())),
        reg,
        q.len(),
    );
    lowered_modules_stay_ours(
        reg,
        pure::ret_machines_of(ms, ms.len()),
        program::templates_for(ms, reg, inline_pure),
        ms,
        ms.len(),
        0,
    );
    program::passing_keeps_registered(ms, reg, inline_pure, 0);
    assert(names_are_ours(q, reg));
    assert forall|i: int| 0 <= i < q.len() implies steady::names_are_free(
        settled::plain_context(q, reg, #[trigger] q[i]),
    ) by {
        assert(reg.id_for_path(q[i].path) is Some);
        ours_are_free(q, reg, q[i]);
    }
    one_pass_settles(q, reg, inline_pure, c);
    assert(!program::caller_is_const(ms, reg)) by {
        steady::numbered_is_reserved(0);
        assert forall|i: int| 0 <= i < ms.len() implies !#[trigger] program::caller_is_const_in(
            ms[i],
            reg,
        ) by {
            assert(reg.id_for_path(ms[i].path) is Some);
            registry::index_of_path_bounds(reg, ms[i].path, 0);
            let id = reg.id_for_path(ms[i].path)->0;
            assert(!(reg.resolved(id, "__caller"@) matches Some(ResolutionV::Const(_))));
        }
    }
    reveal_with_fuel(program::rests, 2);
}

} // verus!
