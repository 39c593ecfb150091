//! Lowering again, with a registry filled from the lowered program.

use vstd::prelude::*;

use crate::api::ast::{ImportV, Item, ItemV};
use crate::api::expr;
use crate::error_handle;
use crate::inspect;
use crate::loader::{ModuleV, ParsedProgram};
use crate::lowering::bound;
use crate::lowering::expand::CxV;
use crate::lowering::program;
use crate::lowering::pure;
use crate::lowering::pure::{RetKeyV, TemplateV};
use crate::lowering::ret_free;
use crate::lowering::settled;
use crate::populate;
use crate::registry;
use crate::registry::{ModuleId, RegistryV, ResolutionV, ScopeV};
use crate::span::Spanned;
use crate::text::Text;

verus! {

// ── registries that differ in machines ─────────────────────────────────────

/// Whether `b` is `a` with other or fewer machines.
spec fn like_scopes(a: ScopeV, b: ScopeV) -> bool {
    &&& a == (ScopeV { machines: a.machines, ..b })
    &&& forall|k: Text| #[trigger] b.machines.contains_key(k) ==> a.machines.contains_key(k)
}

/// Whether `b` is `a` with other or fewer machines in its modules.
spec fn like(a: RegistryV, b: RegistryV) -> bool {
    &&& a.rt_fns == b.rt_fns
    &&& a.current == b.current
    &&& a.modules.len() == b.modules.len()
    &&& forall|i: int| 0 <= i < a.modules.len() ==> like_scopes(#[trigger] a.modules[i], b.modules[i])
}

proof fn like_joins(a: RegistryV, b: RegistryV, c: RegistryV)
    requires
        like(a, b),
        like(b, c),
    ensures
        like(a, c),
{
    assert forall|i: int| 0 <= i < a.modules.len() implies like_scopes(
        #[trigger] a.modules[i],
        c.modules[i],
    ) by {
        assert(like_scopes(a.modules[i], b.modules[i]));
        assert(like_scopes(b.modules[i], c.modules[i]));
    }
}

proof fn like_index(a: RegistryV, b: RegistryV, path: Seq<Text>, from: int)
    requires
        like(a, b),
        0 <= from,
    ensures
        a.index_of_path(path, from) == b.index_of_path(path, from),
    decreases a.modules.len() - from,
{
    if from < a.modules.len() {
        assert(like_scopes(a.modules[from], b.modules[from]));
        like_index(a, b, path, from + 1);
    }
}

/// Whether some module has a constant called `name`.
spec fn is_const(reg: RegistryV, name: Text) -> bool {
    exists|i: int| 0 <= i < reg.modules.len() && #[trigger] reg.modules[i].consts.contains_key(name)
}

/// Whether machines share no name with constants: no machine has the name of
/// a constant, none is imported under one, and no module imports something
/// under the name of a machine of its own.
pub open spec fn machines_stand_apart(reg: RegistryV) -> bool {
    &&& forall|i: int, j: int, k: Text|
        0 <= i < reg.modules.len() && 0 <= j < reg.modules.len()
            && #[trigger] reg.modules[i].machines.contains_key(k)
            ==> !#[trigger] reg.modules[j].consts.contains_key(k)
    &&& forall|i: int, k: Text|
        0 <= i < reg.modules.len() && #[trigger] reg.modules[i].machines.contains_key(k)
            ==> !reg.modules[i].imports.contains_key(k)
    &&& forall|i: int, j: int, k: Text|
        0 <= i < reg.modules.len() && 0 <= j < reg.modules.len()
            && #[trigger] reg.modules[i].imports.contains_key(k)
            && imports_machine(reg, reg.modules[i], k)
            ==> !#[trigger] reg.modules[j].consts.contains_key(k)
}

/// Whether a module imports a machine under the name `k`.
pub open spec fn imports_machine(reg: RegistryV, s: ScopeV, k: Text) -> bool {
    s.imports[k].target_item matches Some(item) && reg.scope(
        s.imports[k].target_module,
    ).machines.contains_key(item)
}

proof fn never_const(reg: RegistryV, name: Text, from: int)
    requires
        !is_const(reg, name),
        0 <= from,
    ensures
        !(reg.resolved_publicly(name, from) matches Some(ResolutionV::Const(_))),
    decreases reg.modules.len() - from,
{
    if from < reg.modules.len() {
        assert(!reg.modules[from].consts.contains_key(name));
        never_const(reg, name, from + 1);
    }
}

/// What is no machine's name denotes the same publicly.
proof fn same_publicly(a: RegistryV, b: RegistryV, name: Text, from: int)
    requires
        like(a, b),
        0 <= from,
        forall|i: int| 0 <= i < a.modules.len() ==> !(#[trigger] a.modules[i]).machines.contains_key(name),
    ensures
        a.resolved_publicly(name, from) == b.resolved_publicly(name, from),
    decreases a.modules.len() - from,
{
    if from < a.modules.len() {
        assert(like_scopes(a.modules[from], b.modules[from]));
        assert(!b.modules[from].machines.contains_key(name));
        same_publicly(a, b, name, from + 1);
    }
}

proof fn const_publicly(a: RegistryV, b: RegistryV, name: Text)
    requires
        like(a, b),
        machines_stand_apart(a),
    ensures
        (a.resolved_publicly(name, 0) matches Some(ResolutionV::Const(_))) == (
        b.resolved_publicly(name, 0) matches Some(ResolutionV::Const(_))),
{
    if is_const(a, name) {
        let j = choose|j: int|
            0 <= j < a.modules.len() && #[trigger] a.modules[j].consts.contains_key(name);
        assert forall|i: int| 0 <= i < a.modules.len() implies !(
        #[trigger] a.modules[i]).machines.contains_key(name) by {
            if a.modules[i].machines.contains_key(name) {
                assert(!a.modules[j].consts.contains_key(name));
            }
        }
        same_publicly(a, b, name, 0);
    } else {
        assert(!is_const(b, name)) by {
            if is_const(b, name) {
                let j = choose|j: int|
                    0 <= j < b.modules.len() && #[trigger] b.modules[j].consts.contains_key(name);
                assert(like_scopes(a.modules[j], b.modules[j]));
                assert(a.modules[j].consts.contains_key(name));
            }
        }
        never_const(a, name, 0);
        never_const(b, name, 0);
    }
}

proof fn const_is_the_same(a: RegistryV, b: RegistryV, id: ModuleId, name: Text)
    requires
        a.wf(),
        a.has(id),
        like(a, b),
        machines_stand_apart(a),
    ensures
        (a.resolved(id, name) matches Some(ResolutionV::Const(_))) == (b.resolved(id, name)
            matches Some(ResolutionV::Const(_))),
{
    let s = a.modules[id.0 as int];
    let t = b.modules[id.0 as int];
    assert(like_scopes(s, t));
    const_publicly(a, b, name);
    if s.machines.contains_key(name) {
        assert(!s.imports.contains_key(name));
        assert(!s.consts.contains_key(name));
        assert(!is_const(a, name)) by {
            if is_const(a, name) {
                let j = choose|j: int|
                    0 <= j < a.modules.len() && #[trigger] a.modules[j].consts.contains_key(name);
                assert(!a.modules[j].consts.contains_key(name));
            }
        }
        never_const(a, name, 0);
    } else {
        assert(!t.machines.contains_key(name));
        if s.imports.contains_key(name) && s.imports[name].target_item is Some {
            let from = s.imports[name].target_module;
            let item = s.imports[name].target_item->0;
            assert(from.0 < a.modules.len());
            let u = a.modules[from.0 as int];
            let v = b.modules[from.0 as int];
            assert(like_scopes(u, v));
            if u.machines.contains_key(item) {
                assert(imports_machine(a, s, name));
                assert(!u.consts.contains_key(item));
                assert(!is_const(a, name)) by {
                    if is_const(a, name) {
                        let j = choose|j: int|
                            0 <= j < a.modules.len()
                                && #[trigger] a.modules[j].consts.contains_key(name);
                        assert(a.modules[id.0 as int].imports.contains_key(name));
                        assert(!a.modules[j].consts.contains_key(name));
                    }
                }
                never_const(a, name, 0);
            } else {
                assert(!v.machines.contains_key(item));
            }
        }
    }
}

/// Registries that differ in machines answer alike, where machines share no
/// name with constants.
proof fn like_answer_alike(a: RegistryV, b: RegistryV)
    requires
        a.wf(),
        like(a, b),
        machines_stand_apart(a),
    ensures
        settled::answer_alike(a, b),
{
    assert forall|i: int| 0 <= i < a.modules.len() implies (#[trigger] a.modules[i]).path
        == b.modules[i].path && a.modules[i].imports == b.modules[i].imports by {
        assert(like_scopes(a.modules[i], b.modules[i]));
    }
    assert forall|id: ModuleId, segs: Seq<Text>| a.has(id) implies #[trigger] a.path_target(id, segs)
        == b.path_target(id, segs) by {
        assert(like_scopes(a.modules[id.0 as int], b.modules[id.0 as int]));
        if segs.len() >= 2 {
            let module = segs.drop_last();
            let imports = a.scope(id).imports;
            like_index(a, b, module, 0);
            if imports.contains_key(module[0]) {
                let t = imports[module[0]].target_module;
                assert(a.modules[id.0 as int].imports.contains_key(module[0]));
                assert(like_scopes(a.modules[t.0 as int], b.modules[t.0 as int]));
                like_index(a, b, a.scope(t).path + module.skip(1), 0);
            }
        }
    }
    assert forall|id: ModuleId, name: Text| a.has(id) implies ((#[trigger] a.resolved(id, name))
        matches Some(ResolutionV::Const(_))) == (b.resolved(id, name) matches Some(
        ResolutionV::Const(_),
    )) by {
        const_is_the_same(a, b, id, name);
    }
}

// ── filling them ───────────────────────────────────────────────────────────

/// Whether two items are the same, or machines of one name.
spec fn like_items(a: ItemV, b: ItemV) -> bool {
    match (a, b) {
        (ItemV::Machine(m), ItemV::Machine(n)) => m.inner.ident == n.inner.ident,
        _ => a == b,
    }
}

proof fn import_keeps_like(
    a: RegistryV,
    b: RegistryV,
    id: ModuleId,
    node: Spanned<ImportV>,
    prefix: Seq<Text>,
)
    requires
        like(a, b),
        a.has(id),
    ensures
        like(
            populate::import_added(a, id, node, prefix).reg,
            populate::import_added(b, id, node, prefix).reg,
        ),
        populate::import_added(a, id, node, prefix).reg.has(id),
        populate::import_added(a, id, node, prefix).errors == populate::import_added(
            b,
            id,
            node,
            prefix,
        ).errors,
    decreases node.inner, 0nat,
{
    match node.inner {
        ImportV::Import(ident, Some(next), _) => {
            import_keeps_like(a, b, id, *next, prefix.push(ident.inner));
        },
        ImportV::Import(ident, None, alias) => {
            like_index(a, b, prefix.push(ident.inner), 0);
            like_index(a, b, prefix, 0);
            let ra = populate::import_added(a, id, node, prefix).reg;
            let rb = populate::import_added(b, id, node, prefix).reg;
            assert forall|i: int| 0 <= i < ra.modules.len() implies like_scopes(
                #[trigger] ra.modules[i],
                rb.modules[i],
            ) by {
                assert(like_scopes(a.modules[i], b.modules[i]));
            }
        },
        ImportV::MultiImport(entries) => {
            imports_keep_like(a, b, id, entries, entries.len(), prefix);
        },
    }
}

proof fn imports_keep_like(
    a: RegistryV,
    b: RegistryV,
    id: ModuleId,
    entries: Seq<Spanned<ImportV>>,
    n: nat,
    prefix: Seq<Text>,
)
    requires
        like(a, b),
        a.has(id),
        n <= entries.len(),
    ensures
        like(
            populate::imports_added(a, id, entries, n, prefix).reg,
            populate::imports_added(b, id, entries, n, prefix).reg,
        ),
        populate::imports_added(a, id, entries, n, prefix).reg.has(id),
        populate::imports_added(a, id, entries, n, prefix).errors == populate::imports_added(
            b,
            id,
            entries,
            n,
            prefix,
        ).errors,
    decreases entries, n,
{
    if n > 0 {
        imports_keep_like(a, b, id, entries, (n - 1) as nat, prefix);
        assert(decreases_to!(entries => entries[n - 1]));
        import_keeps_like(
            populate::imports_added(a, id, entries, (n - 1) as nat, prefix).reg,
            populate::imports_added(b, id, entries, (n - 1) as nat, prefix).reg,
            id,
            entries[n - 1],
            prefix,
        );
    }
}

/// What is added to both without a complaint keeps them alike.
#[verifier::rlimit(40)]
proof fn item_keeps_like(a: RegistryV, b: RegistryV, id: ModuleId, x: ItemV, y: ItemV)
    requires
        like(a, b),
        a.has(id),
        like_items(x, y),
        populate::item_added(a, id, x).errors.len() == 0,
    ensures
        like(populate::item_added(a, id, x).reg, populate::item_added(b, id, y).reg),
        populate::item_added(a, id, x).reg.has(id),
        populate::item_added(b, id, y).errors.len() == 0,
{
    let ra = populate::item_added(a, id, x).reg;
    let rb = populate::item_added(b, id, y).reg;
    let s = a.scope(id);
    let t = b.scope(id);
    assert(like_scopes(a.modules[id.0 as int], b.modules[id.0 as int]));
    match x {
        ItemV::Import(i) => {
            import_keeps_like(a, b, id, i, Seq::empty());
        },
        _ => {
            let name = match x {
                ItemV::Record(d) => d.inner.ident.inner,
                ItemV::Enum(d) => d.inner.name.inner,
                _ => Seq::empty(),
            };
            assert(!s.machines.contains_key(name) ==> !t.machines.contains_key(name));
            assert forall|i: int| 0 <= i < ra.modules.len() implies like_scopes(
                #[trigger] ra.modules[i],
                rb.modules[i],
            ) by {
                assert(like_scopes(a.modules[i], b.modules[i]));
                assert forall|k: Text| #[trigger]
                    rb.modules[i].machines.contains_key(k) implies ra.modules[i].machines.contains_key(
                    k,
                ) by {
                    if b.modules[i].machines.contains_key(k) {
                        assert(a.modules[i].machines.contains_key(k));
                    }
                }
            }
        },
    }
}

/// A machine that is added to the first only keeps them alike.
proof fn more_keeps_like(a: RegistryV, b: RegistryV, id: ModuleId, x: ItemV)
    requires
        like(a, b),
        a.has(id),
        x is Machine,
    ensures
        like(populate::item_added(a, id, x).reg, b),
        populate::item_added(a, id, x).reg.has(id),
{
    let ra = populate::item_added(a, id, x).reg;
    assert forall|i: int| 0 <= i < ra.modules.len() implies like_scopes(
        #[trigger] ra.modules[i],
        b.modules[i],
    ) by {
        assert(like_scopes(a.modules[i], b.modules[i]));
        assert forall|k: Text| #[trigger] b.modules[i].machines.contains_key(k) implies ra.modules[i].machines.contains_key(
            k,
        ) by {
            assert(a.modules[i].machines.contains_key(k));
        }
    }
}

proof fn same_items_added(reg: RegistryV, id: ModuleId, x: ModuleV, y: ModuleV, n: nat)
    requires
        x.source_path == y.source_path,
        n <= x.ast.len(),
        n <= y.ast.len(),
        forall|j: int| 0 <= j < n ==> #[trigger] x.ast[j] == y.ast[j],
    ensures
        populate::items_added(reg, id, x, n) == populate::items_added(reg, id, y, n),
    decreases n,
{
    if n > 0 {
        same_items_added(reg, id, x, y, (n - 1) as nat);
        assert(x.ast[n - 1] == y.ast[n - 1]);
    }
}

/// The items of a module and those of the lowered module keep registries
/// alike.
proof fn items_keep_like(
    a: RegistryV,
    b: RegistryV,
    id: ModuleId,
    cx: CxV,
    m: ModuleV,
    n: nat,
    next: u32,
)
    requires
        like(a, b),
        a.has(id),
        n <= m.ast.len(),
        populate::items_added(a, id, m, n).errors.len() == 0,
    ensures
        ({
            let ast = program::lowered_ast(cx, m.path, m.ast, n, next).0;
            let low = populate::items_added(b, id, ModuleV { ast, ..m }, ast.len());
            &&& like(populate::items_added(a, id, m, n).reg, low.reg)
            &&& low.errors.len() == 0
            &&& populate::items_added(a, id, m, n).reg.has(id)
        }),
    decreases n,
{
    if n > 0 {
        let one = populate::item_added(
            populate::items_added(a, id, m, (n - 1) as nat).reg,
            id,
            m.ast[n - 1].inner,
        );
        assert(error_handle::tagged_all(one.errors, m.source_path).len() == one.errors.len());
        items_keep_like(a, b, id, cx, m, (n - 1) as nat, next);
        let p = populate::items_added(a, id, m, (n - 1) as nat).reg;
        let before = program::lowered_ast(cx, m.path, m.ast, (n - 1) as nat, next).0;
        let after = program::lowered_ast(cx, m.path, m.ast, n, next).0;
        let x = ModuleV { ast: before, ..m };
        let y = ModuleV { ast: after, ..m };
        let q = populate::items_added(b, id, x, before.len()).reg;
        let item = m.ast[n - 1].inner;
        if after.len() == before.len() {
            assert(after == before);
            more_keeps_like(p, q, id, item);
        } else {
            assert(after.len() == before.len() + 1);
            same_items_added(b, id, x, y, before.len());
            let low = after[after.len() - 1].inner;
            assert(like_items(item, low));
            item_keeps_like(p, q, id, item, low);
            let two = populate::item_added(q, id, low);
            assert(error_handle::tagged_all(two.errors, m.source_path).len() == 0);
        }
    }
}

proof fn same_modules_added(reg: RegistryV, x: Seq<ModuleV>, y: Seq<ModuleV>, n: nat)
    requires
        n <= x.len(),
        n <= y.len(),
        forall|i: int| 0 <= i < n ==> #[trigger] x[i] == y[i],
    ensures
        populate::modules_added(reg, x, n) == populate::modules_added(reg, y, n),
    decreases n,
{
    if n > 0 {
        same_modules_added(reg, x, y, (n - 1) as nat);
        assert(x[n - 1] == y[n - 1]);
    }
}

proof fn modules_keep_like(
    reg: RegistryV,
    ret: Seq<(RetKeyV, Text)>,
    templates: Seq<(RetKeyV, TemplateV)>,
    named: RegistryV,
    ms: Seq<ModuleV>,
    n: nat,
    next: u32,
)
    requires
        named.wf(),
        n <= ms.len(),
        forall|j: int| 0 <= j < ms.len() ==> named.id_for_path((#[trigger] ms[j]).path) is Some,
        populate::modules_added(named, ms, n).errors.len() == 0,
    ensures
        ({
            let q = program::lowered_modules(reg, ret, templates, ms, n, next).0;
            let low = populate::modules_added(named, q, n);
            &&& q.len() == n
            &&& like(populate::modules_added(named, ms, n).reg, low.reg)
            &&& low.errors.len() == 0
        }),
    decreases n,
{
    if n > 0 {
        modules_keep_like(reg, ret, templates, named, ms, (n - 1) as nat, next);
        populate::modules_added_keeps_wf(named, ms, (n - 1) as nat);
        let (before, c) = program::lowered_modules(reg, ret, templates, ms, (n - 1) as nat, next);
        let after = program::lowered_modules(reg, ret, templates, ms, n, next).0;
        let p = populate::modules_added(named, ms, (n - 1) as nat).reg;
        let q = populate::modules_added(named, before, (n - 1) as nat).reg;
        let m = ms[n - 1];
        same_modules_added(named, before, after, (n - 1) as nat);
        like_index(p, q, m.path, 0);
        populate::same_modules_same_index(named, p, m.path, 0);
        registry::index_of_path_bounds(p, m.path, 0);
        let id = p.id_for_path(m.path)->0;
        items_keep_like(
            p,
            q,
            id,
            program::context_of(reg, ret, templates, m),
            m,
            m.ast.len(),
            c,
        );
    }
}

proof fn registering_is_the_same(reg: RegistryV, x: Seq<ModuleV>, y: Seq<ModuleV>, n: nat)
    requires
        n <= x.len(),
        x.len() == y.len(),
        forall|i: int|
            0 <= i < x.len() ==> (#[trigger] y[i]).path == x[i].path && y[i].source_path
                == x[i].source_path,
    ensures
        populate::modules_registered(reg, x, n) == populate::modules_registered(reg, y, n),
    decreases n,
{
    if n > 0 {
        registering_is_the_same(reg, x, y, (n - 1) as nat);
        assert(y[n - 1].path == x[n - 1].path);
    }
}

/// A registry filled from what a pass gives is like one filled from what it
/// is given.
proof fn passing_keeps_like(
    empty: RegistryV,
    ms: Seq<ModuleV>,
    reg: RegistryV,
    inline_pure: bool,
    next: u32,
)
    requires
        empty.wf(),
        empty.modules.len() + ms.len() < u32::MAX,
        populate::populated(empty, ms).errors.len() == 0,
    ensures
        ({
            let q = program::passed(ms, reg, inline_pure, next).0;
            &&& q.len() == ms.len()
            &&& like(populate::populated(empty, ms).reg, populate::populated(empty, q).reg)
            &&& populate::populated(empty, q).errors.len() == 0
        }),
{
    let named = populate::modules_registered(empty, ms, ms.len());
    let q = program::passed(ms, reg, inline_pure, next).0;
    populate::modules_registered_facts(empty, ms, ms.len());
    program::passing_keeps_modules(ms, reg, inline_pure, next);
    registering_is_the_same(empty, ms, q, ms.len());
    modules_keep_like(
        reg,
        pure::ret_machines_of(ms, ms.len()),
        program::templates_for(ms, reg, inline_pure),
        named,
        ms,
        ms.len(),
        next,
    );
}

proof fn like_itself(reg: RegistryV)
    ensures
        like(reg, reg),
{
}

proof fn repeating_keeps_like(
    empty: RegistryV,
    ms: Seq<ModuleV>,
    reg: RegistryV,
    inline_pure: bool,
    next: u32,
    rounds: nat,
)
    requires
        empty.wf(),
        empty.modules.len() + ms.len() < u32::MAX,
        populate::populated(empty, ms).errors.len() == 0,
    ensures
        like(
            populate::populated(empty, ms).reg,
            populate::populated(
                empty,
                program::repeated(ms, reg, inline_pure, next, rounds),
            ).reg,
        ),
    decreases rounds,
{
    let (q, c) = program::passed(ms, reg, inline_pure, next);
    passing_keeps_like(empty, ms, reg, inline_pure, next);
    if !settled::settled_program(q, reg) && rounds > 0 {
        repeating_keeps_like(empty, q, reg, inline_pure, c, (rounds - 1) as nat);
        like_joins(
            populate::populated(empty, ms).reg,
            populate::populated(empty, q).reg,
            populate::populated(
                empty,
                program::repeated(ms, reg, inline_pure, next, rounds),
            ).reg,
        );
    }
}

// ── what registered programs are like ──────────────────────────────────────

/// Whether the constants among the first `n` items are literals.
spec fn consts_are_literals(ast: Seq<Spanned<ItemV>>, n: int) -> bool {
    forall|j: int|
        0 <= j < n ==> match (#[trigger] ast[j]).inner {
            ItemV::Const(c) => populate::const_entry(c.inner) is Ok,
            _ => true,
        }
}

proof fn added_consts_are_literals(reg: RegistryV, id: ModuleId, m: ModuleV, n: nat)
    requires
        n <= m.ast.len(),
        populate::items_added(reg, id, m, n).errors.len() == 0,
    ensures
        consts_are_literals(m.ast, n as int),
    decreases n,
{
    if n > 0 {
        let before = populate::items_added(reg, id, m, (n - 1) as nat);
        let one = populate::item_added(before.reg, id, m.ast[n - 1].inner);
        assert(error_handle::tagged_all(one.errors, m.source_path).len() == one.errors.len());
        added_consts_are_literals(reg, id, m, (n - 1) as nat);
    }
}

proof fn registered_consts_are_literals(reg: RegistryV, ms: Seq<ModuleV>, n: nat)
    requires
        n <= ms.len(),
        populate::modules_added(reg, ms, n).errors.len() == 0,
    ensures
        forall|i: int|
            0 <= i < n ==> consts_are_literals((#[trigger] ms[i]).ast, ms[i].ast.len() as int),
    decreases n,
{
    if n > 0 {
        let before = populate::modules_added(reg, ms, (n - 1) as nat);
        let m = ms[n - 1];
        registered_consts_are_literals(reg, ms, (n - 1) as nat);
        added_consts_are_literals(
            before.reg,
            before.reg.id_for_path(m.path)->0,
            m,
            m.ast.len(),
        );
    }
}

/// In a program that is registered without a complaint every `ret` has its
/// operand, and no constant holds one.
pub proof fn registered_programs_are_whole(p: ParsedProgram, empty: RegistryV)
    requires
        populate::populated(empty, p.deep_view()).errors.len() == 0,
    ensures
        ret_free::returns_are_whole(p.deep_view()),
{
    let ms = p.deep_view();
    ret_free::programs_are_whole(p);
    registered_consts_are_literals(
        populate::modules_registered(empty, ms, ms.len()),
        ms,
        ms.len(),
    );
    assert forall|i: int| 0 <= i < ms.len() implies ret_free::consts_hold_no_ret(
        (#[trigger] ms[i]).ast,
    ) by {
        assert(consts_are_literals(ms[i].ast, ms[i].ast.len() as int));
        assert forall|j: int| 0 <= j < ms[i].ast.len() implies match (
        #[trigger] ms[i].ast[j]).inner {
            ItemV::Const(c) => inspect::holds(pure::no_ret(), c.inner.value),
            _ => true,
        } by {
            if let Item::Const(c) = p.modules@[i].ast@[j].inner {
                let t = expr::tree_of(c.inner.value);
                assert(populate::const_entry(c.inner.deep_view()) is Ok);
                assert(t.kids.len() == 0);
                inspect::holds_iff(pure::no_ret(), t);
            }
        }
    }
}

/// Lowering twice is lowering once, with a registry that is filled from the
/// program before the first run and another one that is filled from the
/// lowered program before the second.  The names that lowering makes up have
/// to be its own, machines have to share no name with constants, and what the
/// first pass gives must not be deeper than lowering goes.
pub proof fn lowering_with_a_new_registry(
    p: ParsedProgram,
    empty: RegistryV,
    inline_pure: bool,
)
    requires
        empty.wf(),
        empty.modules.len() + p.deep_view().len() < u32::MAX,
        populate::populated(empty, p.deep_view()).errors.len() == 0,
        bound::names_are_ours(p.deep_view(), populate::populated(empty, p.deep_view()).reg),
        machines_stand_apart(populate::populated(empty, p.deep_view()).reg),
        bound::program_reaches(
            program::passed(
                p.deep_view(),
                populate::populated(empty, p.deep_view()).reg,
                inline_pure,
                0,
            ).0,
            populate::populated(empty, p.deep_view()).reg,
        ),
    ensures
        ({
            let q = program::lowered_program(
                p.deep_view(),
                populate::populated(empty, p.deep_view()).reg,
                inline_pure,
            );
            program::lowered_program(q, populate::populated(empty, q).reg, inline_pure) == q
        }),
{
    let ms = p.deep_view();
    let reg = populate::populated(empty, ms).reg;
    let q = program::lowered_program(ms, reg, inline_pure);
    registered_programs_are_whole(p, empty);
    populate::populating_registers_every_module(empty, ms);
    bound::lowering_comes_to_rest(ms, reg, inline_pure);
    repeating_keeps_like(empty, ms, reg, inline_pure, 0, program::rounds(ms, reg));
    like_answer_alike(reg, populate::populated(empty, q).reg);
    settled::lowering_twice_is_once(ms, reg, populate::populated(empty, q).reg, inline_pure);
}

/// Whether no item of a program is gone in another.
pub open spec fn keeps_items(a: Seq<ModuleV>, b: Seq<ModuleV>) -> bool {
    a.len() == b.len() && forall|i: int|
        0 <= i < a.len() ==> (#[trigger] b[i]).ast.len() == a[i].ast.len()
}

/// Without expansion no machine goes away.
pub proof fn lowering_keeps_every_item(ms: Seq<ModuleV>, reg: RegistryV)
    ensures
        keeps_items(ms, program::lowered_program(ms, reg, false)),
{
    repeated_keeps_every_item(ms, reg, 0, program::rounds(ms, reg));
}

proof fn repeated_keeps_every_item(ms: Seq<ModuleV>, reg: RegistryV, next: u32, rounds: nat)
    ensures
        keeps_items(ms, program::repeated(ms, reg, false, next, rounds)),
    decreases rounds,
{
    let (q, c) = program::passed(ms, reg, false, next);
    modules_keep_every_item(reg, pure::ret_machines_of(ms, ms.len()), ms, ms.len(), next);
    let all = program::repeated(ms, reg, false, next, rounds);
    if !settled::settled_program(q, reg) && rounds > 0 {
        repeated_keeps_every_item(q, reg, c, (rounds - 1) as nat);
        assert forall|i: int| 0 <= i < ms.len() implies (#[trigger] all[i]).ast.len()
            == ms[i].ast.len() by {
            assert(q[i].ast.len() == ms[i].ast.len());
        }
    }
}

proof fn modules_keep_every_item(
    reg: RegistryV,
    ret: Seq<(RetKeyV, Text)>,
    ms: Seq<ModuleV>,
    n: nat,
    next: u32,
)
    requires
        n <= ms.len(),
    ensures
        program::lowered_modules(reg, ret, Seq::empty(), ms, n, next).0.len() == n,
        forall|i: int|
            0 <= i < n ==> (#[trigger] program::lowered_modules(
                reg,
                ret,
                Seq::empty(),
                ms,
                n,
                next,
            ).0[i]).ast.len() == ms[i].ast.len(),
    decreases n,
{
    if n > 0 {
        modules_keep_every_item(reg, ret, ms, (n - 1) as nat, next);
        let (before, c) = program::lowered_modules(
            reg,
            ret,
            Seq::empty(),
            ms,
            (n - 1) as nat,
            next,
        );
        let after = program::lowered_modules(reg, ret, Seq::empty(), ms, n, next).0;
        let m = ms[n - 1];
        ast_keeps_every_item(
            program::context_of(reg, ret, Seq::empty(), m),
            m.path,
            m.ast,
            m.ast.len(),
            c,
        );
        assert forall|i: int| 0 <= i < n implies (#[trigger] after[i]).ast.len()
            == ms[i].ast.len() by {
            if i < n - 1 {
                assert(after[i] == before[i]);
            }
        }
    }
}

proof fn ast_keeps_every_item(
    cx: CxV,
    path: Seq<Text>,
    ast: Seq<Spanned<ItemV>>,
    n: nat,
    next: u32,
)
    requires
        cx.pure.len() == 0,
        n <= ast.len(),
    ensures
        program::lowered_ast(cx, path, ast, n, next).0.len() == n,
    decreases n,
{
    if n > 0 {
        ast_keeps_every_item(cx, path, ast, (n - 1) as nat, next);
        if let ItemV::Machine(m) = ast[n - 1].inner {
            let key = RetKeyV { module: path, name: m.inner.ident.inner };
            assert(pure::key_lookup(cx.pure, key) is None);
        }
    }
}

} // verus!
