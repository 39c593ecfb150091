//! Entering a program into a registry that holds it already.

use vstd::prelude::*;

use crate::api::ast::{ImportV, ItemV};
use crate::error_handle;
use crate::error_handle::ErrorV;
use crate::loader::ModuleV;
use crate::populate;
use crate::registry;
use crate::registry::{ModuleId, RegistryV, ScopeV};
use crate::span::Spanned;
use crate::text::Text;

verus! {

// ── the names that items declare ───────────────────────────────────────────

/// The names that an import binds.
pub open spec fn names_bound(node: ImportV) -> Seq<Text>
    decreases node, 0nat,
{
    match node {
        ImportV::Import(_, Some(next), _) => names_bound(next.inner),
        ImportV::Import(ident, None, alias) => seq![
            match alias {
                Some(a) => a.inner,
                None => ident.inner,
            },
        ],
        ImportV::MultiImport(entries) => names_bound_by(entries, entries.len()),
    }
}

/// The names that the first `n` entries of a multi-import bind.
pub open spec fn names_bound_by(entries: Seq<Spanned<ImportV>>, n: nat) -> Seq<Text>
    decreases entries, n,
{
    if n == 0 || n > entries.len() {
        Seq::empty()
    } else {
        names_bound_by(entries, (n - 1) as nat) + names_bound(entries[n - 1].inner)
    }
}

/// The names that an item declares.
pub open spec fn declared(item: ItemV) -> Seq<Text> {
    match item {
        ItemV::Machine(m) => seq![m.inner.ident.inner],
        ItemV::Directive(d) => match populate::ffi_signature(d.inner) {
            Ok((name, _)) => seq![name],
            Err(_) => Seq::empty(),
        },
        ItemV::Const(c) => match populate::const_entry(c.inner) {
            Ok((name, _)) => seq![name],
            Err(_) => Seq::empty(),
        },
        ItemV::Import(i) => names_bound(i.inner),
        ItemV::Record(d) => seq![d.inner.ident.inner],
        ItemV::Enum(d) => seq![d.inner.name.inner],
        ItemV::Proto(d) => seq![d.inner.name.inner],
        ItemV::Impl(_) => Seq::empty(),
    }
}

/// Whether two items declare no name in common.
pub open spec fn apart(a: ItemV, b: ItemV) -> bool {
    forall|name: Text| declared(a).contains(name) ==> !#[trigger] declared(b).contains(name)
}

/// Whether a module declares no name twice.
pub open spec fn declares_once(m: ModuleV) -> bool {
    &&& forall|j: int|
        0 <= j < m.ast.len() ==> declared((#[trigger] m.ast[j]).inner).no_duplicates()
    &&& forall|j: int, k: int|
        0 <= j < k < m.ast.len() ==> apart(
            (#[trigger] m.ast[j]).inner,
            (#[trigger] m.ast[k]).inner,
        )
}

// ── what adding leaves alone ───────────────────────────────────────────────

/// Whether two maps agree outside `names`.
spec fn agree<V>(a: Map<Text, V>, b: Map<Text, V>, names: Seq<Text>) -> bool {
    forall|k: Text|
        !names.contains(k) ==> (#[trigger] a.contains_key(k)) == b.contains_key(k) && a[k] == b[k]
}

/// Whether two scopes agree outside `names`, whatever `impl`s they hold.
spec fn scopes_agree(a: ScopeV, b: ScopeV, names: Seq<Text>) -> bool {
    &&& a.path == b.path
    &&& a.source_path == b.source_path
    &&& agree(a.machines, b.machines, names)
    &&& agree(a.ffi_fns, b.ffi_fns, names)
    &&& agree(a.consts, b.consts, names)
    &&& agree(a.records, b.records, names)
    &&& agree(a.enums, b.enums, names)
    &&& agree(a.protos, b.protos, names)
    &&& agree(a.imports, b.imports, names)
}

/// Whether `b` is `a` but for `names` in the scope of `id`, and for `impl`s.
spec fn grows(a: RegistryV, b: RegistryV, id: ModuleId, names: Seq<Text>) -> bool {
    &&& populate::same_modules(a, b)
    &&& scopes_agree(a.scope(id), b.scope(id), names)
    &&& forall|i: int|
        0 <= i < a.modules.len() && i != id.0 ==> scopes_agree(
            #[trigger] a.modules[i],
            b.modules[i],
            Seq::empty(),
        )
}

proof fn growth_joins(
    a: RegistryV,
    b: RegistryV,
    c: RegistryV,
    id: ModuleId,
    first: Seq<Text>,
    second: Seq<Text>,
)
    requires
        a.has(id),
        grows(a, b, id, first),
        grows(b, c, id, second),
    ensures
        grows(a, c, id, first + second),
{
    let names = first + second;
    assert forall|k: Text| !names.contains(k) implies !first.contains(k) && !second.contains(k) by {
        if first.contains(k) {
            let i = choose|i: int| 0 <= i < first.len() && first[i] == k;
            assert(names[i] == k);
        }
        if second.contains(k) {
            let i = choose|i: int| 0 <= i < second.len() && second[i] == k;
            assert(names[first.len() + i] == k);
        }
    }
    assert forall|i: int| 0 <= i < a.modules.len() && i != id.0 implies scopes_agree(
        #[trigger] a.modules[i],
        c.modules[i],
        Seq::empty(),
    ) by {
        assert(scopes_agree(a.modules[i], b.modules[i], Seq::empty()));
        assert(scopes_agree(b.modules[i], c.modules[i], Seq::empty()));
    }
    assert forall|i: int| 0 <= i < a.modules.len() implies (#[trigger] c.modules[i]).path
        == a.modules[i].path by {
        assert(b.modules[i].path == a.modules[i].path);
    }
}

proof fn one_is_named(name: Text)
    ensures
        forall|k: Text| #[trigger] seq![name].contains(k) == (k == name),
{
    assert(seq![name][0] == name);
}

proof fn import_grows(
    reg: RegistryV,
    id: ModuleId,
    node: Spanned<ImportV>,
    prefix: Seq<Text>,
)
    requires
        reg.has(id),
    ensures
        grows(
            reg,
            populate::import_added(reg, id, node, prefix).reg,
            id,
            names_bound(node.inner),
        ),
    decreases node.inner, 0nat,
{
    match node.inner {
        ImportV::Import(ident, Some(next), _) => {
            import_grows(reg, id, *next, prefix.push(ident.inner));
        },
        ImportV::Import(ident, None, alias) => {
            let local = match alias {
                Some(a) => a.inner,
                None => ident.inner,
            };
            one_is_named(local);
        },
        ImportV::MultiImport(entries) => {
            imports_grow(reg, id, entries, entries.len(), prefix);
        },
    }
}

proof fn imports_grow(
    reg: RegistryV,
    id: ModuleId,
    entries: Seq<Spanned<ImportV>>,
    n: nat,
    prefix: Seq<Text>,
)
    requires
        reg.has(id),
        n <= entries.len(),
    ensures
        grows(
            reg,
            populate::imports_added(reg, id, entries, n, prefix).reg,
            id,
            names_bound_by(entries, n),
        ),
    decreases entries, n,
{
    if n > 0 {
        imports_grow(reg, id, entries, (n - 1) as nat, prefix);
        let before = populate::imports_added(reg, id, entries, (n - 1) as nat, prefix).reg;
        assert(decreases_to!(entries => entries[n - 1]));
        import_grows(before, id, entries[n - 1], prefix);
        growth_joins(
            reg,
            before,
            populate::imports_added(reg, id, entries, n, prefix).reg,
            id,
            names_bound_by(entries, (n - 1) as nat),
            names_bound(entries[n - 1].inner),
        );
    }
}

proof fn item_grows(reg: RegistryV, id: ModuleId, item: ItemV)
    requires
        reg.has(id),
    ensures
        grows(reg, populate::item_added(reg, id, item).reg, id, declared(item)),
{
    match item {
        ItemV::Import(i) => {
            import_grows(reg, id, i, Seq::empty());
        },
        _ => {
            if declared(item).len() == 1 {
                one_is_named(declared(item)[0]);
                assert(declared(item) =~= seq![declared(item)[0]]);
            }
        },
    }
}

// ── what is there already ──────────────────────────────────────────────────

/// Whether an import binds nothing but what is bound already.
spec fn import_held(
    reg: RegistryV,
    id: ModuleId,
    node: Spanned<ImportV>,
    prefix: Seq<Text>,
) -> bool
    decreases node.inner,
{
    match node.inner {
        ImportV::Import(ident, Some(next), _) => import_held(
            reg,
            id,
            *next,
            prefix.push(ident.inner),
        ),
        ImportV::Import(_, None, _) => populate::import_added(reg, id, node, prefix)
            == populate::only(reg),
        ImportV::MultiImport(entries) => forall|k: int|
            0 <= k < entries.len() ==> import_held(reg, id, #[trigger] entries[k], prefix),
    }
}

/// Whether adding an item again changes nothing but `impl`s and is no mistake.
spec fn held(reg: RegistryV, id: ModuleId, item: ItemV) -> bool {
    match item {
        ItemV::Import(i) => import_held(reg, id, i, Seq::empty()),
        ItemV::Impl(_) => true,
        _ => populate::item_added(reg, id, item) == populate::only(reg),
    }
}

proof fn held_import_adds_nothing(
    reg: RegistryV,
    id: ModuleId,
    node: Spanned<ImportV>,
    prefix: Seq<Text>,
)
    requires
        import_held(reg, id, node, prefix),
    ensures
        populate::import_added(reg, id, node, prefix) == populate::only(reg),
    decreases node.inner, 0nat,
{
    match node.inner {
        ImportV::Import(ident, Some(next), _) => {
            held_import_adds_nothing(reg, id, *next, prefix.push(ident.inner));
        },
        ImportV::Import(_, None, _) => {},
        ImportV::MultiImport(entries) => {
            held_imports_add_nothing(reg, id, entries, entries.len(), prefix);
        },
    }
}

proof fn held_imports_add_nothing(
    reg: RegistryV,
    id: ModuleId,
    entries: Seq<Spanned<ImportV>>,
    n: nat,
    prefix: Seq<Text>,
)
    requires
        n <= entries.len(),
        forall|k: int| 0 <= k < entries.len() ==> import_held(reg, id, #[trigger] entries[k], prefix),
    ensures
        populate::imports_added(reg, id, entries, n, prefix) == populate::only(reg),
    decreases entries, n,
{
    if n > 0 {
        held_imports_add_nothing(reg, id, entries, (n - 1) as nat, prefix);
        assert(decreases_to!(entries => entries[n - 1]));
        held_import_adds_nothing(reg, id, entries[n - 1], prefix);
        assert(Seq::<ErrorV>::empty() + Seq::<ErrorV>::empty() =~= Seq::<ErrorV>::empty());
    }
}

proof fn same_scope(reg: RegistryV, id: ModuleId, s: ScopeV)
    requires
        reg.has(id),
    ensures
        (reg.with_scope(id, s) == reg) == (s == reg.scope(id)),
{
    assert(reg.with_scope(id, s).modules[id.0 as int] == s);
    if s == reg.scope(id) {
        assert(reg.with_scope(id, s).modules =~= reg.modules);
    }
}

proof fn insert_held<V>(m: Map<Text, V>, k: Text, v: V)
    ensures
        (m.insert(k, v) == m) == (m.contains_key(k) && m[k] == v),
{
    if m.insert(k, v) == m {
        assert(m.insert(k, v).contains_key(k));
        assert(m.insert(k, v)[k] == v);
    }
    if m.contains_key(k) && m[k] == v {
        assert(m.insert(k, v) =~= m);
    }
}

/// What is held stays held while other names are declared.
proof fn held_import_stays(
    a: RegistryV,
    b: RegistryV,
    id: ModuleId,
    at: ModuleId,
    names: Seq<Text>,
    node: Spanned<ImportV>,
    prefix: Seq<Text>,
)
    requires
        a.has(id),
        a.has(at),
        grows(a, b, at, names),
        at != id || forall|k: Text| #[trigger]
            names_bound(node.inner).contains(k) ==> !names.contains(k),
        import_held(a, id, node, prefix),
    ensures
        import_held(b, id, node, prefix),
    decreases node.inner, 0nat,
{
    match node.inner {
        ImportV::Import(ident, Some(next), _) => {
            if at == id {
                assert forall|k: Text| #[trigger] names_bound(next.inner).contains(
                    k,
                ) implies !names.contains(k) by {
                    assert(names_bound(node.inner).contains(k));
                }
            }
            held_import_stays(a, b, id, at, names, *next, prefix.push(ident.inner));
        },
        ImportV::Import(ident, None, alias) => {
            let local = match alias {
                Some(x) => x.inner,
                None => ident.inner,
            };
            one_is_named(local);
            assert(names_bound(node.inner).contains(local));
            let r = populate::import_added(a, id, node, prefix);
            assert(r.errors.len() == 0);
            populate::same_modules_same_index(a, b, prefix.push(ident.inner), 0);
            populate::same_modules_same_index(a, b, prefix, 0);
            let s = a.scope(id);
            let s2 = b.scope(id);
            let v = r.reg.scope(id).imports[local];
            if at.0 != id.0 {
                assert(scopes_agree(a.modules[id.0 as int], b.modules[id.0 as int], Seq::empty()));
            }
            assert(s.imports.contains_key(local) == s2.imports.contains_key(local));
            let binding = if a.id_for_path(prefix.push(ident.inner)) is Some {
                registry::ImportBindingV {
                    target_module: a.id_for_path(prefix.push(ident.inner))->0,
                    target_item: None,
                }
            } else {
                registry::ImportBindingV {
                    target_module: a.id_for_path(prefix)->0,
                    target_item: Some(ident.inner),
                }
            };
            same_scope(a, id, ScopeV { imports: s.imports.insert(local, binding), ..s });
            same_scope(b, id, ScopeV { imports: s2.imports.insert(local, binding), ..s2 });
            insert_held(s.imports, local, binding);
            insert_held(s2.imports, local, binding);
        },
        ImportV::MultiImport(entries) => {
            assert forall|k: int| 0 <= k < entries.len() implies import_held(
                b,
                id,
                #[trigger] entries[k],
                prefix,
            ) by {
                assert(decreases_to!(entries => entries[k]));
                assert(decreases_to!(node.inner => entries[k].inner));
                entry_names_are_names(entries, entries.len(), k);
                if at == id {
                    assert forall|name: Text| #[trigger] names_bound(entries[k].inner).contains(
                        name,
                    ) implies !names.contains(name) by {
                        assert(names_bound(node.inner).contains(name));
                    }
                }
                held_import_stays(a, b, id, at, names, entries[k], prefix);
            }
        },
    }
}

proof fn entry_names_are_names(entries: Seq<Spanned<ImportV>>, n: nat, k: int)
    requires
        0 <= k < n <= entries.len(),
    ensures
        forall|name: Text| #[trigger]
            names_bound(entries[k].inner).contains(name) ==> names_bound_by(entries, n).contains(
                name,
            ),
    decreases n,
{
    let before = names_bound_by(entries, (n - 1) as nat);
    let last = names_bound(entries[n - 1].inner);
    if k < n - 1 {
        entry_names_are_names(entries, (n - 1) as nat, k);
    }
    assert forall|name: Text| #[trigger] names_bound(entries[k].inner).contains(
        name,
    ) implies names_bound_by(entries, n).contains(name) by {
        if k < n - 1 {
            let i = choose|i: int| 0 <= i < before.len() && before[i] == name;
            assert((before + last)[i] == name);
        } else {
            let i = choose|i: int| 0 <= i < last.len() && last[i] == name;
            assert((before + last)[before.len() + i] == name);
        }
    }
}

/// An import that was accepted, and that binds no name twice, is held.
proof fn added_import_is_held(
    reg: RegistryV,
    id: ModuleId,
    node: Spanned<ImportV>,
    prefix: Seq<Text>,
)
    requires
        reg.has(id),
        names_bound(node.inner).no_duplicates(),
        populate::import_added(reg, id, node, prefix).errors.len() == 0,
    ensures
        import_held(populate::import_added(reg, id, node, prefix).reg, id, node, prefix),
    decreases node.inner, 0nat,
{
    let once = populate::import_added(reg, id, node, prefix).reg;
    import_grows(reg, id, node, prefix);
    match node.inner {
        ImportV::Import(ident, Some(next), _) => {
            added_import_is_held(reg, id, *next, prefix.push(ident.inner));
        },
        ImportV::Import(ident, None, alias) => {
            populate::same_modules_same_index(reg, once, prefix.push(ident.inner), 0);
            populate::same_modules_same_index(reg, once, prefix, 0);
            let s1 = once.scope(id);
            assert(once.with_scope(id, s1).modules =~= once.modules);
            let local = match alias {
                Some(x) => x.inner,
                None => ident.inner,
            };
            assert(s1.imports.insert(local, s1.imports[local]) =~= s1.imports);
        },
        ImportV::MultiImport(entries) => {
            added_imports_are_held(reg, id, entries, entries.len(), prefix);
        },
    }
}

proof fn added_imports_are_held(
    reg: RegistryV,
    id: ModuleId,
    entries: Seq<Spanned<ImportV>>,
    n: nat,
    prefix: Seq<Text>,
)
    requires
        reg.has(id),
        n <= entries.len(),
        names_bound_by(entries, n).no_duplicates(),
        populate::imports_added(reg, id, entries, n, prefix).errors.len() == 0,
    ensures
        forall|k: int|
            0 <= k < n ==> import_held(
                populate::imports_added(reg, id, entries, n, prefix).reg,
                id,
                #[trigger] entries[k],
                prefix,
            ),
    decreases entries, n,
{
    if n > 0 {
        let first = names_bound_by(entries, (n - 1) as nat);
        let last = names_bound(entries[n - 1].inner);
        let all = names_bound_by(entries, n);
        assert forall|i: int, j: int|
            0 <= i < first.len() && 0 <= j < first.len() && i != j implies first[i] != first[j] by {
            assert(all[i] == first[i] && all[j] == first[j]);
        }
        assert forall|i: int, j: int|
            0 <= i < last.len() && 0 <= j < last.len() && i != j implies last[i] != last[j] by {
            assert(all[first.len() + i] == last[i] && all[first.len() + j] == last[j]);
        }
        let before = populate::imports_added(reg, id, entries, (n - 1) as nat, prefix);
        let one = populate::import_added(before.reg, id, entries[n - 1], prefix);
        added_imports_are_held(reg, id, entries, (n - 1) as nat, prefix);
        imports_grow(reg, id, entries, (n - 1) as nat, prefix);
        assert(decreases_to!(entries => entries[n - 1]));
        added_import_is_held(before.reg, id, entries[n - 1], prefix);
        import_grows(before.reg, id, entries[n - 1], prefix);
        assert forall|k: int| 0 <= k < n implies import_held(
            one.reg,
            id,
            #[trigger] entries[k],
            prefix,
        ) by {
            if k < n - 1 {
                entry_names_are_names(entries, (n - 1) as nat, k);
                assert forall|name: Text| #[trigger] names_bound(entries[k].inner).contains(
                    name,
                ) implies !last.contains(name) by {
                    assert(first.contains(name));
                    let i = choose|i: int| 0 <= i < first.len() && first[i] == name;
                    if last.contains(name) {
                        let j = choose|j: int| 0 <= j < last.len() && last[j] == name;
                        assert(all[i] == name && all[first.len() + j] == name);
                    }
                }
                held_import_stays(before.reg, one.reg, id, id, last, entries[k], prefix);
            }
        }
    }
}

/// An item that was accepted, and that declares no name twice, is held.
proof fn added_item_is_held(reg: RegistryV, id: ModuleId, item: ItemV)
    requires
        reg.has(id),
        declared(item).no_duplicates(),
        populate::item_added(reg, id, item).errors.len() == 0,
    ensures
        held(populate::item_added(reg, id, item).reg, id, item),
{
    let once = populate::item_added(reg, id, item).reg;
    let s1 = once.scope(id);
    item_grows(reg, id, item);
    assert(once.with_scope(id, s1).modules =~= once.modules);
    match item {
        ItemV::Import(i) => {
            added_import_is_held(reg, id, i, Seq::empty());
        },
        ItemV::Directive(d) => {
            if let Ok((name, sig)) = populate::ffi_signature(d.inner) {
                assert(s1.ffi_fns.insert(name, sig) =~= s1.ffi_fns || d.inner.name.inner
                    != "ffi"@);
            }
        },
        ItemV::Proto(d) => {
            assert(s1.protos.insert(d.inner.name.inner, populate::proto_entry(d.inner, id))
                =~= s1.protos);
        },
        ItemV::Impl(_) => {},
        _ => {
            populate::adding_again_changes_nothing(reg, id, item);
        },
    }
}

/// What is held stays held while other names are declared.
proof fn held_item_stays(
    a: RegistryV,
    b: RegistryV,
    id: ModuleId,
    at: ModuleId,
    names: Seq<Text>,
    item: ItemV,
)
    requires
        a.has(id),
        a.has(at),
        grows(a, b, at, names),
        at != id || forall|k: Text| #[trigger] declared(item).contains(k) ==> !names.contains(k),
        held(a, id, item),
    ensures
        held(b, id, item),
{
    let s = a.scope(id);
    let s2 = b.scope(id);
    if at.0 != id.0 {
        assert(scopes_agree(a.modules[id.0 as int], b.modules[id.0 as int], Seq::empty()));
    }
    if declared(item).len() == 1 {
        one_is_named(declared(item)[0]);
        assert(declared(item) =~= seq![declared(item)[0]]);
        assert(declared(item).contains(declared(item)[0]));
    }
    match item {
        ItemV::Import(i) => {
            held_import_stays(a, b, id, at, names, i, Seq::empty());
        },
        ItemV::Machine(m) => {
            let name = m.inner.ident.inner;
            let v = populate::machine_entry(m.inner, id);
            same_scope(a, id, ScopeV { machines: s.machines.insert(name, v), ..s });
            same_scope(b, id, ScopeV { machines: s2.machines.insert(name, v), ..s2 });
            insert_held(s.machines, name, v);
            insert_held(s2.machines, name, v);
            assert(s.records.contains_key(name) == s2.records.contains_key(name));
            assert(s.enums.contains_key(name) == s2.enums.contains_key(name));
        },
        ItemV::Directive(d) => {
            if let Ok((name, v)) = populate::ffi_signature(d.inner) {
                same_scope(a, id, ScopeV { ffi_fns: s.ffi_fns.insert(name, v), ..s });
                same_scope(b, id, ScopeV { ffi_fns: s2.ffi_fns.insert(name, v), ..s2 });
                insert_held(s.ffi_fns, name, v);
                insert_held(s2.ffi_fns, name, v);
            }
        },
        ItemV::Const(c) => {
            if let Ok((name, v)) = populate::const_entry(c.inner) {
                same_scope(a, id, ScopeV { consts: s.consts.insert(name, v), ..s });
                same_scope(b, id, ScopeV { consts: s2.consts.insert(name, v), ..s2 });
                insert_held(s.consts, name, v);
                insert_held(s2.consts, name, v);
            }
        },
        ItemV::Proto(d) => {
            let name = d.inner.name.inner;
            let v = populate::proto_entry(d.inner, id);
            same_scope(a, id, ScopeV { protos: s.protos.insert(name, v), ..s });
            same_scope(b, id, ScopeV { protos: s2.protos.insert(name, v), ..s2 });
            insert_held(s.protos, name, v);
            insert_held(s2.protos, name, v);
        },
        ItemV::Record(d) => {
            let name = d.inner.ident.inner;
            held_record_is_there(a, id, item);
            assert(s.records.contains_key(name) == s2.records.contains_key(name));
            assert(s.machines.contains_key(name) == s2.machines.contains_key(name));
            assert(s.ffi_fns.contains_key(name) == s2.ffi_fns.contains_key(name));
            assert(s.consts.contains_key(name) == s2.consts.contains_key(name));
            assert(s.enums.contains_key(name) == s2.enums.contains_key(name));
        },
        ItemV::Enum(d) => {
            let name = d.inner.name.inner;
            held_enum_is_there(a, id, item);
            assert(s.records.contains_key(name) == s2.records.contains_key(name));
            assert(s.machines.contains_key(name) == s2.machines.contains_key(name));
            assert(s.ffi_fns.contains_key(name) == s2.ffi_fns.contains_key(name));
            assert(s.consts.contains_key(name) == s2.consts.contains_key(name));
            assert(s.enums.contains_key(name) == s2.enums.contains_key(name));
        },
        ItemV::Impl(_) => {},
    }
}

proof fn held_record_is_there(reg: RegistryV, id: ModuleId, item: ItemV)
    requires
        reg.has(id),
        held(reg, id, item),
        item is Record,
    ensures
        reg.scope(id).records.contains_key(item->Record_0.inner.ident.inner),
{
    let name = item->Record_0.inner.ident.inner;
    if !reg.scope(id).records.contains_key(name) {
        let added = populate::item_added(reg, id, item);
        assert(added.errors.len() == 0);
        assert(added.reg.modules[id.0 as int].records.contains_key(name));
    }
}

proof fn held_enum_is_there(reg: RegistryV, id: ModuleId, item: ItemV)
    requires
        reg.has(id),
        held(reg, id, item),
        item is Enum,
    ensures
        reg.scope(id).enums.contains_key(item->Enum_0.inner.name.inner),
{
    let name = item->Enum_0.inner.name.inner;
    if !reg.scope(id).enums.contains_key(name) {
        let added = populate::item_added(reg, id, item);
        assert(added.errors.len() == 0);
        assert(added.reg.modules[id.0 as int].enums.contains_key(name));
    }
}

// ── modules and programs ───────────────────────────────────────────────────

/// Whether the first `n` items of a module are held.
spec fn items_held(reg: RegistryV, id: ModuleId, m: ModuleV, n: nat) -> bool {
    forall|j: int| 0 <= j < n ==> held(reg, id, (#[trigger] m.ast[j]).inner)
}

proof fn items_of_others_stay(
    reg: RegistryV,
    id: ModuleId,
    at: ModuleId,
    other: ModuleV,
    m: ModuleV,
    n: nat,
)
    requires
        reg.wf(),
        reg.has(id),
        reg.has(at),
        id != at,
        n <= m.ast.len(),
        declares_once(m),
        declares_once(other),
        items_held(reg, id, other, other.ast.len()),
    ensures
        items_held(populate::items_added(reg, at, m, n).reg, id, other, other.ast.len()),
    decreases n,
{
    if n > 0 {
        items_of_others_stay(reg, id, at, other, m, (n - 1) as nat);
        populate::items_added_keeps_wf(reg, at, m, (n - 1) as nat);
        let before = populate::items_added(reg, at, m, (n - 1) as nat).reg;
        let item = m.ast[n - 1].inner;
        let after = populate::item_added(before, at, item).reg;
        item_grows(before, at, item);
        assert forall|j: int| 0 <= j < other.ast.len() implies held(
            after,
            id,
            (#[trigger] other.ast[j]).inner,
        ) by {
            held_item_stays(before, after, id, at, declared(item), other.ast[j].inner);
        }
    }
}

proof fn added_items_are_held(reg: RegistryV, id: ModuleId, m: ModuleV, n: nat)
    requires
        reg.wf(),
        reg.has(id),
        n <= m.ast.len(),
        declares_once(m),
        populate::items_added(reg, id, m, n).errors.len() == 0,
    ensures
        items_held(populate::items_added(reg, id, m, n).reg, id, m, n),
    decreases n,
{
    if n > 0 {
        added_items_are_held(reg, id, m, (n - 1) as nat);
        populate::items_added_keeps_wf(reg, id, m, (n - 1) as nat);
        let before = populate::items_added(reg, id, m, (n - 1) as nat).reg;
        let item = m.ast[n - 1].inner;
        let one = populate::item_added(before, id, item);
        item_grows(before, id, item);
        assert(error_handle::tagged_all(one.errors, m.source_path).len() == one.errors.len());
        added_item_is_held(before, id, item);
        assert forall|j: int| 0 <= j < n implies held(
            one.reg,
            id,
            (#[trigger] m.ast[j]).inner,
        ) by {
            if j < n - 1 {
                assert(apart(m.ast[j].inner, m.ast[n - 1].inner));
                held_item_stays(before, one.reg, id, id, declared(item), m.ast[j].inner);
            }
        }
    }
}

/// Whether two registries differ in their `impl`s only.
pub open spec fn same_but_impls(a: RegistryV, b: RegistryV) -> bool {
    &&& a.rt_fns == b.rt_fns
    &&& a.current == b.current
    &&& a.modules.len() == b.modules.len()
    &&& forall|i: int|
        0 <= i < a.modules.len() ==> (ScopeV { impls: a.modules[i].impls, ..b.modules[i] })
            == #[trigger] a.modules[i]
}

proof fn same_but_impls_joins(a: RegistryV, b: RegistryV, c: RegistryV)
    requires
        same_but_impls(a, b),
        same_but_impls(b, c),
    ensures
        same_but_impls(a, c),
{
    assert forall|i: int| 0 <= i < a.modules.len() implies (ScopeV {
        impls: a.modules[i].impls,
        ..c.modules[i]
    }) == #[trigger] a.modules[i] by {
        assert((ScopeV { impls: b.modules[i].impls, ..c.modules[i] }) == b.modules[i]);
        assert((ScopeV { impls: a.modules[i].impls, ..b.modules[i] }) == a.modules[i]);
    }
}

proof fn same_but_impls_grows(a: RegistryV, b: RegistryV, id: ModuleId)
    requires
        a.has(id),
        same_but_impls(a, b),
    ensures
        grows(a, b, id, Seq::empty()),
{
    assert forall|i: int| 0 <= i < a.modules.len() implies (#[trigger] b.modules[i]).path
        == a.modules[i].path && scopes_agree(a.modules[i], b.modules[i], Seq::empty()) by {
        assert((ScopeV { impls: a.modules[i].impls, ..b.modules[i] }) == a.modules[i]);
    }
    assert(scopes_agree(a.modules[id.0 as int], b.modules[id.0 as int], Seq::empty()));
    assert forall|i: int| 0 <= i < a.modules.len() && i != id.0 implies scopes_agree(
        #[trigger] a.modules[i],
        b.modules[i],
        Seq::empty(),
    ) by {
        assert(b.modules[i].path == a.modules[i].path);
    }
}

/// Adding what is held changes nothing but `impl`s.
proof fn held_items_add_impls(reg: RegistryV, id: ModuleId, m: ModuleV, n: nat)
    requires
        reg.has(id),
        n <= m.ast.len(),
        items_held(reg, id, m, m.ast.len()),
    ensures
        populate::items_added(reg, id, m, n).errors.len() == 0,
        same_but_impls(reg, populate::items_added(reg, id, m, n).reg),
    decreases n,
{
    if n > 0 {
        held_items_add_impls(reg, id, m, (n - 1) as nat);
        let before = populate::items_added(reg, id, m, (n - 1) as nat).reg;
        let item = m.ast[n - 1].inner;
        assert(held(reg, id, item));
        same_but_impls_grows(reg, before, id);
        held_item_stays(reg, before, id, id, Seq::empty(), item);
        let one = populate::item_added(before, id, item);
        match item {
            ItemV::Import(i) => {
                held_import_adds_nothing(before, id, i, Seq::empty());
            },
            _ => {},
        }
        assert(one.errors.len() == 0);
        assert(same_but_impls(before, one.reg));
        same_but_impls_joins(reg, before, one.reg);
        assert(error_handle::tagged_all(one.errors, m.source_path).len() == 0);
    }
}

/// Whether the items of the first `n` modules are held.
spec fn modules_held(reg: RegistryV, ms: Seq<ModuleV>, n: nat) -> bool {
    forall|i: int|
        0 <= i < n ==> items_held(
            reg,
            reg.id_for_path((#[trigger] ms[i]).path)->0,
            ms[i],
            ms[i].ast.len(),
        )
}

/// Whether the modules of a program have paths of their own.
pub open spec fn paths_differ(ms: Seq<ModuleV>) -> bool {
    forall|i: int, j: int|
        0 <= i < j < ms.len() ==> (#[trigger] ms[i]).path != (#[trigger] ms[j]).path
}

proof fn added_modules_are_held(reg: RegistryV, ms: Seq<ModuleV>, n: nat)
    requires
        reg.wf(),
        n <= ms.len(),
        paths_differ(ms),
        forall|i: int| 0 <= i < ms.len() ==> declares_once(#[trigger] ms[i]),
        forall|j: int| 0 <= j < ms.len() ==> reg.id_for_path((#[trigger] ms[j]).path) is Some,
        populate::modules_added(reg, ms, n).errors.len() == 0,
    ensures
        modules_held(populate::modules_added(reg, ms, n).reg, ms, n),
    decreases n,
{
    if n > 0 {
        added_modules_are_held(reg, ms, (n - 1) as nat);
        populate::modules_added_keeps_wf(reg, ms, (n - 1) as nat);
        let before = populate::modules_added(reg, ms, (n - 1) as nat).reg;
        let m = ms[n - 1];
        let at = before.id_for_path(m.path)->0;
        populate::same_modules_same_index(reg, before, m.path, 0);
        registry::index_of_path_bounds(before, m.path, 0);
        let after = populate::items_added(before, at, m, m.ast.len()).reg;
        populate::items_added_keeps_wf(before, at, m, m.ast.len());
        added_items_are_held(before, at, m, m.ast.len());
        assert forall|i: int| 0 <= i < n implies items_held(
            after,
            after.id_for_path((#[trigger] ms[i]).path)->0,
            ms[i],
            ms[i].ast.len(),
        ) by {
            populate::same_modules_same_index(before, after, ms[i].path, 0);
            populate::same_modules_same_index(reg, before, ms[i].path, 0);
            if i < n - 1 {
                let id = before.id_for_path(ms[i].path)->0;
                registry::index_of_path_bounds(before, ms[i].path, 0);
                assert(before.modules[id.0 as int].path == ms[i].path);
                assert(before.modules[at.0 as int].path == m.path);
                assert(ms[i].path != ms[n - 1].path);
                items_of_others_stay(before, id, at, ms[i], m, m.ast.len());
            }
        }
    }
}

proof fn held_modules_add_impls(reg: RegistryV, ms: Seq<ModuleV>, n: nat)
    requires
        reg.wf(),
        n <= ms.len(),
        modules_held(reg, ms, ms.len()),
        forall|j: int| 0 <= j < ms.len() ==> reg.id_for_path((#[trigger] ms[j]).path) is Some,
    ensures
        populate::modules_added(reg, ms, n).errors.len() == 0,
        same_but_impls(reg, populate::modules_added(reg, ms, n).reg),
    decreases n,
{
    if n > 0 {
        held_modules_add_impls(reg, ms, (n - 1) as nat);
        let before = populate::modules_added(reg, ms, (n - 1) as nat).reg;
        let m = ms[n - 1];
        assert(reg.id_for_path(m.path) is Some);
        registry::index_of_path_bounds(reg, m.path, 0);
        let id = reg.id_for_path(m.path)->0;
        same_but_impls_grows(reg, before, id);
        populate::same_modules_same_index(reg, before, m.path, 0);
        assert(before.id_for_path(m.path)->0 == id);
        assert(items_held(reg, id, m, m.ast.len()));
        assert forall|j: int| 0 <= j < m.ast.len() implies held(
            before,
            id,
            (#[trigger] m.ast[j]).inner,
        ) by {
            held_item_stays(reg, before, id, id, Seq::empty(), m.ast[j].inner);
        }
        held_items_add_impls(before, id, m, m.ast.len());
        same_but_impls_joins(reg, before, populate::modules_added(reg, ms, n).reg);
    }
}

/// Whether the first `n` modules are known together with their sources.
spec fn known(reg: RegistryV, ms: Seq<ModuleV>, n: nat) -> bool {
    forall|j: int|
        0 <= j < n ==> reg.id_for_path((#[trigger] ms[j]).path) is Some && reg.scope(
            reg.id_for_path(ms[j].path)->0,
        ).source_path is Some
}

proof fn known_modules_register_nothing(reg: RegistryV, ms: Seq<ModuleV>, n: nat)
    requires
        reg.wf(),
        n <= ms.len(),
        known(reg, ms, ms.len()),
    ensures
        populate::modules_registered(reg, ms, n) == reg,
    decreases n,
{
    if n > 0 {
        known_modules_register_nothing(reg, ms, (n - 1) as nat);
        let m = ms[n - 1];
        assert(reg.id_for_path(m.path) is Some);
        let id = reg.id_for_path(m.path)->0;
        registry::index_of_path_bounds(reg, m.path, 0);
        assert(reg.registered(m.path, Some(m.source_path)).modules =~= reg.modules);
    }
}

proof fn registered_are_known(reg: RegistryV, ms: Seq<ModuleV>, n: nat)
    requires
        reg.wf(),
        n <= ms.len(),
        reg.modules.len() + ms.len() < u32::MAX,
    ensures
        known(populate::modules_registered(reg, ms, n), ms, n),
    decreases n,
{
    if n > 0 {
        registered_are_known(reg, ms, (n - 1) as nat);
        populate::modules_registered_facts(reg, ms, (n - 1) as nat);
        populate::modules_registered_facts(reg, ms, n);
        let before = populate::modules_registered(reg, ms, (n - 1) as nat);
        let after = populate::modules_registered(reg, ms, n);
        let m = ms[n - 1];
        assert forall|j: int| 0 <= j < n implies after.id_for_path((#[trigger] ms[j]).path) is Some
            && after.scope(after.id_for_path(ms[j].path)->0).source_path is Some by {
            let path = ms[j].path;
            registry::index_of_path_bounds(before, path, 0);
            registry::index_of_path_bounds(before, m.path, 0);
            registry::registered_module_is_found(before, m.path, Some(m.source_path));
            if j < n - 1 {
                assert(before.id_for_path(path) is Some);
                registry::index_of_path_found(after, path, 0, before.index_of_path(path, 0));
            }
        }
    }
}

/// Whether two registries know the sources of the same modules.
spec fn same_sources(a: RegistryV, b: RegistryV) -> bool {
    populate::same_modules(a, b) && forall|i: int|
        0 <= i < a.modules.len() ==> (#[trigger] b.modules[i]).source_path
            == a.modules[i].source_path
}

proof fn items_keep_sources(reg: RegistryV, id: ModuleId, m: ModuleV, n: nat)
    requires
        reg.wf(),
        reg.has(id),
        n <= m.ast.len(),
        declares_once(m),
    ensures
        same_sources(reg, populate::items_added(reg, id, m, n).reg),
    decreases n,
{
    if n > 0 {
        items_keep_sources(reg, id, m, (n - 1) as nat);
        let before = populate::items_added(reg, id, m, (n - 1) as nat).reg;
        let after = populate::items_added(reg, id, m, n).reg;
        item_grows(before, id, m.ast[n - 1].inner);
        assert forall|i: int| 0 <= i < reg.modules.len() implies (#[trigger] after.modules[i]).path
            == reg.modules[i].path && after.modules[i].source_path == reg.modules[i].source_path by {
            assert(before.modules[i].source_path == reg.modules[i].source_path);
            assert(before.modules[i].path == reg.modules[i].path);
            if i != id.0 {
                assert(scopes_agree(before.modules[i], after.modules[i], Seq::empty()));
            }
        }
    }
}

proof fn modules_keep_sources(reg: RegistryV, ms: Seq<ModuleV>, n: nat)
    requires
        reg.wf(),
        n <= ms.len(),
        forall|i: int| 0 <= i < ms.len() ==> declares_once(#[trigger] ms[i]),
        forall|j: int| 0 <= j < ms.len() ==> reg.id_for_path((#[trigger] ms[j]).path) is Some,
    ensures
        same_sources(reg, populate::modules_added(reg, ms, n).reg),
    decreases n,
{
    if n > 0 {
        modules_keep_sources(reg, ms, (n - 1) as nat);
        populate::modules_added_keeps_wf(reg, ms, (n - 1) as nat);
        let before = populate::modules_added(reg, ms, (n - 1) as nat).reg;
        let m = ms[n - 1];
        populate::same_modules_same_index(reg, before, m.path, 0);
        registry::index_of_path_bounds(before, m.path, 0);
        let at = before.id_for_path(m.path)->0;
        items_keep_sources(before, at, m, m.ast.len());
        let after = populate::modules_added(reg, ms, n).reg;
        assert forall|i: int| 0 <= i < reg.modules.len() implies (#[trigger] after.modules[i]).path
            == reg.modules[i].path && after.modules[i].source_path == reg.modules[i].source_path by {
            assert(before.modules[i].source_path == reg.modules[i].source_path);
            assert(before.modules[i].path == reg.modules[i].path);
        }
    }
}

/// Populating a registry twice from the same program is populating it once:
/// the second time there is nothing to complain about and nothing changes but
/// the lists of `impl`s, which are entered every time, where the first time
/// there was nothing to complain about.  A module that declares a name twice
/// would have its last declaration replace the first.
pub proof fn populating_twice_is_once(reg: RegistryV, ms: Seq<ModuleV>)
    requires
        reg.wf(),
        reg.modules.len() + ms.len() < u32::MAX,
        paths_differ(ms),
        forall|i: int| 0 <= i < ms.len() ==> declares_once(#[trigger] ms[i]),
        populate::populated(reg, ms).errors.len() == 0,
    ensures
        populate::populated(populate::populated(reg, ms).reg, ms).errors.len() == 0,
        same_but_impls(
            populate::populated(reg, ms).reg,
            populate::populated(populate::populated(reg, ms).reg, ms).reg,
        ),
{
    let named = populate::modules_registered(reg, ms, ms.len());
    let once = populate::populated(reg, ms).reg;
    populate::modules_registered_facts(reg, ms, ms.len());
    registered_are_known(reg, ms, ms.len());
    populate::modules_added_keeps_wf(named, ms, ms.len());
    added_modules_are_held(named, ms, ms.len());
    modules_keep_sources(named, ms, ms.len());
    assert forall|j: int| 0 <= j < ms.len() implies once.id_for_path((#[trigger] ms[j]).path) is Some
        && once.scope(once.id_for_path(ms[j].path)->0).source_path is Some by {
        populate::same_modules_same_index(named, once, ms[j].path, 0);
        registry::index_of_path_bounds(named, ms[j].path, 0);
        assert(named.id_for_path(ms[j].path) is Some);
    }
    known_modules_register_nothing(once, ms, ms.len());
    held_modules_add_impls(once, ms, ms.len());
}

} // verus!
