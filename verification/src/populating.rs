//! What a registry knows once a program is entered: what the program declares.

use vstd::prelude::*;

use crate::api::ast;
use crate::api::ast::{
    ConstDeclV, DirectiveV, EnumDeclV, ImplDeclV, ImportV, ItemV, MachineItemV, MachineV, PatternV,
    ProtoDeclV, RecordDeclV, TypeV, VariantPayloadV,
};
use crate::api::expr;
use crate::api::expr::{HandlerV, Head};
use crate::error_handle;
use crate::loader::ModuleV;
use crate::order::{picks, picks_last, picks_not_last};
use crate::populate;
use crate::registry;
use crate::registry::{
    ConstValueV, ModuleId, RegistryV, ResolutionV, ScopeV, SignatureV, VariantPayloadEntryV,
};
use crate::span::Spanned;
use crate::text::Text;

verus! {

// ── entries ────────────────────────────────────────────────────────────────

/// Whether names are those of identifiers, in their order.
pub open spec fn are_named(names: Seq<Text>, ids: Seq<Spanned<Text>>) -> bool {
    names.len() == ids.len() && forall|i: int|
        0 <= i < ids.len() ==> names[i] == (#[trigger] ids[i]).inner
}

/// Whether texts are those of types, in their order.
pub open spec fn are_types(texts: Seq<Text>, tys: Seq<Spanned<TypeV>>) -> bool {
    texts.len() == tys.len() && forall|i: int|
        0 <= i < tys.len() ==> texts[i] == ast::type_text((#[trigger] tys[i]).inner)
}

/// Whether a text is that of a result, or `pid` where there is none.
pub open spec fn is_result(t: Text, ty: Option<Spanned<TypeV>>) -> bool {
    match ty {
        Some(x) => t == ast::type_text(x.inner),
        None => t == "pid"@,
    }
}

/// Which parameters a caller gives: all but `_`.
pub open spec fn given(ps: Seq<Spanned<PatternV>>) -> spec_fn(int) -> bool {
    |i: int| !(ps[i].inner.kind is Wildcard)
}

/// Whether a signature is that of a branch: the types of the parameters that a
/// caller gives, in their order, and the result.
pub open spec fn is_signature(sig: SignatureV, h: HandlerV) -> bool {
    &&& is_result(sig.ret, h.ret_ty)
    &&& exists|at: Seq<int>|
        {
            &&& #[trigger] picks(at, 0, h.patterns.len(), given(h.patterns))
            &&& sig.params.len() == at.len()
            &&& forall|k: int|
                0 <= k < at.len() ==> #[trigger] sig.params[k] == ast::type_text(
                    h.patterns[at[k]].inner.ty.inner,
                )
        }
}

/// Which members of a machine are branches.
pub open spec fn branches(items: Seq<Spanned<MachineItemV>>) -> spec_fn(int) -> bool {
    |i: int| items[i].inner is Branch
}

/// Whether signatures are those of the branches among the members, in their
/// order.
pub open spec fn are_signatures(sigs: Seq<SignatureV>, items: Seq<Spanned<MachineItemV>>) -> bool {
    exists|at: Seq<int>|
        {
            &&& #[trigger] picks(at, 0, items.len(), branches(items))
            &&& sigs.len() == at.len()
            &&& forall|k: int|
                0 <= k < at.len() ==> match items[at[k]].inner {
                    MachineItemV::Branch(b) => is_signature(#[trigger] sigs[k], b.head),
                    _ => false,
                }
        }
}

/// Whether a scope knows a machine.
pub open spec fn knows_machine(s: ScopeV, id: ModuleId, m: MachineV) -> bool {
    let e = s.machines[m.ident.inner];
    &&& s.machines.contains_key(m.ident.inner)
    &&& e.name == m.ident.inner
    &&& e.module == id
    &&& e.is_pub == m.vis
    &&& are_named(e.type_params, m.generics)
    &&& are_signatures(e.branches, m.items)
}

/// Whether a scope knows a constant, with the value that its literal writes.
pub open spec fn knows_const(s: ScopeV, c: ConstDeclV) -> bool {
    let e = s.consts[c.ident.inner];
    &&& s.consts.contains_key(c.ident.inner)
    &&& e.vis == c.vis
    &&& match c.value.head {
        Head::Num(w, _) => e.ty == "i64"@ && match e.value {
            ConstValueV::Int(n) => expr::int_literal(w) == Some(n),
            _ => false,
        },
        Head::Str(w, _) => e.ty == "str"@ && e.value == ConstValueV::Str(w),
        Head::Bool(b) => e.ty == "bool"@ && e.value == ConstValueV::Bool(b),
        Head::Atom(w) => e.ty == "atom"@ && e.value == ConstValueV::Atom(w),
        _ => false,
    }
}

/// Whether a scope knows a record, with its fields in their order.
pub open spec fn knows_record(s: ScopeV, d: RecordDeclV) -> bool {
    let fs = s.records[d.ident.inner].fields;
    &&& s.records.contains_key(d.ident.inner)
    &&& fs.len() == d.fields.len()
    &&& forall|i: int|
        0 <= i < fs.len() ==> (#[trigger] fs[i]).0 == d.fields[i].inner.name && fs[i].1
            == d.fields[i].inner.ty
}

/// Whether a scope knows an enum, with the names of its variants in their
/// order.
pub open spec fn knows_enum(s: ScopeV, d: EnumDeclV) -> bool {
    let vs = s.enums[d.name.inner].variants;
    &&& s.enums.contains_key(d.name.inner)
    &&& vs.len() == d.variants.len()
    &&& forall|i: int|
        0 <= i < vs.len() ==> (#[trigger] vs[i]).name == d.variants[i].inner.name.inner
}

/// Whether a scope knows a proto, with its methods in their order.
pub open spec fn knows_proto(s: ScopeV, id: ModuleId, d: ProtoDeclV) -> bool {
    let e = s.protos[d.name.inner];
    &&& s.protos.contains_key(d.name.inner)
    &&& e.name == d.name.inner
    &&& e.module == id
    &&& are_named(e.parents, d.parents)
    &&& e.required.len() == d.methods.len()
    &&& forall|i: int|
        0 <= i < d.methods.len() ==> {
            &&& e.required[i].0 == (#[trigger] d.methods[i]).inner.name.inner
            &&& are_types(e.required[i].1, d.methods[i].inner.params)
            &&& is_result(e.required[i].2, d.methods[i].inner.ret)
        }
}

/// Whether a scope knows what an assertion says.
pub open spec fn knows_impl(s: ScopeV, id: ModuleId, d: ImplDeclV) -> bool {
    exists|i: int|
        {
            &&& 0 <= i < s.impls.len()
            &&& (#[trigger] s.impls[i]).ty == d.ty.inner
            &&& s.impls[i].module == id
            &&& s.impls[i].span == d.ty.span
            &&& are_named(s.impls[i].protos, d.protos)
        }
}

/// The name of the foreign function that a directive declares.
pub open spec fn foreign_name(d: DirectiveV) -> Option<Text> {
    if d.name.inner == "ffi"@ && d.args.len() > 0 {
        match d.args[0].inner {
            TypeV::Named(n) => Some(n.inner),
            _ => None,
        }
    } else {
        None
    }
}

/// Whether a scope knows a foreign function: its parameters in their order, and
/// its result, `{}` where there is none.
pub open spec fn knows_foreign(s: ScopeV, d: DirectiveV) -> bool {
    d.args.len() == 3 && match (d.args[0].inner, d.args[1].inner, d.args[2].inner) {
        (TypeV::Named(n), TypeV::Struct(ps), TypeV::Struct(rs)) => {
            &&& s.ffi_fns.contains_key(n.inner)
            &&& are_types(s.ffi_fns[n.inner].params, ps)
            &&& s.ffi_fns[n.inner].ret == if rs.len() > 0 {
                ast::type_text(rs[0].inner)
            } else {
                "{}"@
            }
        },
        _ => false,
    }
}

// ── imports ────────────────────────────────────────────────────────────────

/// A leaf of an import: the names before the last, the last, and the name it
/// goes by.
pub struct Leaf {
    pub path: Seq<Text>,
    pub name: Text,
    pub local: Text,
}

/// Whether an import below `prefix` has a leaf.
pub open spec fn has_leaf(im: Spanned<ImportV>, prefix: Seq<Text>, l: Leaf) -> bool
    decreases im.inner,
{
    match im.inner {
        ImportV::Import(id, Some(next), _) => has_leaf(*next, prefix.push(id.inner), l),
        ImportV::Import(id, None, alias) => {
            &&& l.path == prefix
            &&& l.name == id.inner
            &&& l.local == match alias {
                Some(a) => a.inner,
                None => id.inner,
            }
        },
        ImportV::MultiImport(es) => exists|i: int|
            0 <= i < es.len() && has_leaf(#[trigger] es[i], prefix, l),
    }
}

/// Whether a leaf is bound in a module: its local name stands for the module
/// at its full path, or, where there is none, for the item of its name in the
/// module before it.
pub open spec fn is_bound(reg: RegistryV, id: ModuleId, l: Leaf) -> bool {
    let b = reg.scope(id).imports[l.local];
    &&& reg.scope(id).imports.contains_key(l.local)
    &&& reg.has(b.target_module)
    &&& match b.target_item {
        None => reg.scope(b.target_module).path == l.path.push(l.name),
        Some(n) => {
            &&& n == l.name
            &&& reg.scope(b.target_module).path == l.path
            &&& forall|i: int|
                0 <= i < reg.modules.len() ==> (#[trigger] reg.modules[i]).path != l.path.push(
                    l.name,
                )
        },
    }
}

/// Whether no other leaf of an import goes by the name of `l`.
pub open spec fn is_lone(im: Spanned<ImportV>, prefix: Seq<Text>, l: Leaf) -> bool {
    forall|o: Leaf| #[trigger] has_leaf(im, prefix, o) && o.local == l.local ==> o == l
}

/// Whether the leaves of an import that share their name with no other are
/// bound.
pub open spec fn are_bound(reg: RegistryV, id: ModuleId, im: Spanned<ImportV>) -> bool {
    forall|l: Leaf|
        #[trigger] has_leaf(im, Seq::empty(), l) && is_lone(im, Seq::empty(), l) ==> is_bound(
            reg,
            id,
            l,
        )
}

proof fn leaf_binds(
    reg: RegistryV,
    id: ModuleId,
    im: Spanned<ImportV>,
    prefix: Seq<Text>,
    ident: Spanned<Text>,
    alias: Option<Spanned<Text>>,
    l: Leaf,
)
    requires
        reg.wf(),
        reg.has(id),
        im.inner == ImportV::Import(ident, None, alias),
        is_lone(im, prefix, l),
    ensures
        ({
            let r = populate::leaf_bound(reg, id, im.span, prefix, ident, alias);
            r.errors.len() == 0 && (is_bound(reg, id, l) || has_leaf(im, prefix, l)) ==> is_bound(
                r.reg,
                id,
                l,
            )
        }),
{
    let r = populate::leaf_bound(reg, id, im.span, prefix, ident, alias);
    let full = prefix.push(ident.inner);
    registry::index_of_path_bounds(reg, full, 0);
    registry::index_of_path_bounds(reg, prefix, 0);
    let local = match alias {
        Some(a) => a.inner,
        None => ident.inner,
    };
    let here = Leaf { path: prefix, name: ident.inner, local };
    assert(has_leaf(im, prefix, here));
    if r.errors.len() == 0 {
        assert(populate::same_modules(reg, r.reg));
        assert forall|i: int| 0 <= i < reg.modules.len() implies (#[trigger] r.reg.modules[i]).path
            == reg.modules[i].path by {}
        if local == l.local {
            assert(here == l);
        } else {
            assert(r.reg.scope(id).imports.contains_key(l.local) == reg.scope(
                id,
            ).imports.contains_key(l.local));
        }
    }
}

proof fn import_binds(
    reg: RegistryV,
    id: ModuleId,
    im: Spanned<ImportV>,
    prefix: Seq<Text>,
    l: Leaf,
)
    requires
        reg.wf(),
        reg.has(id),
        is_lone(im, prefix, l),
    ensures
        ({
            let r = populate::import_added(reg, id, im, prefix);
            r.errors.len() == 0 && (is_bound(reg, id, l) || has_leaf(im, prefix, l)) ==> is_bound(
                r.reg,
                id,
                l,
            )
        }),
    decreases im.inner, 0nat,
{
    match im.inner {
        ImportV::Import(ident, Some(next), _) => {
            assert forall|o: Leaf| #[trigger]
                has_leaf(*next, prefix.push(ident.inner), o) && o.local == l.local implies o == l by {
                assert(has_leaf(im, prefix, o));
            }
            import_binds(reg, id, *next, prefix.push(ident.inner), l);
        },
        ImportV::Import(ident, None, alias) => {
            leaf_binds(reg, id, im, prefix, ident, alias, l);
        },
        ImportV::MultiImport(es) => {
            assert forall|k: int| 0 <= k < es.len() implies is_lone(#[trigger] es[k], prefix, l) by {
                assert forall|o: Leaf| #[trigger]
                    has_leaf(es[k], prefix, o) && o.local == l.local implies o == l by {
                    assert(has_leaf(im, prefix, o));
                }
            }
            imports_bind(reg, id, es, es.len(), prefix, l);
        },
    }
}

proof fn imports_bind(
    reg: RegistryV,
    id: ModuleId,
    es: Seq<Spanned<ImportV>>,
    n: nat,
    prefix: Seq<Text>,
    l: Leaf,
)
    requires
        reg.wf(),
        reg.has(id),
        n <= es.len(),
        forall|k: int| 0 <= k < es.len() ==> is_lone(#[trigger] es[k], prefix, l),
    ensures
        ({
            let r = populate::imports_added(reg, id, es, n, prefix);
            r.errors.len() == 0 && (is_bound(reg, id, l) || exists|k: int|
                0 <= k < n && has_leaf(#[trigger] es[k], prefix, l)) ==> is_bound(r.reg, id, l)
        }),
    decreases es, n,
{
    if n > 0 {
        imports_bind(reg, id, es, (n - 1) as nat, prefix, l);
        let before = populate::imports_added(reg, id, es, (n - 1) as nat, prefix);
        populate::imports_added_keeps_wf(reg, id, es, (n - 1) as nat, prefix);
        assert(decreases_to!(es => es[n - 1]));
        import_binds(before.reg, id, es[n - 1], prefix, l);
    }
}

// ── items ──────────────────────────────────────────────────────────────────

/// Whether a registry knows an item of a module.
pub open spec fn knows(reg: RegistryV, id: ModuleId, item: ItemV) -> bool {
    let s = reg.scope(id);
    match item {
        ItemV::Machine(m) => knows_machine(s, id, m.inner),
        ItemV::Const(c) => knows_const(s, c.inner),
        ItemV::Record(d) => knows_record(s, d.inner),
        ItemV::Enum(d) => knows_enum(s, d.inner),
        ItemV::Proto(d) => knows_proto(s, id, d.inner),
        ItemV::Impl(d) => knows_impl(s, id, d.inner),
        ItemV::Directive(d) => d.inner.name.inner == "ffi"@ ==> knows_foreign(s, d.inner),
        ItemV::Import(im) => are_bound(reg, id, im),
    }
}

/// Whether `b` takes the place of `a`: it declares something of the same kind
/// under the same name.
pub open spec fn replaces(a: ItemV, b: ItemV) -> bool {
    match (a, b) {
        (ItemV::Machine(x), ItemV::Machine(y)) => x.inner.ident.inner == y.inner.ident.inner,
        (ItemV::Const(x), ItemV::Const(y)) => x.inner.ident.inner == y.inner.ident.inner,
        (ItemV::Proto(x), ItemV::Proto(y)) => x.inner.name.inner == y.inner.name.inner,
        (ItemV::Directive(x), ItemV::Directive(y)) => foreign_name(x.inner) == foreign_name(
            y.inner,
        ),
        (ItemV::Import(x), ItemV::Import(y)) => exists|l: Leaf, o: Leaf|
            {
                &&& #[trigger] has_leaf(x, Seq::empty(), l)
                &&& #[trigger] has_leaf(y, Seq::empty(), o)
                &&& l.local == o.local
                &&& l != o
            },
        _ => false,
    }
}

proof fn params_are_given(ps: Seq<Spanned<PatternV>>, n: nat) -> (at: Seq<int>)
    requires
        n <= ps.len(),
    ensures
        picks(at, 0, n, given(ps)),
        populate::param_texts(ps, n).len() == at.len(),
        forall|k: int|
            0 <= k < at.len() ==> #[trigger] populate::param_texts(ps, n)[k] == ast::type_text(
                ps[at[k]].inner.ty.inner,
            ),
    decreases n,
{
    if n == 0 {
        Seq::empty()
    } else {
        let was = params_are_given(ps, (n - 1) as nat);
        if given(ps)(n - 1) {
            picks_last(was, (n - 1) as nat, given(ps));
            was.push(n - 1)
        } else {
            picks_not_last(was, (n - 1) as nat, given(ps));
            was
        }
    }
}

proof fn signatures_are_signatures(items: Seq<Spanned<MachineItemV>>, n: nat) -> (at: Seq<int>)
    requires
        n <= items.len(),
    ensures
        ({
            let sigs = populate::branch_sigs(items, n);
            &&& picks(at, 0, n, branches(items))
            &&& sigs.len() == at.len()
            &&& forall|k: int|
                0 <= k < at.len() ==> match items[at[k]].inner {
                    MachineItemV::Branch(b) => is_signature(#[trigger] sigs[k], b.head),
                    _ => false,
                }
        }),
    decreases n,
{
    if n == 0 {
        Seq::empty()
    } else {
        let was = signatures_are_signatures(items, (n - 1) as nat);
        let before = populate::branch_sigs(items, (n - 1) as nat);
        let sigs = populate::branch_sigs(items, n);
        if let MachineItemV::Branch(b) = items[n - 1].inner {
            picks_last(was, (n - 1) as nat, branches(items));
            let ps = params_are_given(b.head.patterns, b.head.patterns.len());
            assert(is_signature(sigs[was.len() as int], b.head));
            let at = was.push(n - 1);
            assert forall|k: int| 0 <= k < at.len() implies match items[at[k]].inner {
                MachineItemV::Branch(b) => is_signature(#[trigger] sigs[k], b.head),
                _ => false,
            } by {
                if k < was.len() {
                    assert(sigs[k] == before[k]);
                    assert(at[k] == was[k]);
                }
            }
            at
        } else {
            picks_not_last(was, (n - 1) as nat, branches(items));
            was
        }
    }
}

/// An item that is entered without complaint is known.
pub proof fn entered_items_are_known(reg: RegistryV, id: ModuleId, item: ItemV)
    requires
        reg.wf(),
        reg.has(id),
    ensures
        populate::item_added(reg, id, item).errors.len() == 0 ==> knows(
            populate::item_added(reg, id, item).reg,
            id,
            item,
        ),
{
    let r = populate::item_added(reg, id, item);
    let s = r.reg.scope(id);
    if r.errors.len() == 0 {
        match item {
            ItemV::Machine(m) => {
                let at = signatures_are_signatures(m.inner.items, m.inner.items.len());
                assert(knows_machine(s, id, m.inner));
            },
            ItemV::Import(im) => {
                assert forall|l: Leaf| #[trigger]
                    has_leaf(im, Seq::empty(), l) && is_lone(im, Seq::empty(), l) implies is_bound(
                    r.reg,
                    id,
                    l,
                ) by {
                    import_binds(reg, id, im, Seq::empty(), l);
                }
            },
            ItemV::Impl(d) => {
                let last = s.impls.len() - 1;
                assert(are_named(s.impls[last].protos, d.inner.protos));
            },
            ItemV::Proto(d) => {
                assert(knows_proto(s, id, d.inner));
            },
            ItemV::Record(d) => {
                assert(s.records[d.inner.ident.inner].fields == populate::record_fields(d.inner));
            },
            ItemV::Enum(d) => {
                let entry = populate::enum_entry(d.inner, id)->Ok_0;
                assert forall|i: int| 0 <= i < entry.variants.len() implies (
                #[trigger] s.enums[d.inner.name.inner].variants[i]).name
                    == d.inner.variants[i].inner.name.inner by {
                    assert(entry.variants[i].name == d.inner.variants[i].inner.name.inner);
                }
            },
            _ => {},
        }
    }
}

/// What is known stays known when another item is entered that does not take
/// its place.
pub proof fn known_items_stay_known(
    reg: RegistryV,
    id: ModuleId,
    item: ItemV,
    other: ModuleId,
    next: ItemV,
)
    requires
        reg.wf(),
        reg.has(id),
        reg.has(other),
        knows(reg, id, item),
        other == id ==> !replaces(item, next),
        populate::item_added(reg, other, next).errors.len() == 0,
    ensures
        knows(populate::item_added(reg, other, next).reg, id, item),
{
    let r = populate::item_added(reg, other, next);
    populate::item_added_keeps_wf(reg, other, next);
    assert forall|i: int| 0 <= i < reg.modules.len() implies (#[trigger] r.reg.modules[i]).path
        == reg.modules[i].path by {}
    if let ItemV::Import(y) = next {
        only_imports_change(reg, other, y, Seq::empty());
    }
    if let ItemV::Import(x) = item {
        assert forall|l: Leaf| #[trigger]
            has_leaf(x, Seq::empty(), l) && is_lone(x, Seq::empty(), l) implies is_bound(
            r.reg,
            id,
            l,
        ) by {
            assert(is_bound(reg, id, l));
            if other == id {
                if let ItemV::Import(y) = next {
                    assert forall|o: Leaf| #[trigger]
                        has_leaf(y, Seq::empty(), o) && o.local == l.local implies o == l by {
                        assert(has_leaf(x, Seq::empty(), l));
                    }
                    import_binds(reg, id, y, Seq::empty(), l);
                } else {
                    assert(r.reg.scope(id).imports == reg.scope(id).imports);
                }
            } else {
                assert(r.reg.scope(id) == reg.scope(id));
            }
        }
    } else if let ItemV::Impl(d) = item {
        let s = reg.scope(id);
        let i = choose|i: int|
            {
                &&& 0 <= i < s.impls.len()
                &&& (#[trigger] s.impls[i]).ty == d.inner.ty.inner
                &&& s.impls[i].module == id
                &&& s.impls[i].span == d.inner.ty.span
                &&& are_named(s.impls[i].protos, d.inner.protos)
            };
        assert(r.reg.scope(id).impls[i] == s.impls[i]);
    }
}

proof fn only_imports_change(
    reg: RegistryV,
    id: ModuleId,
    im: Spanned<ImportV>,
    prefix: Seq<Text>,
)
    requires
        reg.wf(),
        reg.has(id),
    ensures
        ({
            let r = populate::import_added(reg, id, im, prefix).reg;
            &&& r.modules.len() == reg.modules.len()
            &&& forall|i: int|
                0 <= i < reg.modules.len() && i != id.0 ==> #[trigger] r.modules[i]
                    == reg.modules[i]
            &&& r.scope(id) == (ScopeV { imports: r.scope(id).imports, ..reg.scope(id) })
        }),
    decreases im.inner, 0nat,
{
    match im.inner {
        ImportV::Import(ident, Some(next), _) => {
            only_imports_change(reg, id, *next, prefix.push(ident.inner));
        },
        ImportV::Import(ident, None, alias) => {},
        ImportV::MultiImport(es) => {
            only_imports_change_in(reg, id, es, es.len(), prefix);
        },
    }
}

proof fn only_imports_change_in(
    reg: RegistryV,
    id: ModuleId,
    es: Seq<Spanned<ImportV>>,
    n: nat,
    prefix: Seq<Text>,
)
    requires
        reg.wf(),
        reg.has(id),
        n <= es.len(),
    ensures
        ({
            let r = populate::imports_added(reg, id, es, n, prefix).reg;
            &&& r.modules.len() == reg.modules.len()
            &&& forall|i: int|
                0 <= i < reg.modules.len() && i != id.0 ==> #[trigger] r.modules[i]
                    == reg.modules[i]
            &&& r.scope(id) == (ScopeV { imports: r.scope(id).imports, ..reg.scope(id) })
        }),
    decreases es, n,
{
    if n > 0 {
        only_imports_change_in(reg, id, es, (n - 1) as nat, prefix);
        populate::imports_added_keeps_wf(reg, id, es, (n - 1) as nat, prefix);
        let before = populate::imports_added(reg, id, es, (n - 1) as nat, prefix).reg;
        assert(decreases_to!(es => es[n - 1]));
        only_imports_change(before, id, es[n - 1], prefix);
    }
}

// ── programs ───────────────────────────────────────────────────────────────

/// Whether nothing that comes later takes the place of item `i` of module `k`.
pub open spec fn lasts(ms: Seq<ModuleV>, k: int, i: int) -> bool {
    forall|q: int, j: int|
        {
            &&& 0 <= q < ms.len()
            &&& 0 <= j < ms[q].ast.len()
            &&& ms[q].path == ms[k].path
            &&& q > k || (q == k && j > i)
        } ==> !replaces(ms[k].ast[i].inner, (#[trigger] ms[q].ast[j]).inner)
}

proof fn items_stay_known(
    reg: RegistryV,
    id: ModuleId,
    other: ModuleId,
    m: ModuleV,
    from: nat,
    n: nat,
    item: ItemV,
)
    requires
        reg.wf(),
        reg.has(id),
        reg.has(other),
        from <= n <= m.ast.len(),
        populate::items_added(reg, other, m, n).errors.len() == 0,
        knows(populate::items_added(reg, other, m, from).reg, id, item),
        other == id ==> forall|j: int|
            from <= j < n ==> !replaces(item, (#[trigger] m.ast[j]).inner),
    ensures
        knows(populate::items_added(reg, other, m, n).reg, id, item),
    decreases n,
{
    if from < n {
        let b = populate::items_added(reg, other, m, (n - 1) as nat);
        let one = populate::item_added(b.reg, other, m.ast[n - 1].inner);
        assert(error_handle::tagged_all(one.errors, m.source_path).len() == one.errors.len());
        items_stay_known(reg, id, other, m, from, (n - 1) as nat, item);
        populate::items_added_keeps_wf(reg, other, m, (n - 1) as nat);
        known_items_stay_known(b.reg, id, item, other, m.ast[n - 1].inner);
    }
}

proof fn no_errors_before(reg: RegistryV, id: ModuleId, m: ModuleV, from: nat, n: nat)
    requires
        from <= n,
        populate::items_added(reg, id, m, n).errors.len() == 0,
    ensures
        populate::items_added(reg, id, m, from).errors.len() == 0,
    decreases n,
{
    if from < n {
        no_errors_before(reg, id, m, from, (n - 1) as nat);
    }
}

proof fn module_items_are_known(reg: RegistryV, id: ModuleId, m: ModuleV, i: int)
    requires
        reg.wf(),
        reg.has(id),
        0 <= i < m.ast.len(),
        populate::items_added(reg, id, m, m.ast.len()).errors.len() == 0,
        forall|j: int|
            i < j < m.ast.len() ==> !replaces(m.ast[i].inner, (#[trigger] m.ast[j]).inner),
    ensures
        knows(populate::items_added(reg, id, m, m.ast.len()).reg, id, m.ast[i].inner),
{
    let n = (i + 1) as nat;
    no_errors_before(reg, id, m, n, m.ast.len());
    let b = populate::items_added(reg, id, m, i as nat);
    populate::items_added_keeps_wf(reg, id, m, i as nat);
    let one = populate::item_added(b.reg, id, m.ast[i].inner);
    assert(error_handle::tagged_all(one.errors, m.source_path).len() == one.errors.len());
    entered_items_are_known(b.reg, id, m.ast[i].inner);
    items_stay_known(reg, id, id, m, n, m.ast.len(), m.ast[i].inner);
}

proof fn modules_are_known(reg: RegistryV, ms: Seq<ModuleV>, n: nat, k: int, i: int)
    requires
        reg.wf(),
        0 <= k < n <= ms.len(),
        0 <= i < ms[k].ast.len(),
        forall|j: int| 0 <= j < ms.len() ==> reg.id_for_path((#[trigger] ms[j]).path) is Some,
        populate::modules_added(reg, ms, n).errors.len() == 0,
        lasts(ms, k, i),
    ensures
        knows(
            populate::modules_added(reg, ms, n).reg,
            reg.id_for_path(ms[k].path)->0,
            ms[k].ast[i].inner,
        ),
    decreases n,
{
    let m = (n - 1) as nat;
    let b = populate::modules_added(reg, ms, m);
    let last = ms[n - 1];
    let item = ms[k].ast[i].inner;
    populate::modules_added_keeps_wf(reg, ms, m);
    populate::same_modules_same_index(reg, b.reg, last.path, 0);
    populate::same_modules_same_index(reg, b.reg, ms[k].path, 0);
    populate::id_for_path_exists(b.reg, last.path);
    populate::id_for_path_exists(b.reg, ms[k].path);
    registry::index_of_path_bounds(reg, last.path, 0);
    registry::index_of_path_bounds(reg, ms[k].path, 0);
    let id = reg.id_for_path(ms[k].path)->0;
    let other = b.reg.id_for_path(last.path)->0;
    assert(id == other ==> last.path == ms[k].path);
    if k == n - 1 {
        assert forall|j: int| i < j < last.ast.len() implies !replaces(
            item,
            (#[trigger] last.ast[j]).inner,
        ) by {
            assert(!replaces(item, ms[k].ast[j].inner));
        }
        module_items_are_known(b.reg, id, last, i);
    } else {
        modules_are_known(reg, ms, m, k, i);
        if other == id {
            assert forall|j: int| 0 <= j < last.ast.len() implies !replaces(
                item,
                (#[trigger] last.ast[j]).inner,
            ) by {
                assert(!replaces(item, ms[n - 1].ast[j].inner));
            }
        }
        items_stay_known(b.reg, id, other, last, 0, last.ast.len(), item);
    }
}

/// A program that is entered without complaint is known: every item of every
/// module that nothing later takes the place of, in the module that has its
/// path.
pub proof fn populated_programs_are_known(reg: RegistryV, ms: Seq<ModuleV>, k: int, i: int)
    requires
        reg.wf(),
        reg.modules.len() + ms.len() < u32::MAX,
        0 <= k < ms.len(),
        0 <= i < ms[k].ast.len(),
        populate::populated(reg, ms).errors.len() == 0,
        lasts(ms, k, i),
    ensures
        ({
            let r = populate::populated(reg, ms).reg;
            &&& r.id_for_path(ms[k].path) is Some
            &&& r.has(r.id_for_path(ms[k].path)->0)
            &&& r.scope(r.id_for_path(ms[k].path)->0).path == ms[k].path
            &&& knows(r, r.id_for_path(ms[k].path)->0, ms[k].ast[i].inner)
        }),
{
    let named = populate::modules_registered(reg, ms, ms.len());
    populate::modules_registered_facts(reg, ms, ms.len());
    populate::modules_added_keeps_wf(named, ms, ms.len());
    let r = populate::populated(reg, ms).reg;
    populate::same_modules_same_index(named, r, ms[k].path, 0);
    populate::id_for_path_exists(r, ms[k].path);
    registry::index_of_path_bounds(r, ms[k].path, 0);
    modules_are_known(named, ms, ms.len(), k, i);
}

/// An enum that is entered under a new name is entered whole: variant `i` has
/// number `i` and carries what it declares.
pub proof fn new_enums_are_entered_whole(reg: RegistryV, id: ModuleId, d: Spanned<EnumDeclV>)
    requires
        reg.wf(),
        reg.has(id),
        !reg.scope(id).enums.contains_key(d.inner.name.inner),
        d.inner.variants.len() <= u64::MAX,
        populate::item_added(reg, id, ItemV::Enum(d)).errors.len() == 0,
    ensures
        ({
            let e = populate::item_added(reg, id, ItemV::Enum(d)).reg.scope(
                id,
            ).enums[d.inner.name.inner];
            &&& are_named(e.type_params, d.inner.type_params)
            &&& e.variants.len() == d.inner.variants.len()
            &&& forall|i: int|
                0 <= i < e.variants.len() ==> (#[trigger] e.variants[i]).tag == i && carries(
                    e.variants[i].payload,
                    d.inner.variants[i].inner.payload,
                )
        }),
{
    let e = populate::item_added(reg, id, ItemV::Enum(d)).reg.scope(id).enums[d.inner.name.inner];
    let entry = populate::enum_entry(d.inner, id)->Ok_0;
    assert(e == entry);
}

/// Whether an entry carries what a variant declares, in its order.
pub open spec fn carries(e: VariantPayloadEntryV, p: VariantPayloadV) -> bool {
    match (e, p) {
        (VariantPayloadEntryV::NoPayload, VariantPayloadV::NoPayload) => true,
        (VariantPayloadEntryV::Tuple(a), VariantPayloadV::Tuple(b)) => a.len() == b.len()
            && forall|i: int| 0 <= i < b.len() ==> a[i] == (#[trigger] b[i]).inner,
        (VariantPayloadEntryV::Record(a), VariantPayloadV::Record(b)) => a.len() == b.len()
            && forall|i: int|
            0 <= i < b.len() ==> a[i].0 == (#[trigger] b[i]).0.inner && a[i].1 == b[i].1.inner,
        _ => false,
    }
}

// ── names ──────────────────────────────────────────────────────────────────

/// Whether a module declares a machine, a foreign function, a constant or a
/// record of this name.
pub open spec fn declares(s: ScopeV, name: Text) -> bool {
    s.machines.contains_key(name) || s.ffi_fns.contains_key(name) || s.consts.contains_key(name)
        || s.records.contains_key(name)
}

/// Whether a module offers every other one something of this name.
pub open spec fn offers(s: ScopeV, name: Text) -> bool {
    ||| s.machines.contains_key(name) && s.machines[name].is_pub
    ||| s.consts.contains_key(name) && s.consts[name].vis
}

/// Whether what is found is declared under `name` in the module `s`.
pub open spec fn is_declared(s: ScopeV, name: Text, r: ResolutionV) -> bool {
    match r {
        ResolutionV::Machine(m) => s.machines.contains_key(name) && m == s.machines[name],
        ResolutionV::Ffi(f) => s.ffi_fns.contains_key(name) && f == s.ffi_fns[name],
        ResolutionV::Const(c) => s.consts.contains_key(name) && c == s.consts[name],
        ResolutionV::Record(d) => s.records.contains_key(name) && d == s.records[name],
        ResolutionV::Rt(_) => false,
    }
}

proof fn what_is_offered(reg: RegistryV, name: Text, from: int)
    requires
        0 <= from <= reg.modules.len(),
    ensures
        match reg.resolved_publicly(name, from) {
            Some(r) => exists|i: int|
                {
                    &&& from <= i < reg.modules.len()
                    &&& offers(#[trigger] reg.modules[i], name)
                    &&& is_declared(reg.modules[i], name, r)
                    &&& r matches ResolutionV::Machine(m) ==> m.is_pub
                    &&& r matches ResolutionV::Const(c) ==> c.vis
                    &&& forall|j: int| from <= j < i ==> !offers(#[trigger] reg.modules[j], name)
                },
            None => forall|i: int|
                from <= i < reg.modules.len() ==> !offers(#[trigger] reg.modules[i], name),
        },
    decreases reg.modules.len() - from,
{
    if from < reg.modules.len() {
        if offers(reg.modules[from], name) {
            assert(is_declared(reg.modules[from], name, reg.resolved_publicly(name, from)->0));
        } else {
            what_is_offered(reg, name, from + 1);
        }
    }
}

/// A name denotes what is nearest: a function of the runtime, what its module
/// declares, what the module imports under it, and only then what the first
/// of the modules that offer something of the name offers.
pub proof fn names_denote_what_is_nearest(reg: RegistryV, id: ModuleId, name: Text)
    requires
        reg.wf(),
        reg.has(id),
    ensures
        ({
            let s = reg.scope(id);
            let found = reg.resolved(id, name);
            let b = s.imports[name];
            let from = reg.scope(b.target_module);
            let imported = s.imports.contains_key(name) && b.target_item is Some;
            if reg.rt_fns.contains_key(name) {
                found == Some(ResolutionV::Rt(reg.rt_fns[name]))
            } else if declares(s, name) {
                found is Some && is_declared(s, name, found->0)
            } else if imported && declares(from, b.target_item->0) && (b.target_module == id || !(
            from.machines.contains_key(b.target_item->0)
                && !from.machines[b.target_item->0].is_pub)) {
                found is Some && is_declared(from, b.target_item->0, found->0)
            } else if imported && !declares(from, b.target_item->0) {
                found is None
            } else {
                match found {
                    Some(r) => exists|i: int|
                        {
                            &&& 0 <= i < reg.modules.len()
                            &&& offers(#[trigger] reg.modules[i], name)
                            &&& is_declared(reg.modules[i], name, r)
                            &&& r matches ResolutionV::Machine(m) ==> m.is_pub
                            &&& r matches ResolutionV::Const(c) ==> c.vis
                            &&& forall|j: int|
                                0 <= j < i ==> !offers(#[trigger] reg.modules[j], name)
                        },
                    None => forall|i: int|
                        0 <= i < reg.modules.len() ==> !offers(#[trigger] reg.modules[i], name),
                }
            }
        }),
{
    what_is_offered(reg, name, 0);
}

/// A private machine is denoted only in its own module.
pub proof fn private_machines_stay_private(reg: RegistryV, id: ModuleId, name: Text)
    requires
        reg.wf(),
        reg.has(id),
    ensures
        match reg.resolved(id, name) {
            Some(ResolutionV::Machine(m)) => m.is_pub || exists|n: Text|
                #[trigger] reg.scope(id).machines.contains_key(n) && reg.scope(id).machines[n] == m,
            _ => true,
        },
{
    what_is_offered(reg, name, 0);
    let s = reg.scope(id);
    if s.imports.contains_key(name) && s.imports[name].target_item is Some {
        let n = s.imports[name].target_item->0;
        assert(s.imports[name].target_module == id ==> s.machines.contains_key(n)
            == reg.scope(s.imports[name].target_module).machines.contains_key(n));
    }
}

/// A path denotes an item of the module that all but its last name lead to,
/// from the root or from the module that its first name is an alias of.
pub proof fn paths_lead_to_their_module(reg: RegistryV, id: ModuleId, segs: Seq<Text>)
    requires
        reg.wf(),
        reg.has(id),
    ensures
        match reg.path_target(id, segs) {
            Some((m, item)) => {
                let b = reg.scope(id).imports[segs[0]];
                &&& segs.len() >= 2
                &&& item == segs[segs.len() - 1]
                &&& reg.has(m)
                &&& {
                    ||| reg.scope(m).path == segs.take(segs.len() - 1)
                    ||| {
                        &&& reg.scope(id).imports.contains_key(segs[0])
                        &&& b.target_item is None
                        &&& reg.scope(m).path == reg.scope(b.target_module).path + segs.subrange(
                            1,
                            segs.len() - 1,
                        )
                    }
                }
            },
            None => segs.len() < 2 || forall|i: int|
                0 <= i < reg.modules.len() ==> (#[trigger] reg.modules[i]).path != segs.take(
                    segs.len() - 1,
                ),
        },
{
    if segs.len() >= 2 {
        let module = segs.drop_last();
        assert(module =~= segs.take(segs.len() - 1));
        assert(module.skip(1) =~= segs.subrange(1, segs.len() - 1));
        registry::index_of_path_bounds(reg, module, 0);
        let full = reg.scope(reg.scope(id).imports[module[0]].target_module).path + module.skip(1);
        registry::index_of_path_bounds(reg, full, 0);
    }
}

} // verus!
