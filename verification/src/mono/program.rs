//! Monomorphising whole programs.

use vstd::prelude::*;

use crate::api::ast;
use crate::api::ast::{
    dup_directives, dup_ident, Branch, BranchV, Directive, DirectiveV, EnumDecl, EnumDeclV, Field,
    FieldV, Ident, Item, ItemV, Machine, MachineItem, MachineItemV, MachineV, MethodSig, MethodSigV,
    ProtoDecl, ProtoDeclV, RecordDecl, RecordDeclV, RecordField, RecordFieldV, Type, TypeV, Variant,
    VariantPayload, VariantPayloadV, VariantV,
};
use crate::api::expr::HandlerV;
use crate::error_handle::{ErrorV, LakeError};
use crate::loader::{ModuleV, ParsedModule, ParsedProgram};
use crate::lowering::pure;
use crate::mono::callee::{Hint, HintV};
use crate::mono::leftover;
use crate::mono::protos;
use crate::mono::protos::choose_template;
use crate::mono::state::{
    EnvV, InstV, JobKind, JobV, MachineTemplate, MachineTemplateV, MonoCx, MonoJob, MonoState, MonoV,
    Templates, TemplatesV,
};
use crate::mono::substitute;
use crate::mono::walk;
use crate::name_map;
use crate::name_map::NameMap;
use crate::registry;
use crate::registry::{ImplEntry, ImplEntryV, ModuleId, ProgramRegistry, RegistryV};
use crate::span::{SpanWrap, Spanned};
use crate::text::Text;

verus! {

// ── templates ──────────────────────────────────────────────────────────────

/// Whether an item is a generic template.
pub open spec fn is_generic(item: ItemV) -> bool {
    match item {
        ItemV::Record(d) => d.inner.type_params.len() > 0,
        ItemV::Machine(m) => m.inner.generics.len() > 0,
        ItemV::Enum(d) => d.inner.type_params.len() > 0,
        _ => false,
    }
}

/// The templates with one more item of module `id`, if it is one.
pub open spec fn with_template(t: TemplatesV, item: ItemV, id: ModuleId) -> TemplatesV {
    if !is_generic(item) {
        t
    } else {
        match item {
            ItemV::Record(d) => TemplatesV {
                records: t.records.insert(d.inner.ident.inner, d.inner),
                owners: t.owners.insert(d.inner.ident.inner, id),
                ..t
            },
            ItemV::Machine(m) => TemplatesV {
                machines: t.machines.push(MachineTemplateV { module: id, decl: m.inner }),
                owners: t.owners.insert(m.inner.ident.inner, id),
                ..t
            },
            ItemV::Enum(d) => TemplatesV {
                enums: t.enums.insert(d.inner.name.inner, d.inner),
                owners: t.owners.insert(d.inner.name.inner, id),
                ..t
            },
            _ => t,
        }
    }
}

/// The templates among the first `n` items of a module.
pub open spec fn with_templates(
    t: TemplatesV,
    ast: Seq<Spanned<ItemV>>,
    n: nat,
    id: ModuleId,
) -> TemplatesV
    decreases n,
{
    if n == 0 {
        t
    } else {
        with_template(with_templates(t, ast, (n - 1) as nat, id), ast[n - 1].inner, id)
    }
}

/// No templates at all.
pub open spec fn no_templates() -> TemplatesV {
    TemplatesV {
        records: Map::empty(),
        machines: Seq::empty(),
        enums: Map::empty(),
        owners: Map::empty(),
    }
}

/// The templates of the first `n` modules.
pub open spec fn templates_of(ms: Seq<ModuleV>, reg: RegistryV, n: nat) -> TemplatesV
    decreases n,
{
    if n == 0 {
        no_templates()
    } else {
        with_templates(
            templates_of(ms, reg, (n - 1) as nat),
            ms[n - 1].ast,
            ms[n - 1].ast.len(),
            reg.id_for_path(ms[n - 1].path)->0,
        )
    }
}

/// Those of the first `n` items that are no templates.
pub open spec fn kept_items(ast: Seq<Spanned<ItemV>>, n: nat) -> Seq<Spanned<ItemV>>
    decreases n,
{
    if n == 0 {
        Seq::empty()
    } else if is_generic(ast[n - 1].inner) {
        kept_items(ast, (n - 1) as nat)
    } else {
        kept_items(ast, (n - 1) as nat).push(ast[n - 1])
    }
}

/// The modules without their templates.
pub open spec fn kept_modules(ms: Seq<ModuleV>) -> Seq<ModuleV> {
    ms.map_values(|m: ModuleV| ModuleV { ast: kept_items(m.ast, m.ast.len()), ..m })
}

fn is_template(item: &Item) -> (r: bool)
    ensures
        r == is_generic(item.deep_view()),
{
    match item {
        Item::Record(d) => {
            proof {
                assert(d.inner.type_params.deep_view().len() == d.inner.type_params@.len());
            }
            d.inner.type_params.len() > 0
        },
        Item::Machine(m) => {
            proof {
                assert(m.inner.generics.deep_view().len() == m.inner.generics@.len());
            }
            m.inner.generics.len() > 0
        },
        Item::Enum(d) => {
            proof {
                assert(d.inner.type_params.deep_view().len() == d.inner.type_params@.len());
            }
            d.inner.type_params.len() > 0
        },
        _ => false,
    }
}

fn add_template(t: &mut Templates, item: Item, id: ModuleId)
    requires
        is_generic(item.deep_view()),
    ensures
        final(t).deep_view() == with_template(old(t).deep_view(), item.deep_view(), id),
{
    let ghost before = *t;
    match item {
        Item::Record(d) => {
            let name = d.inner.ident.inner.0.clone();
            t.owners.insert(name.clone(), id);
            let ghost mid = t.records;
            let ghost k = name@;
            t.records.insert(name, d.inner);
            proof {
                name_map::insert_deep(mid, t.records, k, d.inner);
            }
        },
        Item::Machine(m) => {
            let name = m.inner.ident.inner.0.clone();
            t.owners.insert(name, id);
            let one = MachineTemplate { module: id, decl: m.inner };
            let ghost ov = one.deep_view();
            t.machines.push(one);
            proof {
                assert(t.machines.deep_view() =~= before.machines.deep_view().push(ov));
            }
        },
        Item::Enum(d) => {
            let name = d.inner.name.inner.0.clone();
            t.owners.insert(name.clone(), id);
            let ghost mid = t.enums;
            let ghost k = name@;
            t.enums.insert(name, d.inner);
            proof {
                name_map::insert_deep(mid, t.enums, k, d.inner);
            }
        },
        _ => {},
    }
}

fn strip_module(module: ParsedModule, t: &mut Templates, id: ModuleId) -> (r: ParsedModule)
    ensures
        r.deep_view() == (ModuleV {
            ast: kept_items(module.deep_view().ast, module.deep_view().ast.len()),
            ..module.deep_view()
        }),
        final(t).deep_view() == with_templates(
            old(t).deep_view(),
            module.deep_view().ast,
            module.deep_view().ast.len(),
            id,
        ),
{
    let ghost mv = module.deep_view();
    let ghost t0 = t.deep_view();
    let ghost ast0 = module.ast@;
    let mut out: Vec<Spanned<Item>> = Vec::new();
    proof {
        assert(out.deep_view() =~= Seq::<Spanned<ItemV>>::empty());
    }
    for item in it: module.ast
        invariant
            it.seq() == ast0,
            mv.ast == ast0.map_values(|x: Spanned<Item>| x.deep_view()),
            out.deep_view() == kept_items(mv.ast, it.index() as nat),
            t.deep_view() == with_templates(t0, mv.ast, it.index() as nat, id),
    {
        let ghost before = out.deep_view();
        proof {
            assert(mv.ast[it.index() as int] == item.deep_view());
        }
        if is_template(&item.inner) {
            add_template(t, item.inner, id);
        } else {
            let ghost ov = item.deep_view();
            out.push(item);
            proof {
                assert(out.deep_view() =~= before.push(ov));
            }
        }
    }
    ParsedModule { path: module.path, source_path: module.source_path, ast: out }
}

fn take_templates(program: ParsedProgram, registry: &ProgramRegistry) -> (r: (
    Vec<ParsedModule>,
    Templates,
))
    requires
        registry.deep_view().wf(),
        pure::all_registered(program.deep_view(), registry.deep_view()),
    ensures
        r.0.deep_view() == kept_modules(program.deep_view()),
        r.1.deep_view() == templates_of(
            program.deep_view(),
            registry.deep_view(),
            program.deep_view().len(),
        ),
{
    let ghost reg = registry.deep_view();
    let ghost ms = program.deep_view();
    let ghost ms0 = program.modules@;
    let mut t = Templates {
        records: NameMap::new(),
        machines: Vec::new(),
        enums: NameMap::new(),
        owners: NameMap::new(),
    };
    let mut out: Vec<ParsedModule> = Vec::new();
    proof {
        assert(t.records.deep_view() =~= Map::<Text, RecordDeclV>::empty());
        assert(t.machines.deep_view() =~= Seq::<MachineTemplateV>::empty());
        assert(t.enums.deep_view() =~= Map::<Text, EnumDeclV>::empty());
        assert(t.deep_view() == no_templates());
    }
    for module in it: program.modules
        invariant
            it.seq() == ms0,
            ms == ms0.map_values(|x: ParsedModule| x.deep_view()),
            reg == registry.deep_view(),
            reg.wf(),
            pure::all_registered(ms, reg),
            t.deep_view() == templates_of(ms, reg, it.index() as nat),
            out@.len() == it.index(),
            forall|j: int|
                0 <= j < it.index() ==> (#[trigger] out@[j]).deep_view() == kept_modules(ms)[j],
    {
        proof {
            assert(ms[it.index() as int] == module.deep_view());
        }
        let id = registry.module_id_for_path(&module.path).unwrap();
        out.push(strip_module(module, &mut t, id));
    }
    proof {
        assert(out.deep_view() =~= kept_modules(ms));
    }
    (out, t)
}

// ── walking what is no template ────────────────────────────────────────────

/// A data field of a machine, its type substituted.
pub open spec fn copied_machine_field(
    env: EnvV,
    m: MonoV,
    f: FieldV,
    subst: Map<Text, TypeV>,
) -> (FieldV, MonoV) {
    let (ty, m2) = substitute::substituted(env, m, f.ty.inner, subst);
    (FieldV { ty: Spanned { inner: ty, span: f.ty.span }, ..f }, m2)
}

/// The first `n` items of a machine, walked.
pub open spec fn walked_items(env: EnvV, m: MonoV, items: Seq<Spanned<MachineItemV>>, n: nat) -> (
    Seq<Spanned<MachineItemV>>,
    MonoV,
)
    decreases n,
{
    if n == 0 {
        (Seq::empty(), m)
    } else {
        let (before, m1) = walked_items(env, m, items, (n - 1) as nat);
        let item = items[n - 1];
        match item.inner {
            MachineItemV::Branch(b) => {
                let (b2, m2) = walk::walked_branch(env, m1, b, Seq::empty());
                (
                    before.push(Spanned { inner: MachineItemV::Branch(b2), span: item.span }),
                    m2,
                )
            },
            MachineItemV::Field(f) => {
                let (f2, m2) = copied_machine_field(env, m1, f, Map::empty());
                (
                    before.push(Spanned { inner: MachineItemV::Field(f2), span: item.span }),
                    m2,
                )
            },
        }
    }
}

/// The first `n` items of a module: machines are walked, and the types of
/// records, enums, protos and directives name copies.
pub open spec fn walked_ast(env: EnvV, m: MonoV, ast: Seq<Spanned<ItemV>>, n: nat) -> (
    Seq<Spanned<ItemV>>,
    MonoV,
)
    decreases n,
{
    if n == 0 {
        (Seq::empty(), m)
    } else {
        let (before, m1) = walked_ast(env, m, ast, (n - 1) as nat);
        let item = ast[n - 1];
        match item.inner {
            ItemV::Machine(mach) => {
                let (items, m2) = walked_items(
                    env,
                    m1,
                    mach.inner.items,
                    mach.inner.items.len(),
                );
                (
                    before.push(
                        Spanned {
                            inner: ItemV::Machine(
                                Spanned { inner: MachineV { items, ..mach.inner }, span: mach.span },
                            ),
                            span: item.span,
                        },
                    ),
                    m2,
                )
            },
            ItemV::Record(r) => {
                let (r2, m2) = copied_record(env, m1, r.inner, Seq::empty(), r.inner.ident.inner);
                (
                    before.push(
                        Spanned {
                            inner: ItemV::Record(Spanned { inner: r2, span: r.span }),
                            span: item.span,
                        },
                    ),
                    m2,
                )
            },
            ItemV::Enum(e) => {
                let (e2, m2) = copied_enum(env, m1, e.inner, Seq::empty(), e.inner.name.inner);
                (
                    before.push(
                        Spanned {
                            inner: ItemV::Enum(Spanned { inner: e2, span: e.span }),
                            span: item.span,
                        },
                    ),
                    m2,
                )
            },
            ItemV::Proto(d) => {
                let (methods, m2) = copied_methods(
                    env,
                    m1,
                    d.inner.methods,
                    d.inner.methods.len(),
                );
                (
                    before.push(
                        Spanned {
                            inner: ItemV::Proto(
                                Spanned { inner: ProtoDeclV { methods, ..d.inner }, span: d.span },
                            ),
                            span: item.span,
                        },
                    ),
                    m2,
                )
            },
            ItemV::Directive(d) => {
                let (args, m2) = substitute::substituted_all(
                    env,
                    m1,
                    d.inner.args,
                    d.inner.args.len(),
                    Map::empty(),
                );
                (
                    before.push(
                        Spanned {
                            inner: ItemV::Directive(
                                Spanned { inner: DirectiveV { args, ..d.inner }, span: d.span },
                            ),
                            span: item.span,
                        },
                    ),
                    m2,
                )
            },
            _ => (before.push(item), m1),
        }
    }
}

/// The first `n` methods of a proto, their types naming copies.
pub open spec fn copied_methods(
    env: EnvV,
    m: MonoV,
    methods: Seq<Spanned<MethodSigV>>,
    n: nat,
) -> (Seq<Spanned<MethodSigV>>, MonoV)
    decreases n,
{
    if n == 0 {
        (Seq::empty(), m)
    } else {
        let (before, m1) = copied_methods(env, m, methods, (n - 1) as nat);
        let sig = methods[n - 1].inner;
        let (params, m2) = substitute::substituted_all(
            env,
            m1,
            sig.params,
            sig.params.len(),
            Map::empty(),
        );
        let (ret, m3) = substitute::sub_ret(env, m2, sig.ret, Map::empty());
        (
            before.push(
                Spanned { inner: MethodSigV { params, ret, ..sig }, span: methods[n - 1].span },
            ),
            m3,
        )
    }
}

/// The first `n` modules, their machines walked.
pub open spec fn walked_modules(env: EnvV, m: MonoV, ms: Seq<ModuleV>, n: nat) -> (
    Seq<ModuleV>,
    MonoV,
)
    decreases n,
{
    if n == 0 {
        (Seq::empty(), m)
    } else {
        let (before, m1) = walked_modules(env, m, ms, (n - 1) as nat);
        let (ast, m2) = walked_ast(env, m1, ms[n - 1].ast, ms[n - 1].ast.len());
        (before.push(ModuleV { ast, ..ms[n - 1] }), m2)
    }
}

fn no_hints() -> (r: Vec<Hint>)
    ensures
        r.deep_view() == Seq::<HintV>::empty(),
{
    let r: Vec<Hint> = Vec::new();
    proof {
        assert(r.deep_view() =~= Seq::<HintV>::empty());
    }
    r
}

impl<'a> MonoCx<'a> {
    fn copy_methods(&self, methods: &Vec<Spanned<MethodSig>>, st: &mut MonoState) -> (r: Vec<
        Spanned<MethodSig>,
    >)
        ensures
            (r.deep_view(), final(st).deep_view()) == copied_methods(
                self.deep_view(),
                old(st).deep_view(),
                methods.deep_view(),
                methods@.len(),
            ),
    {
        let ghost env = self.deep_view();
        let ghost m = st.deep_view();
        let ghost mv = methods.deep_view();
        let none = walk::empty_subst();
        let mut out: Vec<Spanned<MethodSig>> = Vec::new();
        proof {
            assert(out.deep_view() =~= Seq::<Spanned<MethodSigV>>::empty());
        }
        let mut i: usize = 0;
        while i < methods.len()
            invariant
                i <= methods.len(),
                env == self.deep_view(),
                mv == methods.deep_view(),
                none.deep_view() == Map::<Text, TypeV>::empty(),
                (out.deep_view(), st.deep_view()) == copied_methods(env, m, mv, i as nat),
            decreases methods.len() - i,
        {
            let ghost before = out.deep_view();
            let sig = &methods[i].inner;
            proof {
                assert(mv[i as int] == methods@[i as int].deep_view());
            }
            let params = self.substitute_types(&sig.params, &none, st);
            let ret = self.substitute_ret(&sig.ret, &none, st);
            proof {
                ast::types_view_is_deep_view(sig.params);
                ast::types_view_is_deep_view(params);
            }
            let one = Spanned {
                inner: MethodSig { name: dup_ident(&sig.name), params, ret },
                span: methods[i].span,
            };
            let ghost ov = one.deep_view();
            out.push(one);
            proof {
                assert(out.deep_view() =~= before.push(ov));
            }
            i = i + 1;
        }
        out
    }

    fn copy_field(&self, f: Field, subst: &NameMap<Type>, st: &mut MonoState) -> (r: Field)
        ensures
            (r.deep_view(), final(st).deep_view()) == copied_machine_field(
                self.deep_view(),
                old(st).deep_view(),
                f.deep_view(),
                subst.deep_view(),
            ),
    {
        let ty = self.substitute_type(&f.ty.inner, subst, st).with_span(f.ty.span);
        Field { label: f.label, ty }
    }

    /// Walk the branches of a machine.
    pub fn walk_machine(&self, machine: Machine, st: &mut MonoState) -> (r: Machine)
        requires
            self.deep_view().reg.wf(),
        ensures
            ({
                let mv = machine.deep_view();
                let (items, m) = walked_items(
                    self.deep_view(),
                    old(st).deep_view(),
                    mv.items,
                    mv.items.len(),
                );
                r.deep_view() == (MachineV { items, ..mv }) && final(st).deep_view() == m
            }),
    {
        let ghost env = self.deep_view();
        let ghost m = st.deep_view();
        let ghost mv = machine.deep_view();
        let ghost items0 = machine.items@;
        let hints = no_hints();
        let none = walk::empty_subst();
        let mut items: Vec<Spanned<MachineItem>> = Vec::new();
        proof {
            assert(items.deep_view() =~= Seq::<Spanned<MachineItemV>>::empty());
        }
        for item in it: machine.items
            invariant
                it.seq() == items0,
                mv.items == items0.map_values(|x: Spanned<MachineItem>| x.deep_view()),
                env == self.deep_view(),
                env.reg.wf(),
                hints.deep_view() == Seq::<HintV>::empty(),
                none.deep_view() == Map::<Text, TypeV>::empty(),
                (items.deep_view(), st.deep_view()) == walked_items(
                    env,
                    m,
                    mv.items,
                    it.index() as nat,
                ),
        {
            let ghost before = items.deep_view();
            proof {
                assert(mv.items[it.index() as int] == item.deep_view());
            }
            let span = item.span;
            let one = match item.inner {
                MachineItem::Branch(b) => {
                    Spanned { inner: MachineItem::Branch(self.walk_branch(b, &hints, st)), span }
                },
                MachineItem::Field(f) => {
                    Spanned { inner: MachineItem::Field(self.copy_field(f, &none, st)), span }
                },
            };
            let ghost ov = one.deep_view();
            items.push(one);
            proof {
                assert(items.deep_view() =~= before.push(ov));
            }
        }
        Machine {
            attrs: machine.attrs,
            vis: machine.vis,
            ident: machine.ident,
            generics: machine.generics,
            bounds: machine.bounds,
            items,
        }
    }

    fn walk_module(&self, module: ParsedModule, st: &mut MonoState) -> (r: ParsedModule)
        requires
            self.deep_view().reg.wf(),
        ensures
            ({
                let mv = module.deep_view();
                let (ast, m) = walked_ast(
                    self.deep_view(),
                    old(st).deep_view(),
                    mv.ast,
                    mv.ast.len(),
                );
                r.deep_view() == (ModuleV { ast, ..mv }) && final(st).deep_view() == m
            }),
    {
        let ghost env = self.deep_view();
        let ghost m = st.deep_view();
        let ghost mv = module.deep_view();
        let ghost ast0 = module.ast@;
        let mut out: Vec<Spanned<Item>> = Vec::new();
        proof {
            assert(out.deep_view() =~= Seq::<Spanned<ItemV>>::empty());
        }
        for item in it: module.ast
            invariant
                it.seq() == ast0,
                mv.ast == ast0.map_values(|x: Spanned<Item>| x.deep_view()),
                env == self.deep_view(),
                env.reg.wf(),
                (out.deep_view(), st.deep_view()) == walked_ast(
                    env,
                    m,
                    mv.ast,
                    it.index() as nat,
                ),
        {
            let ghost before = out.deep_view();
            proof {
                assert(mv.ast[it.index() as int] == item.deep_view());
            }
            let span = item.span;
            let one = match item.inner {
                Item::Machine(mach) => {
                    let mach_span = mach.span;
                    let walked = self.walk_machine(mach.inner, st);
                    Spanned {
                        inner: Item::Machine(Spanned { inner: walked, span: mach_span }),
                        span,
                    }
                },
                Item::Record(r) => {
                    let args: Vec<Type> = Vec::new();
                    proof {
                        assert(args.deep_view() =~= Seq::<TypeV>::empty());
                    }
                    let plain = self.instantiate_record(
                        &r.inner,
                        &args,
                        r.inner.ident.inner.0.as_str(),
                        st,
                    );
                    Spanned { inner: Item::Record(Spanned { inner: plain, span: r.span }), span }
                },
                Item::Enum(e) => {
                    let args: Vec<Type> = Vec::new();
                    proof {
                        assert(args.deep_view() =~= Seq::<TypeV>::empty());
                    }
                    let plain = self.instantiate_enum(
                        &e.inner,
                        &args,
                        e.inner.name.inner.0.as_str(),
                        st,
                    );
                    Spanned { inner: Item::Enum(Spanned { inner: plain, span: e.span }), span }
                },
                Item::Proto(d) => {
                    let methods = self.copy_methods(&d.inner.methods, st);
                    Spanned {
                        inner: Item::Proto(
                            Spanned {
                                inner: ProtoDecl {
                                    name: d.inner.name,
                                    parents: d.inner.parents,
                                    methods,
                                },
                                span: d.span,
                            },
                        ),
                        span,
                    }
                },
                Item::Directive(d) => {
                    let none = walk::empty_subst();
                    let args = self.substitute_types(&d.inner.args, &none, st);
                    proof {
                        ast::types_view_is_deep_view(d.inner.args);
                        ast::types_view_is_deep_view(args);
                    }
                    Spanned {
                        inner: Item::Directive(
                            Spanned {
                                inner: Directive {
                                    name: d.inner.name,
                                    args,
                                    kv_args: d.inner.kv_args,
                                },
                                span: d.span,
                            },
                        ),
                        span,
                    }
                },
                other => Spanned { inner: other, span },
            };
            let ghost ov = one.deep_view();
            out.push(one);
            proof {
                assert(out.deep_view() =~= before.push(ov));
            }
        }
        ParsedModule { path: module.path, source_path: module.source_path, ast: out }
    }

    fn walk_modules(&self, modules: Vec<ParsedModule>, st: &mut MonoState) -> (r: Vec<ParsedModule>)
        requires
            self.deep_view().reg.wf(),
        ensures
            (r.deep_view(), final(st).deep_view()) == walked_modules(
                self.deep_view(),
                old(st).deep_view(),
                modules.deep_view(),
                modules@.len(),
            ),
    {
        let ghost env = self.deep_view();
        let ghost m = st.deep_view();
        let ghost ms = modules.deep_view();
        let ghost ms0 = modules@;
        let mut out: Vec<ParsedModule> = Vec::new();
        proof {
            assert(out.deep_view() =~= Seq::<ModuleV>::empty());
        }
        for module in it: modules
            invariant
                it.seq() == ms0,
                ms == ms0.map_values(|x: ParsedModule| x.deep_view()),
                env == self.deep_view(),
                env.reg.wf(),
                (out.deep_view(), st.deep_view()) == walked_modules(
                    env,
                    m,
                    ms,
                    it.index() as nat,
                ),
        {
            let ghost before = out.deep_view();
            proof {
                assert(ms[it.index() as int] == module.deep_view());
            }
            let one = self.walk_module(module, st);
            let ghost ov = one.deep_view();
            out.push(one);
            proof {
                assert(out.deep_view() =~= before.push(ov));
            }
        }
        out
    }
}

// ── copies ─────────────────────────────────────────────────────────────────

/// What the first `n` type parameters stand for.
pub open spec fn zipped(params: Seq<Spanned<Text>>, args: Seq<TypeV>, n: nat) -> Map<Text, TypeV>
    decreases n,
{
    if n == 0 {
        Map::empty()
    } else {
        zipped(params, args, (n - 1) as nat).insert(params[n - 1].inner, args[n - 1])
    }
}

/// What the type parameters of a template stand for in a copy.
pub open spec fn copy_subst(params: Seq<Spanned<Text>>, args: Seq<TypeV>) -> Map<Text, TypeV> {
    zipped(params, args, protos::shorter(params.len(), args.len()))
}

/// The first `n` fields of a record, their types substituted.
pub open spec fn copied_fields(
    env: EnvV,
    m: MonoV,
    fields: Seq<Spanned<RecordFieldV>>,
    n: nat,
    subst: Map<Text, TypeV>,
) -> (Seq<Spanned<RecordFieldV>>, MonoV)
    decreases n,
{
    if n == 0 {
        (Seq::empty(), m)
    } else {
        let (before, m1) = copied_fields(env, m, fields, (n - 1) as nat, subst);
        let f = fields[n - 1];
        let (ty, m2) = substitute::substituted(env, m1, f.inner.ty.inner, subst);
        (
            before.push(
                Spanned {
                    inner: RecordFieldV {
                        name: f.inner.name,
                        ty: Spanned { inner: ty, span: f.inner.ty.span },
                    },
                    span: f.span,
                },
            ),
            m2,
        )
    }
}

/// A concrete copy of a record.
pub open spec fn copied_record(
    env: EnvV,
    m: MonoV,
    decl: RecordDeclV,
    args: Seq<TypeV>,
    name: Text,
) -> (RecordDeclV, MonoV) {
    let subst = copy_subst(decl.type_params, args);
    let (fields, m2) = copied_fields(env, m, decl.fields, decl.fields.len(), subst);
    (
        RecordDeclV {
            vis: decl.vis,
            ident: Spanned { inner: name, span: decl.ident.span },
            type_params: Seq::empty(),
            fields,
        },
        m2,
    )
}

/// The first `n` named payload fields, their types substituted.
pub open spec fn copied_payload_fields(
    env: EnvV,
    m: MonoV,
    fs: Seq<(Spanned<Text>, Spanned<TypeV>)>,
    n: nat,
    subst: Map<Text, TypeV>,
) -> (Seq<(Spanned<Text>, Spanned<TypeV>)>, MonoV)
    decreases n,
{
    if n == 0 {
        (Seq::empty(), m)
    } else {
        let (before, m1) = copied_payload_fields(env, m, fs, (n - 1) as nat, subst);
        let f = fs[n - 1];
        let (ty, m2) = substitute::substituted(env, m1, f.1.inner, subst);
        (before.push((f.0, Spanned { inner: ty, span: f.1.span })), m2)
    }
}

/// A variant's payload, its types substituted.
pub open spec fn copied_payload(
    env: EnvV,
    m: MonoV,
    p: VariantPayloadV,
    subst: Map<Text, TypeV>,
) -> (VariantPayloadV, MonoV) {
    match p {
        VariantPayloadV::NoPayload => (p, m),
        VariantPayloadV::Tuple(ts) => {
            let (ts2, m2) = substitute::substituted_all(env, m, ts, ts.len(), subst);
            (VariantPayloadV::Tuple(ts2), m2)
        },
        VariantPayloadV::Record(fs) => {
            let (fs2, m2) = copied_payload_fields(env, m, fs, fs.len(), subst);
            (VariantPayloadV::Record(fs2), m2)
        },
    }
}

/// The first `n` variants, their payloads substituted.
pub open spec fn copied_variants(
    env: EnvV,
    m: MonoV,
    vs: Seq<Spanned<VariantV>>,
    n: nat,
    subst: Map<Text, TypeV>,
) -> (Seq<Spanned<VariantV>>, MonoV)
    decreases n,
{
    if n == 0 {
        (Seq::empty(), m)
    } else {
        let (before, m1) = copied_variants(env, m, vs, (n - 1) as nat, subst);
        let v = vs[n - 1];
        let (payload, m2) = copied_payload(env, m1, v.inner.payload, subst);
        (
            before.push(
                Spanned { inner: VariantV { name: v.inner.name, payload }, span: v.span },
            ),
            m2,
        )
    }
}

/// A concrete copy of an enum.
pub open spec fn copied_enum(
    env: EnvV,
    m: MonoV,
    decl: EnumDeclV,
    args: Seq<TypeV>,
    name: Text,
) -> (EnumDeclV, MonoV) {
    let subst = copy_subst(decl.type_params, args);
    let (variants, m2) = copied_variants(env, m, decl.variants, decl.variants.len(), subst);
    (
        EnumDeclV {
            name: Spanned { inner: name, span: decl.name.span },
            type_params: Seq::empty(),
            variants,
        },
        m2,
    )
}

/// A branch of a copy: its types are substituted and it is walked.
pub open spec fn copied_branch(env: EnvV, m: MonoV, b: BranchV, subst: Map<Text, TypeV>) -> (
    BranchV,
    MonoV,
) {
    let (ps, m1) = substitute::sub_patterns_deep(
        env,
        m,
        b.head.patterns,
        b.head.patterns.len(),
        subst,
    );
    let (ret, m2) = substitute::sub_ret(env, m1, b.head.ret_ty, subst);
    let (body, m3) = substitute::sub_kids(env, m2, b.body, b.body.len(), subst);
    walk::walked_branch(
        EnvV { subst, ..env },
        m3,
        BranchV { head: HandlerV { label: b.head.label, patterns: ps, ret_ty: ret }, body },
        Seq::empty(),
    )
}

/// The first `n` items of a copy.
pub open spec fn copied_items(
    env: EnvV,
    m: MonoV,
    items: Seq<Spanned<MachineItemV>>,
    n: nat,
    subst: Map<Text, TypeV>,
) -> (Seq<Spanned<MachineItemV>>, MonoV)
    decreases n,
{
    if n == 0 {
        (Seq::empty(), m)
    } else {
        let (before, m1) = copied_items(env, m, items, (n - 1) as nat, subst);
        let item = items[n - 1];
        match item.inner {
            MachineItemV::Branch(b) => {
                let (b2, m2) = copied_branch(env, m1, b, subst);
                (
                    before.push(Spanned { inner: MachineItemV::Branch(b2), span: item.span }),
                    m2,
                )
            },
            MachineItemV::Field(f) => {
                let (f2, m2) = copied_machine_field(env, m1, f, subst);
                (
                    before.push(Spanned { inner: MachineItemV::Field(f2), span: item.span }),
                    m2,
                )
            },
        }
    }
}

/// A concrete copy of a machine.
pub open spec fn copied_machine(
    env: EnvV,
    m: MonoV,
    decl: MachineV,
    args: Seq<TypeV>,
    name: Text,
) -> (MachineV, MonoV) {
    let subst = copy_subst(decl.generics, args);
    let (items, m2) = copied_items(env, m, decl.items, decl.items.len(), subst);
    (
        MachineV {
            attrs: decl.attrs,
            vis: decl.vis,
            ident: Spanned { inner: name, span: decl.ident.span },
            generics: Seq::empty(),
            bounds: Seq::empty(),
            items,
        },
        m2,
    )
}

fn subst_of(params: &Vec<Spanned<Ident>>, args: &Vec<Type>) -> (r: NameMap<Type>)
    ensures
        r.deep_view() == copy_subst(params.deep_view(), args.deep_view()),
{
    let ghost pv = params.deep_view();
    let ghost av = args.deep_view();
    let mut map: NameMap<Type> = NameMap::new();
    proof {
        assert(map.deep_view() =~= zipped(pv, av, 0));
    }
    let mut i: usize = 0;
    while i < params.len() && i < args.len()
        invariant
            i <= params@.len(),
            i <= args@.len(),
            pv == params.deep_view(),
            av == args.deep_view(),
            map.deep_view() == zipped(pv, av, i as nat),
        decreases params.len() - i,
    {
        proof {
            assert(pv[i as int].inner == params@[i as int].inner.0@);
            assert(av[i as int] == ast::type_view(args@[i as int]));
        }
        let ghost before = map;
        let ty = args[i].dup();
        map.insert(params[i].inner.0.clone(), ty);
        proof {
            name_map::insert_deep(before, map, params@[i as int].inner.0@, ty);
        }
        i = i + 1;
    }
    map
}

impl<'a> MonoCx<'a> {
    /// A concrete record from a template.
    pub fn instantiate_record(
        &self,
        template: &RecordDecl,
        args: &Vec<Type>,
        name: &str,
        st: &mut MonoState,
    ) -> (r: RecordDecl)
        ensures
            (r.deep_view(), final(st).deep_view()) == copied_record(
                self.deep_view(),
                old(st).deep_view(),
                template.deep_view(),
                args.deep_view(),
                name@,
            ),
    {
        let ghost env = self.deep_view();
        let ghost m = st.deep_view();
        let ghost fv = template.deep_view().fields;
        let subst = subst_of(&template.type_params, args);
        let ghost sv = subst.deep_view();
        let mut fields: Vec<Spanned<RecordField>> = Vec::new();
        proof {
            assert(fields.deep_view() =~= Seq::<Spanned<RecordFieldV>>::empty());
        }
        let mut i: usize = 0;
        while i < template.fields.len()
            invariant
                i <= template.fields.len(),
                env == self.deep_view(),
                fv == template.deep_view().fields,
                sv == subst.deep_view(),
                (fields.deep_view(), st.deep_view()) == copied_fields(env, m, fv, i as nat, sv),
            decreases template.fields.len() - i,
        {
            let ghost before = fields.deep_view();
            let f = &template.fields[i];
            proof {
                assert(fv[i as int] == f.deep_view());
            }
            let ty = self.substitute_type(&f.inner.ty.inner, &subst, st).with_span(
                f.inner.ty.span,
            );
            let one = Spanned {
                inner: RecordField { name: dup_ident(&f.inner.name), ty },
                span: f.span,
            };
            let ghost ov = one.deep_view();
            fields.push(one);
            proof {
                assert(fields.deep_view() =~= before.push(ov));
            }
            i = i + 1;
        }
        let type_params: Vec<Spanned<Ident>> = Vec::new();
        proof {
            assert(type_params.deep_view() =~= Seq::<Spanned<Text>>::empty());
        }
        RecordDecl {
            vis: template.vis,
            ident: Ident::new(name).with_span(template.ident.span),
            type_params,
            fields,
        }
    }

    fn copy_payload_fields(
        &self,
        fs: &Vec<(Spanned<Ident>, Spanned<Type>)>,
        subst: &NameMap<Type>,
        st: &mut MonoState,
    ) -> (r: Vec<(Spanned<Ident>, Spanned<Type>)>)
        ensures
            (r.deep_view(), final(st).deep_view()) == copied_payload_fields(
                self.deep_view(),
                old(st).deep_view(),
                fs.deep_view(),
                fs@.len(),
                subst.deep_view(),
            ),
    {
        let ghost env = self.deep_view();
        let ghost m = st.deep_view();
        let ghost fv = fs.deep_view();
        let ghost sv = subst.deep_view();
        let mut out: Vec<(Spanned<Ident>, Spanned<Type>)> = Vec::new();
        proof {
            assert(out.deep_view() =~= Seq::<(Spanned<Text>, Spanned<TypeV>)>::empty());
        }
        let mut i: usize = 0;
        while i < fs.len()
            invariant
                i <= fs.len(),
                env == self.deep_view(),
                fv == fs.deep_view(),
                sv == subst.deep_view(),
                (out.deep_view(), st.deep_view()) == copied_payload_fields(
                    env,
                    m,
                    fv,
                    i as nat,
                    sv,
                ),
            decreases fs.len() - i,
        {
            let ghost before = out.deep_view();
            proof {
                assert(fv[i as int] == (fs@[i as int].0.deep_view(), fs@[i as int].1.deep_view()));
            }
            let ty = self.substitute_type(&fs[i].1.inner, subst, st).with_span(fs[i].1.span);
            let one = (dup_ident(&fs[i].0), ty);
            let ghost ov = (one.0.deep_view(), one.1.deep_view());
            out.push(one);
            proof {
                assert(out.deep_view() =~= before.push(ov));
            }
            i = i + 1;
        }
        out
    }

    fn copy_payload(&self, p: &VariantPayload, subst: &NameMap<Type>, st: &mut MonoState) -> (r:
        VariantPayload)
        ensures
            (r.deep_view(), final(st).deep_view()) == copied_payload(
                self.deep_view(),
                old(st).deep_view(),
                p.deep_view(),
                subst.deep_view(),
            ),
    {
        match p {
            VariantPayload::NoPayload => VariantPayload::NoPayload,
            VariantPayload::Tuple(ts) => {
                let ts2 = self.substitute_types(ts, subst, st);
                proof {
                    ast::types_view_is_deep_view(*ts);
                    ast::types_view_is_deep_view(ts2);
                }
                VariantPayload::Tuple(ts2)
            },
            VariantPayload::Record(fs) => {
                VariantPayload::Record(self.copy_payload_fields(fs, subst, st))
            },
        }
    }

    /// A concrete enum from a template.
    pub fn instantiate_enum(
        &self,
        template: &EnumDecl,
        args: &Vec<Type>,
        name: &str,
        st: &mut MonoState,
    ) -> (r: EnumDecl)
        ensures
            (r.deep_view(), final(st).deep_view()) == copied_enum(
                self.deep_view(),
                old(st).deep_view(),
                template.deep_view(),
                args.deep_view(),
                name@,
            ),
    {
        let ghost env = self.deep_view();
        let ghost m = st.deep_view();
        let ghost vv = template.deep_view().variants;
        let subst = subst_of(&template.type_params, args);
        let ghost sv = subst.deep_view();
        let mut variants: Vec<Spanned<Variant>> = Vec::new();
        proof {
            assert(variants.deep_view() =~= Seq::<Spanned<VariantV>>::empty());
        }
        let mut i: usize = 0;
        while i < template.variants.len()
            invariant
                i <= template.variants.len(),
                env == self.deep_view(),
                vv == template.deep_view().variants,
                sv == subst.deep_view(),
                (variants.deep_view(), st.deep_view()) == copied_variants(
                    env,
                    m,
                    vv,
                    i as nat,
                    sv,
                ),
            decreases template.variants.len() - i,
        {
            let ghost before = variants.deep_view();
            let v = &template.variants[i];
            proof {
                assert(vv[i as int] == v.deep_view());
            }
            let payload = self.copy_payload(&v.inner.payload, &subst, st);
            let one = Spanned {
                inner: Variant { name: dup_ident(&v.inner.name), payload },
                span: v.span,
            };
            let ghost ov = one.deep_view();
            variants.push(one);
            proof {
                assert(variants.deep_view() =~= before.push(ov));
            }
            i = i + 1;
        }
        let type_params: Vec<Spanned<Ident>> = Vec::new();
        proof {
            assert(type_params.deep_view() =~= Seq::<Spanned<Text>>::empty());
        }
        EnumDecl { name: Ident::new(name).with_span(template.name.span), type_params, variants }
    }

    /// A branch of a concrete machine: types substituted, then walked so
    /// that it asks for the copies it needs.
    pub fn substitute_branch(&self, b: &Branch, subst: &NameMap<Type>, st: &mut MonoState) -> (r:
        Branch)
        requires
            self.deep_view().reg.wf(),
        ensures
            (r.deep_view(), final(st).deep_view()) == copied_branch(
                self.deep_view(),
                old(st).deep_view(),
                b.deep_view(),
                subst.deep_view(),
            ),
    {
        let copy = b.dup();
        let ghost cv = copy.deep_view();
        proof {
            assert(cv == b.deep_view());
            assert(cv.head.patterns == ast::patterns_view(copy.patterns@));
        }
        let patterns = self.substitute_patterns_deep(copy.patterns, subst, st);
        let ret_ty = self.substitute_ret(&copy.ret_ty, subst, st);
        let body = self.substitute_exprs(copy.body, subst, st);
        let nb = Branch { label: copy.label, patterns, ret_ty, body };
        let cx = MonoCx { registry: self.registry, templates: self.templates, subst };
        cx.walk_branch(nb, &no_hints(), st)
    }

    /// A concrete machine from a template.
    pub fn instantiate_machine(
        &self,
        template: &Machine,
        args: &Vec<Type>,
        name: &str,
        st: &mut MonoState,
    ) -> (r: Machine)
        requires
            self.deep_view().reg.wf(),
        ensures
            (r.deep_view(), final(st).deep_view()) == copied_machine(
                self.deep_view(),
                old(st).deep_view(),
                template.deep_view(),
                args.deep_view(),
                name@,
            ),
    {
        let ghost env = self.deep_view();
        let ghost m = st.deep_view();
        let ghost iv = template.deep_view().items;
        let subst = subst_of(&template.generics, args);
        let ghost sv = subst.deep_view();
        let mut items: Vec<Spanned<MachineItem>> = Vec::new();
        proof {
            assert(items.deep_view() =~= Seq::<Spanned<MachineItemV>>::empty());
        }
        let mut i: usize = 0;
        while i < template.items.len()
            invariant
                i <= template.items.len(),
                env == self.deep_view(),
                env.reg.wf(),
                iv == template.deep_view().items,
                sv == subst.deep_view(),
                (items.deep_view(), st.deep_view()) == copied_items(env, m, iv, i as nat, sv),
            decreases template.items.len() - i,
        {
            let ghost before = items.deep_view();
            let item = &template.items[i];
            proof {
                assert(iv[i as int] == item.deep_view());
            }
            let inner = match &item.inner {
                MachineItem::Branch(b) => {
                    MachineItem::Branch(self.substitute_branch(b, &subst, st))
                },
                MachineItem::Field(f) => {
                    MachineItem::Field(self.copy_field(f.dup(), &subst, st))
                },
            };
            let one = Spanned { inner, span: item.span };
            let ghost ov = one.deep_view();
            items.push(one);
            proof {
                assert(items.deep_view() =~= before.push(ov));
            }
            i = i + 1;
        }
        let generics: Vec<Spanned<Ident>> = Vec::new();
        let bounds: Vec<(Spanned<Ident>, Vec<Spanned<Ident>>)> = Vec::new();
        proof {
            assert(generics.deep_view() =~= Seq::<Spanned<Text>>::empty());
            assert(bounds.deep_view() =~= Seq::<(Spanned<Text>, Seq<Spanned<Text>>)>::empty());
        }
        Machine {
            attrs: dup_directives(&template.attrs),
            vis: template.vis,
            ident: Ident::new(name).with_span(template.ident.span),
            generics,
            bounds,
            items,
        }
    }
}

} // verus!

verus! {

// ── the work list ──────────────────────────────────────────────────────────

/// The first module from `from` on that has this id.
pub open spec fn module_index(ms: Seq<ModuleV>, reg: RegistryV, id: ModuleId, from: int) -> int
    decreases ms.len() - from,
{
    if from >= ms.len() || reg.id_for_path(ms[from].path) == Some(id) {
        from
    } else {
        module_index(ms, reg, id, from + 1)
    }
}

/// The modules with one more item in the module `id`.
pub open spec fn with_item(
    ms: Seq<ModuleV>,
    reg: RegistryV,
    id: ModuleId,
    item: Spanned<ItemV>,
) -> Seq<ModuleV> {
    let i = module_index(ms, reg, id, 0);
    if 0 <= i < ms.len() {
        ms.update(i, ModuleV { ast: ms[i].ast.push(item), ..ms[i] })
    } else {
        ms
    }
}

/// The copy that a job asks for, and the module it goes to.
pub open spec fn made(env: EnvV, m: MonoV, job: JobV) -> (Option<(ModuleId, Spanned<ItemV>)>, MonoV) {
    let t = env.templates;
    match job.kind {
        JobKind::Record => if t.records.contains_key(job.base) && t.owners.contains_key(job.base) {
            let (d, m2) = copied_record(env, m, t.records[job.base], job.args, job.name);
            let span = d.ident.span;
            (
                Some(
                    (
                        t.owners[job.base],
                        Spanned { inner: ItemV::Record(Spanned { inner: d, span }), span },
                    ),
                ),
                m2,
            )
        } else {
            (None, m)
        },
        JobKind::Machine(owner) => {
            let i = protos::chosen_index(t.machines, job.base, owner);
            if 0 <= i < t.machines.len() {
                let (d, m2) = copied_machine(env, m, t.machines[i].decl, job.args, job.name);
                let span = d.ident.span;
                (
                    Some(
                        (
                            owner,
                            Spanned { inner: ItemV::Machine(Spanned { inner: d, span }), span },
                        ),
                    ),
                    m2,
                )
            } else {
                (None, m)
            }
        },
        JobKind::Enum => if t.enums.contains_key(job.base) && t.owners.contains_key(job.base) {
            let (d, m2) = copied_enum(env, m, t.enums[job.base], job.args, job.name);
            let span = d.name.span;
            (
                Some(
                    (
                        t.owners[job.base],
                        Spanned { inner: ItemV::Enum(Spanned { inner: d, span }), span },
                    ),
                ),
                m2,
            )
        } else {
            (None, m)
        },
    }
}

/// The modules with the copies that are asked for, and those that the copies
/// ask for; at most `fuel` copies are made.
pub open spec fn drained(env: EnvV, m: MonoV, ms: Seq<ModuleV>, fuel: nat) -> (Seq<ModuleV>, MonoV)
    decreases fuel,
{
    if fuel == 0 || m.work.len() == 0 {
        (ms, m)
    } else {
        let (copy, m2) = made(env, MonoV { work: m.work.drop_last(), ..m }, m.work.last());
        let ms2 = match copy {
            Some((id, item)) => with_item(ms, env.reg, id, item),
            None => ms,
        };
        drained(env, m2, ms2, (fuel - 1) as nat)
    }
}

/// The errors of the protos that one assertion names, up to the first `n`.
pub open spec fn impl_errors(reg: RegistryV, i: ImplEntryV, n: nat) -> Seq<ErrorV>
    decreases n,
{
    if n == 0 {
        Seq::empty()
    } else {
        impl_errors(reg, i, (n - 1) as nat) + protos::proto_errors(
            reg,
            i.protos[n - 1],
            i.ty,
            i.span,
        )
    }
}

/// The errors of the first `n` assertions that a type satisfies protos.
pub open spec fn impls_errors(reg: RegistryV, impls: Seq<ImplEntryV>, n: nat) -> Seq<ErrorV>
    decreases n,
{
    if n == 0 {
        Seq::empty()
    } else {
        impls_errors(reg, impls, (n - 1) as nat) + impl_errors(
            reg,
            impls[n - 1],
            impls[n - 1].protos.len(),
        )
    }
}

/// Nothing asked for and no errors.
pub open spec fn fresh_mono(errors: Seq<ErrorV>) -> MonoV {
    MonoV {
        records: Seq::empty(),
        machines: Seq::empty(),
        enums: Seq::empty(),
        work: Seq::empty(),
        errors,
    }
}

/// The monomorphised program and the errors.
pub open spec fn monomorphised(ms: Seq<ModuleV>, reg: RegistryV) -> (Seq<ModuleV>, Seq<ErrorV>) {
    let env = EnvV { reg, templates: templates_of(ms, reg, ms.len()), subst: Map::empty() };
    let impls = reg.impls_of_first(reg.modules.len());
    let m0 = fresh_mono(impls_errors(reg, impls, impls.len()));
    let kept = kept_modules(ms);
    let (walked, m1) = walked_modules(env, m0, kept, kept.len());
    let (done, m2) = drained(env, m1, walked, u64::MAX as nat);
    (done, m2.errors + leftover::complaints(done, done.len()))
}

/// Whether no item of any module is a generic template.
pub open spec fn no_generics(ms: Seq<ModuleV>) -> bool {
    forall|i: int, j: int|
        0 <= i < ms.len() && 0 <= j < ms[i].ast.len() ==> !is_generic(
            (#[trigger] ms[i].ast[j]).inner,
        )
}

/// No generic template is left in a monomorphised program.
pub proof fn no_generics_are_left(ms: Seq<ModuleV>, reg: RegistryV)
    ensures
        no_generics(monomorphised(ms, reg).0),
{
    let env = EnvV { reg, templates: templates_of(ms, reg, ms.len()), subst: Map::empty() };
    let impls = reg.impls_of_first(reg.modules.len());
    let m0 = fresh_mono(impls_errors(reg, impls, impls.len()));
    let kept = kept_modules(ms);
    assert forall|i: int, j: int| 0 <= i < kept.len() && 0 <= j < kept[i].ast.len() implies !is_generic(
        (#[trigger] kept[i].ast[j]).inner,
    ) by {
        kept_items_are_plain(ms[i].ast, ms[i].ast.len());
    }
    walked_modules_are_plain(env, m0, kept, kept.len());
    let (walked, m1) = walked_modules(env, m0, kept, kept.len());
    drained_modules_are_plain(env, m1, walked, u64::MAX as nat);
}

/// Where monomorphising has nothing to complain about, every type in the
/// program that it gives is concrete.
pub proof fn types_are_concrete(ms: Seq<ModuleV>, reg: RegistryV)
    requires
        monomorphised(ms, reg).1.len() == 0,
    ensures
        forall|i: int, j: int|
            0 <= i < monomorphised(ms, reg).0.len() && 0 <= j < monomorphised(ms, reg).0[i].ast.len()
                ==> leftover::item_concrete((#[trigger] monomorphised(ms, reg).0[i].ast[j]).inner),
{
    let done = monomorphised(ms, reg).0;
    leftover::silence_means_concrete(done, done.len());
}

proof fn kept_items_are_plain(ast: Seq<Spanned<ItemV>>, n: nat)
    requires
        n <= ast.len(),
    ensures
        forall|j: int|
            0 <= j < kept_items(ast, n).len() ==> !is_generic(
                (#[trigger] kept_items(ast, n)[j]).inner,
            ),
    decreases n,
{
    if n > 0 {
        kept_items_are_plain(ast, (n - 1) as nat);
        let before = kept_items(ast, (n - 1) as nat);
        let after = kept_items(ast, n);
        assert forall|j: int| 0 <= j < after.len() implies !is_generic(
            (#[trigger] after[j]).inner,
        ) by {
            if j < before.len() {
                assert(after[j] == before[j]);
            }
        }
    }
}

proof fn walked_ast_is_plain(env: EnvV, m: MonoV, ast: Seq<Spanned<ItemV>>, n: nat)
    requires
        n <= ast.len(),
        forall|j: int| 0 <= j < ast.len() ==> !is_generic((#[trigger] ast[j]).inner),
    ensures
        walked_ast(env, m, ast, n).0.len() == n,
        forall|j: int|
            0 <= j < n ==> !is_generic((#[trigger] walked_ast(env, m, ast, n).0[j]).inner),
    decreases n,
{
    if n > 0 {
        walked_ast_is_plain(env, m, ast, (n - 1) as nat);
        let before = walked_ast(env, m, ast, (n - 1) as nat).0;
        let after = walked_ast(env, m, ast, n).0;
        assert(!is_generic(ast[n - 1].inner));
        assert forall|j: int| 0 <= j < n implies !is_generic((#[trigger] after[j]).inner) by {
            if j < n - 1 {
                assert(after[j] == before[j]);
            }
        }
    }
}

proof fn walked_modules_are_plain(env: EnvV, m: MonoV, ms: Seq<ModuleV>, n: nat)
    requires
        n <= ms.len(),
        no_generics(ms),
    ensures
        walked_modules(env, m, ms, n).0.len() == n,
        no_generics(walked_modules(env, m, ms, n).0),
    decreases n,
{
    if n > 0 {
        walked_modules_are_plain(env, m, ms, (n - 1) as nat);
        let (before, m1) = walked_modules(env, m, ms, (n - 1) as nat);
        let after = walked_modules(env, m, ms, n).0;
        let ast = ms[n - 1].ast;
        assert forall|j: int| 0 <= j < ast.len() implies !is_generic(
            (#[trigger] ast[j]).inner,
        ) by {
            assert(ms[n - 1].ast[j] == ast[j]);
        }
        walked_ast_is_plain(env, m1, ast, ast.len());
        assert forall|i: int, j: int|
            0 <= i < after.len() && 0 <= j < after[i].ast.len() implies !is_generic(
            (#[trigger] after[i].ast[j]).inner,
        ) by {
            if i < n - 1 {
                assert(after[i] == before[i]);
                assert(!is_generic(before[i].ast[j].inner));
            } else {
                assert(after[i].ast == walked_ast(env, m1, ast, ast.len()).0);
            }
        }
    }
}

proof fn drained_modules_are_plain(env: EnvV, m: MonoV, ms: Seq<ModuleV>, fuel: nat)
    requires
        no_generics(ms),
    ensures
        no_generics(drained(env, m, ms, fuel).0),
    decreases fuel,
{
    if fuel > 0 && m.work.len() > 0 {
        let (copy, m2) = made(env, MonoV { work: m.work.drop_last(), ..m }, m.work.last());
        let ms2 = match copy {
            Some((id, item)) => with_item(ms, env.reg, id, item),
            None => ms,
        };
        if let Some((id, item)) = copy {
            let k = module_index(ms, env.reg, id, 0);
            assert forall|i: int, j: int|
                0 <= i < ms2.len() && 0 <= j < ms2[i].ast.len() implies !is_generic(
                (#[trigger] ms2[i].ast[j]).inner,
            ) by {
                if !(0 <= k < ms.len() && i == k && j == ms[k].ast.len()) {
                    assert(ms2[i].ast[j] == ms[i].ast[j]);
                }
            }
        }
        drained_modules_are_plain(env, m2, ms2, (fuel - 1) as nat);
    }
}

// ── executable side ────────────────────────────────────────────────────────

fn find_module(ms: &Vec<ParsedModule>, registry: &ProgramRegistry, id: ModuleId) -> (r: usize)
    requires
        registry.deep_view().wf(),
    ensures
        r == module_index(ms.deep_view(), registry.deep_view(), id, 0),
        r <= ms@.len(),
{
    let ghost mv = ms.deep_view();
    let ghost reg = registry.deep_view();
    let mut i: usize = 0;
    while i < ms.len()
        invariant
            i <= ms.len(),
            mv == ms.deep_view(),
            reg == registry.deep_view(),
            reg.wf(),
            module_index(mv, reg, id, 0) == module_index(mv, reg, id, i as int),
        decreases ms.len() - i,
    {
        proof {
            assert(mv[i as int] == ms@[i as int].deep_view());
        }
        let here = match registry.module_id_for_path(&ms[i].path) {
            Some(found) => found.0 == id.0,
            None => false,
        };
        if here {
            return i;
        }
        i = i + 1;
    }
    i
}

fn add_item(
    ms: &mut Vec<ParsedModule>,
    registry: &ProgramRegistry,
    id: ModuleId,
    item: Spanned<Item>,
)
    requires
        registry.deep_view().wf(),
    ensures
        final(ms).deep_view() == with_item(
            old(ms).deep_view(),
            registry.deep_view(),
            id,
            item.deep_view(),
        ),
{
    let ghost mv = ms.deep_view();
    let ghost iv = item.deep_view();
    let i = find_module(ms, registry, id);
    if i < ms.len() {
        let ghost old_ast = ms@[i as int].ast.deep_view();
        proof {
            assert(mv[i as int] == ms@[i as int].deep_view());
        }
        ms[i].ast.push(item);
        proof {
            assert(ms@[i as int].ast.deep_view() =~= old_ast.push(iv));
            assert(ms.deep_view() =~= with_item(mv, registry.deep_view(), id, iv));
        }
    }
}

impl<'a> MonoCx<'a> {
    fn make_copy(&self, job: MonoJob, st: &mut MonoState) -> (r: Option<(ModuleId, Spanned<Item>)>)
        requires
            self.deep_view().reg.wf(),
        ensures
            ({
                let (copy, m) = made(self.deep_view(), old(st).deep_view(), job.deep_view());
                final(st).deep_view() == m && match r {
                    Some((id, item)) => copy == Some((id, item.deep_view())),
                    None => copy is None,
                }
            }),
    {
        match job.kind {
            JobKind::Record => {
                match (
                    self.templates.records.get(job.base.as_str()),
                    self.templates.owners.get(job.base.as_str()),
                ) {
                    (Some(template), Some(owner)) => {
                        proof {
                            assert(self.deep_view().templates.records[job.base@]
                                == template.deep_view());
                        }
                        let d = self.instantiate_record(
                            template,
                            &job.args,
                            job.name.as_str(),
                            st,
                        );
                        let span = d.ident.span;
                        Some(
                            (
                                *owner,
                                Spanned { inner: Item::Record(Spanned { inner: d, span }), span },
                            ),
                        )
                    },
                    _ => None,
                }
            },
            JobKind::Machine(owner) => {
                let ms = &self.templates.machines;
                let at = choose_template(ms, job.base.as_str(), owner);
                if at < ms.len() {
                    proof {
                        assert(self.deep_view().templates.machines[at as int]
                            == ms@[at as int].deep_view());
                    }
                    let d = self.instantiate_machine(
                        &ms[at].decl,
                        &job.args,
                        job.name.as_str(),
                        st,
                    );
                    let span = d.ident.span;
                    Some(
                        (
                            owner,
                            Spanned { inner: Item::Machine(Spanned { inner: d, span }), span },
                        ),
                    )
                } else {
                    proof {
                        assert(self.deep_view().templates.machines.len() == ms@.len());
                    }
                    None
                }
            },
            JobKind::Enum => {
                match (
                    self.templates.enums.get(job.base.as_str()),
                    self.templates.owners.get(job.base.as_str()),
                ) {
                    (Some(template), Some(owner)) => {
                        proof {
                            assert(self.deep_view().templates.enums[job.base@]
                                == template.deep_view());
                        }
                        let d = self.instantiate_enum(template, &job.args, job.name.as_str(), st);
                        let span = d.name.span;
                        Some(
                            (
                                *owner,
                                Spanned { inner: Item::Enum(Spanned { inner: d, span }), span },
                            ),
                        )
                    },
                    _ => None,
                }
            },
        }
    }

    fn drain(&self, ms: Vec<ParsedModule>, st: &mut MonoState) -> (r: Vec<ParsedModule>)
        requires
            self.deep_view().reg.wf(),
        ensures
            (r.deep_view(), final(st).deep_view()) == drained(
                self.deep_view(),
                old(st).deep_view(),
                ms.deep_view(),
                u64::MAX as nat,
            ),
    {
        let ghost env = self.deep_view();
        let ghost whole = drained(env, st.deep_view(), ms.deep_view(), u64::MAX as nat);
        let mut ms = ms;
        let mut fuel: u64 = u64::MAX;
        while fuel > 0 && st.work.len() > 0
            invariant
                env == self.deep_view(),
                env.reg.wf(),
                whole == drained(env, st.deep_view(), ms.deep_view(), fuel as nat),
            decreases fuel,
        {
            let ghost m = st.deep_view();
            let ghost n = st.work@.len();
            let ghost w0 = st.work@;
            let job = st.work.pop().unwrap();
            fuel = fuel - 1;
            proof {
                assert(m.work.len() == n);
                assert(m.work.last() == w0.last().deep_view());
                assert(st.work.deep_view() =~= m.work.drop_last());
                assert(st.deep_view() == MonoV { work: m.work.drop_last(), ..m });
            }
            match self.make_copy(job, st) {
                Some((id, item)) => {
                    add_item(&mut ms, self.registry, id, item);
                },
                None => {},
            }
        }
        proof {
            assert(st.deep_view().work.len() == st.work@.len());
        }
        ms
    }

    fn check_impl(&self, i: &ImplEntry, st: &mut MonoState)
        ensures
            final(st).deep_view() == (MonoV {
                errors: old(st).deep_view().errors + impl_errors(
                    self.deep_view().reg,
                    i.deep_view(),
                    i.protos@.len(),
                ),
                ..old(st).deep_view()
            }),
    {
        let ghost reg = self.deep_view().reg;
        let ghost m = st.deep_view();
        let ghost iv = i.deep_view();
        let mut k: usize = 0;
        proof {
            assert(m.errors + impl_errors(reg, iv, 0) =~= m.errors);
        }
        while k < i.protos.len()
            invariant
                k <= i.protos.len(),
                reg == self.deep_view().reg,
                iv == i.deep_view(),
                st.deep_view() == (MonoV {
                    errors: m.errors + impl_errors(reg, iv, k as nat),
                    ..m
                }),
            decreases i.protos.len() - k,
        {
            proof {
                assert(iv.protos[k as int] == i.protos@[k as int]@);
            }
            self.check_proto_satisfied(i.protos[k].as_str(), i.ty.as_str(), i.span, st);
            proof {
                assert(st.deep_view().errors =~= m.errors + impl_errors(
                    reg,
                    iv,
                    (k + 1) as nat,
                ));
            }
            k = k + 1;
        }
    }

    /// Checks every assertion that a type satisfies protos, whether or not
    /// the type is used in a bound.
    fn check_impls(&self, st: &mut MonoState)
        ensures
            ({
                let reg = self.deep_view().reg;
                let impls = reg.impls_of_first(reg.modules.len());
                final(st).deep_view() == (MonoV {
                    errors: old(st).deep_view().errors + impls_errors(reg, impls, impls.len()),
                    ..old(st).deep_view()
                })
            }),
    {
        let ghost reg = self.deep_view().reg;
        let ghost m = st.deep_view();
        let impls = self.registry.all_impls();
        let ghost iv = reg.impls_of_first(reg.modules.len());
        let mut k: usize = 0;
        proof {
            assert(reg.modules.len() == self.registry.modules@.len());
            assert(Seq::new(impls@.len(), |i: int| impls@[i].deep_view()) == iv);
            assert(m.errors + impls_errors(reg, iv, 0) =~= m.errors);
        }
        while k < impls.len()
            invariant
                k <= impls.len(),
                reg == self.deep_view().reg,
                Seq::new(impls@.len(), |i: int| impls@[i].deep_view()) == iv,
                st.deep_view() == (MonoV {
                    errors: m.errors + impls_errors(reg, iv, k as nat),
                    ..m
                }),
            decreases impls.len() - k,
        {
            proof {
                assert(Seq::new(impls@.len(), |i: int| impls@[i].deep_view())[k as int]
                    == impls@[k as int].deep_view());
                assert(iv[k as int].protos.len() == impls@[k as int].protos@.len());
            }
            self.check_impl(impls[k], st);
            proof {
                assert(st.deep_view().errors =~= m.errors + impls_errors(
                    reg,
                    iv,
                    (k + 1) as nat,
                ));
            }
            k = k + 1;
        }
    }
}

/// Run the monomorphisation pass.  The program is returned whether or not
/// there were errors.
pub fn monomorphise_program(program: ParsedProgram, registry: &ProgramRegistry) -> (r: (
    ParsedProgram,
    Vec<LakeError>,
))
    requires
        registry.deep_view().wf(),
        pure::all_registered(program.deep_view(), registry.deep_view()),
    ensures
        (r.0.deep_view(), r.1.deep_view()) == monomorphised(
            program.deep_view(),
            registry.deep_view(),
        ),
{
    let ghost ms0 = program.deep_view();
    let ghost reg = registry.deep_view();
    let (modules, templates) = take_templates(program, registry);
    let none: NameMap<Type> = NameMap::new();
    proof {
        assert(none.deep_view() =~= Map::<Text, TypeV>::empty());
    }
    let cx = MonoCx { registry, templates: &templates, subst: &none };
    let mut st = MonoState {
        records: Vec::new(),
        machines: Vec::new(),
        enums: Vec::new(),
        work: Vec::new(),
        errors: Vec::new(),
    };
    proof {
        assert(st.records.deep_view() =~= Seq::<InstV>::empty());
        assert(st.machines.deep_view() =~= Seq::<InstV>::empty());
        assert(st.enums.deep_view() =~= Seq::<InstV>::empty());
        assert(st.work.deep_view() =~= Seq::<JobV>::empty());
        assert(st.errors.deep_view() =~= Seq::<ErrorV>::empty());
    }
    cx.check_impls(&mut st);
    proof {
        let impls = reg.impls_of_first(reg.modules.len());
        let errors = impls_errors(reg, impls, impls.len());
        assert(Seq::<ErrorV>::empty() + errors =~= errors);
        assert(st.deep_view() == fresh_mono(errors));
        assert(kept_modules(ms0).len() == modules@.len());
    }
    let modules = cx.walk_modules(modules, &mut st);
    let modules = cx.drain(modules, &mut st);
    let program = ParsedProgram { modules };
    let mut errors = st.errors;
    let mut left = leftover::complain(&program);
    let ghost before = errors@;
    let ghost more = left@;
    errors.append(&mut left);
    proof {
        assert(errors.deep_view() =~= before.map_values(|e: LakeError| e.deep_view())
            + more.map_values(|e: LakeError| e.deep_view()));
    }
    (program, errors)
}

// ── the modules stay ───────────────────────────────────────────────────────

/// Whether two programs have the same modules, from the same files.
pub open spec fn same_modules(a: Seq<ModuleV>, b: Seq<ModuleV>) -> bool {
    &&& a.len() == b.len()
    &&& forall|i: int|
        0 <= i < a.len() ==> (#[trigger] b[i]).path == a[i].path && b[i].source_path
            == a[i].source_path
}

/// Monomorphisation keeps the modules of a program, in their order.
pub proof fn monomorphising_keeps_modules(ms: Seq<ModuleV>, reg: RegistryV)
    ensures
        same_modules(ms, monomorphised(ms, reg).0),
{
    let env = EnvV { reg, templates: templates_of(ms, reg, ms.len()), subst: Map::empty() };
    let impls = reg.impls_of_first(reg.modules.len());
    let m0 = fresh_mono(impls_errors(reg, impls, impls.len()));
    let kept = kept_modules(ms);
    walking_keeps_modules(env, m0, kept, kept.len());
    let (walked, m1) = walked_modules(env, m0, kept, kept.len());
    draining_keeps_modules(env, m1, walked, u64::MAX as nat);
    let done = drained(env, m1, walked, u64::MAX as nat).0;
    assert forall|i: int| 0 <= i < ms.len() implies (#[trigger] done[i]).path == ms[i].path
        && done[i].source_path == ms[i].source_path by {
        assert(walked[i].path == kept[i].path);
    }
}

proof fn walking_keeps_modules(env: EnvV, m: MonoV, ms: Seq<ModuleV>, n: nat)
    requires
        n <= ms.len(),
    ensures
        walked_modules(env, m, ms, n).0.len() == n,
        forall|i: int|
            0 <= i < n ==> (#[trigger] walked_modules(env, m, ms, n).0[i]).path == ms[i].path
                && walked_modules(env, m, ms, n).0[i].source_path == ms[i].source_path,
    decreases n,
{
    if n > 0 {
        walking_keeps_modules(env, m, ms, (n - 1) as nat);
        let before = walked_modules(env, m, ms, (n - 1) as nat).0;
        let after = walked_modules(env, m, ms, n).0;
        assert forall|i: int| 0 <= i < n implies (#[trigger] after[i]).path == ms[i].path
            && after[i].source_path == ms[i].source_path by {
            if i < n - 1 {
                assert(after[i] == before[i]);
            }
        }
    }
}

proof fn draining_keeps_modules(env: EnvV, m: MonoV, ms: Seq<ModuleV>, fuel: nat)
    ensures
        same_modules(ms, drained(env, m, ms, fuel).0),
    decreases fuel,
{
    if fuel > 0 && m.work.len() > 0 {
        let (copy, m2) = made(env, MonoV { work: m.work.drop_last(), ..m }, m.work.last());
        let ms2 = match copy {
            Some((id, item)) => with_item(ms, env.reg, id, item),
            None => ms,
        };
        draining_keeps_modules(env, m2, ms2, (fuel - 1) as nat);
        let done = drained(env, m, ms, fuel).0;
        assert forall|i: int| 0 <= i < ms.len() implies (#[trigger] done[i]).path == ms[i].path
            && done[i].source_path == ms[i].source_path by {
            assert(ms2[i].path == ms[i].path);
        }
    }
}

} // verus!
