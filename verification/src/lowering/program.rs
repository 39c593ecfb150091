//! Lowering whole programs, and giving machines their symbols.

use vstd::prelude::*;

use crate::api::ast;
use crate::api::ast::{
    Branch, BranchV, Ident, Item, ItemV, Machine, MachineItem, MachineItemV, MachineV, Pattern,
    PatternV,
};
use crate::api::expr::{HandlerV, Tree};
use crate::loader::{ModuleV, ParsedModule, ParsedProgram};
use crate::lowering::body;
use crate::lowering::expand;
use crate::lowering::expand::{CxV, LowerCx};
use crate::lowering::lift::Fresh;
use crate::lowering::passes;
use crate::lowering::passes::MangleCalls;
use crate::lowering::pure;
use crate::lowering::pure::{
    collect_pure_bodies, collect_pure_ret_machines, collect_ret_machines, KeyTable, RetKey, RetKeyV,
    TemplateV,
};
use crate::lowering::settled;
use crate::lowering::settling::is_settled;
use crate::lowering::synth;
use crate::lowering::synth::synth_caller_pattern;
use crate::registry;
use crate::registry::{ModuleId, ProgramRegistry, RegistryV, Resolution, ResolutionV};
use crate::rewrite;
use crate::rewrite::rewrite_all;
use crate::span;
use crate::span::{SimpleSpan, SpanWrap, Spanned};
use crate::text::{same, Text};

verus! {

// ── branches ───────────────────────────────────────────────────────────────

/// How deep bodies are lowered: deeper than any body can be.
pub open spec fn depth() -> nat {
    u64::MAX as nat
}

/// Whether a parameter list begins with the caller.
pub open spec fn has_caller(patterns: Seq<Spanned<PatternV>>) -> bool {
    patterns.len() > 0 && patterns[0].inner.ident.inner == "__caller"@
}

/// The parameters of a branch: those of a branch that returns begin with
/// the caller, which takes the place of a lone `_`.
pub open spec fn lowered_patterns(head: HandlerV) -> Seq<Spanned<PatternV>> {
    let ps = head.patterns;
    if head.ret_ty is Some && !has_caller(ps) {
        let span = if ps.len() > 0 {
            ps[0].span
        } else {
            span::zero_span()
        };
        if ps.len() == 1 && ps[0].inner.kind is Wildcard {
            seq![synth::caller_pattern(span)]
        } else {
            seq![synth::caller_pattern(span)] + ps
        }
    } else {
        ps
    }
}

/// Lowering the parameters of a lowered branch changes nothing.
pub proof fn lowering_patterns_twice_is_once(head: HandlerV)
    ensures
        lowered_patterns(HandlerV { patterns: lowered_patterns(head), ..head }) == lowered_patterns(
            head,
        ),
{
    let once = lowered_patterns(head);
    if head.ret_ty is Some {
        assert(has_caller(once));
    }
}

/// The parameters of a lowered branch that returns begin with the caller.
pub proof fn lowered_patterns_have_the_caller(head: HandlerV)
    ensures
        head.ret_ty is Some ==> has_caller(lowered_patterns(head)),
{
    let ps = lowered_patterns(head);
    if head.ret_ty is Some && !has_caller(head.patterns) {
        assert(ps[0].inner.ident.inner == "__caller"@);
    }
}

/// The lowered branch.  One that takes its caller already was lowered before,
/// and sends its value.
pub open spec fn lowered_branch(cx: CxV, b: BranchV, next: u32) -> (BranchV, u32) {
    let (body, c) = body::lowered(
        cx,
        b.body,
        b.head.ret_ty is Some,
        !has_caller(b.head.patterns),
        next,
        depth(),
    );
    (BranchV { head: HandlerV { patterns: lowered_patterns(b.head), ..b.head }, body }, c)
}

/// Whether a parameter list begins with the caller.
pub fn starts_with_caller(patterns: &Vec<Spanned<Pattern>>) -> (r: bool)
    ensures
        r == has_caller(ast::patterns_view(patterns@)),
{
    let ghost pv = ast::patterns_view(patterns@);
    proof {
        if patterns@.len() > 0 {
            assert(pv[0].inner == ast::pattern_view(patterns@[0].inner));
        }
    }
    patterns.len() > 0 && same(patterns[0].inner.ident.inner.0.as_str(), "__caller")
}

fn lower_patterns(patterns: Vec<Spanned<Pattern>>, is_ret: bool) -> (r: Vec<Spanned<Pattern>>)
    ensures
        forall|head: HandlerV|
            (head.ret_ty is Some) == is_ret && head.patterns == ast::patterns_view(patterns@)
                ==> ast::patterns_view(r@) == #[trigger] lowered_patterns(head),
{
    let ghost pv = ast::patterns_view(patterns@);
    let n = patterns.len();
    proof {
        assert(pv.len() == n);
        if n > 0 {
            assert(pv[0].inner == ast::pattern_view(patterns@[0].inner));
            assert(pv[0].span == patterns@[0].span);
        }
    }
    if !is_ret || (n > 0 && same(patterns[0].inner.ident.inner.0.as_str(), "__caller")) {
        return patterns;
    }
    let span = if n > 0 {
        patterns[0].span
    } else {
        SimpleSpan { start: 0, end: 0 }
    };
    let caller = synth_caller_pattern(span);
    let ghost cp = Spanned { inner: ast::pattern_view(caller.inner), span: caller.span };
    proof {
        assert(cp == synth::caller_pattern(span));
    }
    let mut out: Vec<Spanned<Pattern>> = Vec::new();
    out.push(caller);
    proof {
        assert(ast::patterns_view(out@) =~= seq![cp]);
    }
    if !(n == 1 && patterns[0].inner.is_wildcard()) {
        let ghost ps = patterns@;
        let mut patterns = patterns;
        out.append(&mut patterns);
        proof {
            assert(ast::patterns_view(out@) =~= seq![cp] + pv);
        }
    }
    out
}

impl<'a> LowerCx<'a> {
    /// Lower one branch: its parameters and its body.
    pub fn lower_branch(&self, branch: Branch, fresh: &mut Fresh) -> (r: Branch)
        requires
            self.deep_view().wf(),
        ensures
            (r.deep_view(), final(fresh).next) == lowered_branch(
                self.deep_view(),
                branch.deep_view(),
                old(fresh).next,
            ),
    {
        let ghost head = branch.deep_view().head;
        let is_ret_branch = branch.ret_ty.is_some();
        let is_new = !starts_with_caller(&branch.patterns);
        let patterns = lower_patterns(branch.patterns, is_ret_branch);
        let body = self.lower_body(branch.body, is_ret_branch, is_new, fresh, u64::MAX);
        proof {
            assert(ast::patterns_view(patterns@) == lowered_patterns(head));
        }
        let r = Branch::new(branch.label, patterns, branch.ret_ty, body);
        proof {
            assert(r.deep_view().head == (HandlerV { patterns: lowered_patterns(head), ..head }));
        }
        r
    }
}

// ── machines and modules ───────────────────────────────────────────────────

/// The first `n` items of a machine, their branches lowered.
pub open spec fn lowered_items(
    cx: CxV,
    items: Seq<Spanned<MachineItemV>>,
    n: nat,
    next: u32,
) -> (Seq<Spanned<MachineItemV>>, u32)
    decreases n,
{
    if n == 0 {
        (Seq::empty(), next)
    } else {
        let (before, c) = lowered_items(cx, items, (n - 1) as nat, next);
        let item = items[n - 1];
        match item.inner {
            MachineItemV::Branch(b) => {
                let (b2, c2) = lowered_branch(cx, b, c);
                (
                    before.push(Spanned { inner: MachineItemV::Branch(b2), span: item.span }),
                    c2,
                )
            },
            MachineItemV::Field(_) => (before.push(item), c),
        }
    }
}

/// The lowered machine.
pub open spec fn lowered_machine(cx: CxV, m: MachineV, next: u32) -> (MachineV, u32) {
    let (items, c) = lowered_items(cx, m.items, m.items.len(), next);
    (MachineV { items, ..m }, c)
}

/// The first `n` items of a module: machines are lowered, and those that
/// are expanded at their calls are gone.
pub open spec fn lowered_ast(
    cx: CxV,
    path: Seq<Text>,
    ast: Seq<Spanned<ItemV>>,
    n: nat,
    next: u32,
) -> (Seq<Spanned<ItemV>>, u32)
    decreases n,
{
    if n == 0 {
        (Seq::empty(), next)
    } else {
        let (before, c) = lowered_ast(cx, path, ast, (n - 1) as nat, next);
        let item = ast[n - 1];
        match item.inner {
            ItemV::Machine(m) => {
                let key = RetKeyV { module: path, name: m.inner.ident.inner };
                if pure::key_lookup(cx.pure, key) is Some {
                    (before, c)
                } else {
                    let (m2, c2) = lowered_machine(cx, m.inner, c);
                    (
                        before.push(
                            Spanned {
                                inner: ItemV::Machine(Spanned { inner: m2, span: m.span }),
                                span: item.span,
                            },
                        ),
                        c2,
                    )
                }
            },
            _ => (before.push(item), c),
        }
    }
}

/// The lowered module.
pub open spec fn lowered_module(cx: CxV, m: ModuleV, next: u32) -> (ModuleV, u32) {
    let (ast, c) = lowered_ast(cx, m.path, m.ast, m.ast.len(), next);
    (ModuleV { ast, ..m }, c)
}

/// What lowering knows in module `m`.
pub open spec fn context_of(
    reg: RegistryV,
    ret: Seq<(RetKeyV, Text)>,
    pure: Seq<(RetKeyV, TemplateV)>,
    m: ModuleV,
) -> CxV {
    CxV { reg, id: reg.id_for_path(m.path)->0, ret, pure }
}

/// The first `n` modules, lowered.
pub open spec fn lowered_modules(
    reg: RegistryV,
    ret: Seq<(RetKeyV, Text)>,
    pure: Seq<(RetKeyV, TemplateV)>,
    ms: Seq<ModuleV>,
    n: nat,
    next: u32,
) -> (Seq<ModuleV>, u32)
    decreases n,
{
    if n == 0 {
        (Seq::empty(), next)
    } else {
        let (before, c) = lowered_modules(reg, ret, pure, ms, (n - 1) as nat, next);
        let (m, c2) = lowered_module(context_of(reg, ret, pure, ms[n - 1]), ms[n - 1], c);
        (before.push(m), c2)
    }
}

/// The templates that are expanded at calls; none where expansion is off.
pub open spec fn templates_for(ms: Seq<ModuleV>, reg: RegistryV, inline_pure: bool) -> Seq<
    (RetKeyV, TemplateV),
> {
    if inline_pure {
        pure::templates_of(
            ms,
            pure::pure_machines(ms, pure::ret_machines_of(ms, ms.len())),
            reg,
            ms.len(),
        )
    } else {
        Seq::empty()
    }
}

/// One pass over a program: every branch is lowered.
pub open spec fn passed(ms: Seq<ModuleV>, reg: RegistryV, inline_pure: bool, next: u32) -> (
    Seq<ModuleV>,
    u32,
) {
    lowered_modules(
        reg,
        pure::ret_machines_of(ms, ms.len()),
        templates_for(ms, reg, inline_pure),
        ms,
        ms.len(),
        next,
    )
}

/// Whether a constant is called what the caller is called in some module.
pub open spec fn caller_is_const(ms: Seq<ModuleV>, reg: RegistryV) -> bool {
    exists|i: int| 0 <= i < ms.len() && #[trigger] caller_is_const_in(ms[i], reg)
}

pub open spec fn caller_is_const_in(m: ModuleV, reg: RegistryV) -> bool {
    reg.resolved(reg.id_for_path(m.path)->0, "__caller"@) matches Some(ResolutionV::Const(_))
}

/// How many passes may follow the first: none where a constant would take the
/// place of the caller that the first has put in.
pub open spec fn rounds(ms: Seq<ModuleV>, reg: RegistryV) -> nat {
    if caller_is_const(ms, reg) {
        0
    } else {
        1
    }
}

/// Passes over a program until one leaves nothing to do, or `rounds` passes
/// have followed the first.
pub open spec fn repeated(
    ms: Seq<ModuleV>,
    reg: RegistryV,
    inline_pure: bool,
    next: u32,
    rounds: nat,
) -> Seq<ModuleV>
    decreases rounds,
{
    let (q, c) = passed(ms, reg, inline_pure, next);
    if settled::settled_program(q, reg) || rounds == 0 {
        q
    } else {
        repeated(q, reg, inline_pure, c, (rounds - 1) as nat)
    }
}

/// Whether the passes come to rest: one of them leaves nothing to do.
pub open spec fn rests(
    ms: Seq<ModuleV>,
    reg: RegistryV,
    inline_pure: bool,
    next: u32,
    rounds: nat,
) -> bool
    decreases rounds,
{
    let (q, c) = passed(ms, reg, inline_pure, next);
    settled::settled_program(q, reg) || (rounds > 0 && rests(
        q,
        reg,
        inline_pure,
        c,
        (rounds - 1) as nat,
    ))
}

/// The lowered program.  What one pass puts in a body, such as a machine
/// expanded at its call or a send around a call, the next pass lowers.
pub open spec fn lowered_program(ms: Seq<ModuleV>, reg: RegistryV, inline_pure: bool) -> Seq<
    ModuleV,
> {
    repeated(ms, reg, inline_pure, 0, rounds(ms, reg))
}

impl<'a> LowerCx<'a> {
    /// Lower the branches of a machine.
    pub fn lower_machine(&self, machine: Machine, fresh: &mut Fresh) -> (r: Machine)
        requires
            self.deep_view().wf(),
        ensures
            (r.deep_view(), final(fresh).next) == lowered_machine(
                self.deep_view(),
                machine.deep_view(),
                old(fresh).next,
            ),
    {
        let ghost cx = self.deep_view();
        let ghost mv = machine.deep_view();
        let ghost start = fresh.next;
        let ghost items0 = machine.items@;
        let mut items: Vec<Spanned<MachineItem>> = Vec::new();
        proof {
            assert(items.deep_view() =~= Seq::<Spanned<MachineItemV>>::empty());
        }
        for item in it: machine.items
            invariant
                it.seq() == items0,
                mv.items == items0.map_values(|x: Spanned<MachineItem>| x.deep_view()),
                cx == self.deep_view(),
                cx.wf(),
                (items.deep_view(), fresh.next) == lowered_items(
                    cx,
                    mv.items,
                    it.index() as nat,
                    start,
                ),
        {
            let ghost before = items.deep_view();
            proof {
                assert(mv.items[it.index() as int] == item.deep_view());
            }
            let span = item.span;
            let one = match item.inner {
                MachineItem::Branch(b) => {
                    Spanned { inner: MachineItem::Branch(self.lower_branch(b, fresh)), span }
                },
                other => Spanned { inner: other, span },
            };
            let ghost ov = one.deep_view();
            items.push(one);
            proof {
                assert(items.deep_view() =~= before.push(ov));
            }
        }
        Machine {
            attrs: machine.attrs,
            vis: machine.vis,
            ident: machine.ident,
            generics: machine.generics,
            bounds: machine.bounds,
            items,
        }
    }

    /// Lower every machine of a module.
    pub fn lower_module(&self, module: ParsedModule, fresh: &mut Fresh) -> (r: ParsedModule)
        requires
            self.deep_view().wf(),
        ensures
            (r.deep_view(), final(fresh).next) == lowered_module(
                self.deep_view(),
                module.deep_view(),
                old(fresh).next,
            ),
    {
        let ghost cx = self.deep_view();
        let ghost mv = module.deep_view();
        let ghost start = fresh.next;
        let ghost ast0 = module.ast@;
        let path = module.path;
        let mut out: Vec<Spanned<Item>> = Vec::new();
        proof {
            assert(out.deep_view() =~= Seq::<Spanned<ItemV>>::empty());
        }
        for item in it: module.ast
            invariant
                it.seq() == ast0,
                mv.ast == ast0.map_values(|x: Spanned<Item>| x.deep_view()),
                mv.path == path.deep_view(),
                cx == self.deep_view(),
                cx.wf(),
                (out.deep_view(), fresh.next) == lowered_ast(
                    cx,
                    mv.path,
                    mv.ast,
                    it.index() as nat,
                    start,
                ),
        {
            let ghost before = out.deep_view();
            proof {
                assert(mv.ast[it.index() as int] == item.deep_view());
            }
            let span = item.span;
            match item.inner {
                Item::Machine(m) => {
                    let machine_span = m.span;
                    let key = RetKey { module: path.dup(), name: m.inner.ident.inner.0.clone() };
                    if self.pure_bodies.get(&key).is_none() {
                        let lowered = self.lower_machine(m.inner, fresh);
                        let one = Spanned {
                            inner: Item::Machine(Spanned { inner: lowered, span: machine_span }),
                            span,
                        };
                        let ghost ov = one.deep_view();
                        out.push(one);
                        proof {
                            assert(out.deep_view() =~= before.push(ov));
                        }
                    }
                },
                other => {
                    let one = Spanned { inner: other, span };
                    let ghost ov = one.deep_view();
                    out.push(one);
                    proof {
                        assert(out.deep_view() =~= before.push(ov));
                    }
                },
            }
        }
        ParsedModule { path, source_path: module.source_path, ast: out }
    }
}

// ── programs ───────────────────────────────────────────────────────────────

proof fn inserted_template_is_ok(
    table: Seq<(RetKeyV, TemplateV)>,
    key: RetKeyV,
    tm: TemplateV,
    reg: RegistryV,
)
    requires
        expand::templates_ok(table, reg),
        expand::template_ok(tm, reg),
    ensures
        expand::templates_ok(pure::key_insert(table, key, tm), reg),
{
    let after = pure::key_insert(table, key, tm);
    let i = pure::key_index(table, key, 0);
    assert forall|j: int| 0 <= j < after.len() implies expand::template_ok(
        (#[trigger] after[j]).1,
        reg,
    ) by {
        if j < table.len() && !(0 <= i < table.len() && j == i) {
            assert(after[j] == table[j]);
        }
    }
}

proof fn template_is_ok(m: MachineV, consts: Map<Text, Tree>, id: ModuleId, reg: RegistryV)
    requires
        reg.has(id),
    ensures
        pure::template_of(m, consts, id) matches Some(tm) ==> expand::template_ok(tm, reg),
{
    let bs = pure::branches_of(m.items, m.items.len());
    if bs.len() == 1 && pure::is_simple(pure::canonical(bs[0].body)) {
        let b = pure::canonical(bs[0].body);
        let rule = passes::consts_rule(consts);
        assert(rewrite::rewritten_all(rule, b).last() == rewrite::rewritten(rule, b.last()));
        assert(rewrite::rewritten(rule, b.last()).head is Ret);
    }
}

proof fn module_templates_are_ok(
    table: Seq<(RetKeyV, TemplateV)>,
    keys: Seq<RetKeyV>,
    m: ModuleV,
    id: ModuleId,
    n: nat,
    reg: RegistryV,
)
    requires
        reg.has(id),
        expand::templates_ok(table, reg),
    ensures
        expand::templates_ok(pure::module_templates(table, keys, m, id, n), reg),
    decreases n,
{
    if n > 0 {
        module_templates_are_ok(table, keys, m, id, (n - 1) as nat, reg);
        let before = pure::module_templates(table, keys, m, id, (n - 1) as nat);
        if let ItemV::Machine(mach) = m.ast[n - 1].inner {
            let consts = pure::module_consts(m.ast, m.ast.len());
            let key = RetKeyV { module: m.path, name: mach.inner.ident.inner };
            template_is_ok(mach.inner, consts, id, reg);
            if let Some(tm) = pure::template_of(mach.inner, consts, id) {
                inserted_template_is_ok(before, key, tm, reg);
            }
        }
    }
}

/// Every template comes from a module that exists and ends in a `ret`.
pub proof fn collected_templates_are_ok(
    ms: Seq<ModuleV>,
    keys: Seq<RetKeyV>,
    reg: RegistryV,
    n: nat,
)
    requires
        n <= ms.len(),
        reg.wf(),
        pure::all_registered(ms, reg),
    ensures
        expand::templates_ok(pure::templates_of(ms, keys, reg, n), reg),
    decreases n,
{
    if n > 0 {
        collected_templates_are_ok(ms, keys, reg, (n - 1) as nat);
        let m = ms[n - 1];
        assert(reg.id_for_path(m.path) is Some);
        registry::index_of_path_bounds(reg, m.path, 0);
        module_templates_are_ok(
            pure::templates_of(ms, keys, reg, (n - 1) as nat),
            keys,
            m,
            reg.id_for_path(m.path)->0,
            m.ast.len(),
            reg,
        );
    }
}

/// One pass over every module.
fn pass_over(
    program: ParsedProgram,
    registry: &ProgramRegistry,
    inline_pure: bool,
    fresh: &mut Fresh,
) -> (r: ParsedProgram)
    requires
        registry.deep_view().wf(),
        pure::all_registered(program.deep_view(), registry.deep_view()),
    ensures
        (r.deep_view(), final(fresh).next) == passed(
            program.deep_view(),
            registry.deep_view(),
            inline_pure,
            old(fresh).next,
        ),
{
    let ghost ms = program.deep_view();
    let ghost reg = registry.deep_view();
    let ret_machines = collect_ret_machines(&program);
    let pure_set = collect_pure_ret_machines(&program, &ret_machines);
    let pure_bodies = if inline_pure {
        collect_pure_bodies(&program, &pure_set, registry)
    } else {
        KeyTable::new()
    };
    let ghost ret = ret_machines.deep_view();
    let ghost templates = pure_bodies.deep_view();
    proof {
        collected_templates_are_ok(ms, pure_set.deep_view(), reg, ms.len());
    }
    let ghost start = fresh.next;
    let ghost ms0 = program.modules@;
    let mut modules: Vec<ParsedModule> = Vec::new();
    proof {
        assert(modules.deep_view() =~= Seq::<ModuleV>::empty());
    }
    for module in it: program.modules
        invariant
            it.seq() == ms0,
            ms == ms0.map_values(|x: ParsedModule| x.deep_view()),
            reg == registry.deep_view(),
            reg.wf(),
            pure::all_registered(ms, reg),
            ret == ret_machines.deep_view(),
            templates == pure_bodies.deep_view(),
            expand::templates_ok(templates, reg),
            (modules.deep_view(), fresh.next) == lowered_modules(
                reg,
                ret,
                templates,
                ms,
                it.index() as nat,
                start,
            ),
    {
        let ghost before = modules.deep_view();
        proof {
            assert(ms[it.index() as int] == module.deep_view());
            registry::index_of_path_bounds(reg, module.deep_view().path, 0);
        }
        let module_id = registry.module_id_for_path(&module.path).unwrap();
        let cx = LowerCx {
            registry,
            module_id,
            ret_machines: &ret_machines,
            pure_bodies: &pure_bodies,
        };
        proof {
            assert(cx.deep_view() == context_of(reg, ret, templates, module.deep_view()));
        }
        let one = cx.lower_module(module, fresh);
        let ghost ov = one.deep_view();
        modules.push(one);
        proof {
            assert(modules.deep_view() =~= before.push(ov));
        }
    }
    ParsedProgram { modules }
}

fn repeat_passes(
    program: ParsedProgram,
    registry: &ProgramRegistry,
    inline_pure: bool,
    fresh: &mut Fresh,
    rounds: u64,
) -> (r: ParsedProgram)
    requires
        registry.deep_view().wf(),
        pure::all_registered(program.deep_view(), registry.deep_view()),
    ensures
        r.deep_view() == repeated(
            program.deep_view(),
            registry.deep_view(),
            inline_pure,
            old(fresh).next,
            rounds as nat,
        ),
    decreases rounds,
{
    let ghost ms = program.deep_view();
    let ghost reg = registry.deep_view();
    proof {
        passing_keeps_modules(ms, reg, inline_pure, fresh.next);
        passing_keeps_registered(ms, reg, inline_pure, fresh.next);
    }
    let once = pass_over(program, registry, inline_pure, fresh);
    if rounds == 0 || is_settled(&once, registry) {
        once
    } else {
        repeat_passes(once, registry, inline_pure, fresh, rounds - 1)
    }
}

fn has_const_for_caller(program: &ParsedProgram, registry: &ProgramRegistry) -> (r: bool)
    requires
        registry.deep_view().wf(),
        pure::all_registered(program.deep_view(), registry.deep_view()),
    ensures
        r == caller_is_const(program.deep_view(), registry.deep_view()),
{
    let ghost ms = program.deep_view();
    let ghost reg = registry.deep_view();
    let mut i: usize = 0;
    while i < program.modules.len()
        invariant
            i <= program.modules.len(),
            ms == program.deep_view(),
            reg == registry.deep_view(),
            reg.wf(),
            pure::all_registered(ms, reg),
            forall|k: int| 0 <= k < i ==> !#[trigger] caller_is_const_in(ms[k], reg),
        decreases program.modules.len() - i,
    {
        proof {
            assert(ms[i as int] == program.modules@[i as int].deep_view());
            assert(reg.id_for_path(ms[i as int].path) is Some);
            registry::index_of_path_bounds(reg, ms[i as int].path, 0);
        }
        let id = registry.module_id_for_path(&program.modules[i].path).unwrap();
        if let Some(Resolution::Const(_)) = registry.resolve_bare_in(id, "__caller") {
            proof {
                assert(caller_is_const_in(ms[i as int], reg));
            }
            return true;
        }
        i = i + 1;
    }
    false
}

/// Lower every machine in every module, in passes until one leaves nothing to
/// do.  `inline_pure` says whether calls of pure machines are expanded in
/// place.
pub fn lower_program(
    program: ParsedProgram,
    registry: &ProgramRegistry,
    inline_pure: bool,
) -> (r: ParsedProgram)
    requires
        registry.deep_view().wf(),
        pure::all_registered(program.deep_view(), registry.deep_view()),
    ensures
        r.deep_view() == lowered_program(
            program.deep_view(),
            registry.deep_view(),
            inline_pure,
        ),
{
    let mut fresh = Fresh { next: 0 };
    let rounds: u64 = if has_const_for_caller(&program, registry) {
        0
    } else {
        1
    };
    repeat_passes(program, registry, inline_pure, &mut fresh, rounds)
}

// ── symbols ────────────────────────────────────────────────────────────────

/// A machine item whose calls go by symbols.
pub open spec fn mangled_machine_item(
    reg: RegistryV,
    id: ModuleId,
    item: Spanned<MachineItemV>,
) -> Spanned<MachineItemV> {
    match item.inner {
        MachineItemV::Branch(b) => Spanned {
            inner: MachineItemV::Branch(
                BranchV {
                    body: rewrite::rewritten_all(passes::mangle_rule(reg, id), b.body),
                    ..b
                },
            ),
            span: item.span,
        },
        MachineItemV::Field(_) => item,
    }
}

/// An item: a machine goes by its symbol, and so do its calls.
pub open spec fn mangled_item(reg: RegistryV, id: ModuleId, item: Spanned<ItemV>) -> Spanned<
    ItemV,
> {
    match item.inner {
        ItemV::Machine(m) => Spanned {
            inner: ItemV::Machine(
                Spanned {
                    inner: MachineV {
                        ident: Spanned {
                            inner: registry::mangled(reg.scope(id).path, m.inner.ident.inner),
                            span: m.inner.ident.span,
                        },
                        items: m.inner.items.map_values(
                            |i: Spanned<MachineItemV>| mangled_machine_item(reg, id, i),
                        ),
                        ..m.inner
                    },
                    span: m.span,
                },
            ),
            span: item.span,
        },
        _ => item,
    }
}

/// A module whose machines go by their symbols.
pub open spec fn mangled_module(reg: RegistryV, m: ModuleV) -> ModuleV {
    let id = reg.id_for_path(m.path)->0;
    ModuleV { ast: m.ast.map_values(|i: Spanned<ItemV>| mangled_item(reg, id, i)), ..m }
}

/// Machines of one module keep different names.
pub proof fn symbols_of_a_module_differ(path: Seq<Text>, a: Text, b: Text)
    ensures
        registry::mangled(path, a) == registry::mangled(path, b) ==> a == b,
{
    let x = registry::mangled(path, a);
    let y = registry::mangled(path, b);
    if path.len() > 0 && x == y {
        let k = x.len() - a.len();
        assert(x.skip(k) =~= a);
        assert(y.skip(y.len() - b.len()) =~= b);
    }
}

/// Machines of the root module keep their names.
pub proof fn root_symbols_are_names(name: Text)
    ensures
        registry::mangled(Seq::empty(), name) == name,
{
}

impl<'a> MangleCalls<'a> {
    /// Renames the calls in a branch.
    pub fn mangle_branch(&self, branch: Branch) -> (r: Branch)
        requires
            self.registry.deep_view().wf(),
            self.registry.deep_view().has(self.module_id),
        ensures
            r.deep_view() == (BranchV {
                body: rewrite::rewritten_all(
                    passes::mangle_rule(self.registry.deep_view(), self.module_id),
                    branch.deep_view().body,
                ),
                ..branch.deep_view()
            }),
    {
        let body = rewrite_all(self, branch.body);
        Branch { label: branch.label, patterns: branch.patterns, ret_ty: branch.ret_ty, body }
    }

    fn mangle_machine_items(&self, items: Vec<Spanned<MachineItem>>) -> (r: Vec<
        Spanned<MachineItem>,
    >)
        requires
            self.registry.deep_view().wf(),
            self.registry.deep_view().has(self.module_id),
        ensures
            r.deep_view() == items.deep_view().map_values(
                |i: Spanned<MachineItemV>|
                    mangled_machine_item(self.registry.deep_view(), self.module_id, i),
            ),
    {
        let ghost reg = self.registry.deep_view();
        let ghost items0 = items@;
        let mut out: Vec<Spanned<MachineItem>> = Vec::new();
        for item in it: items
            invariant
                it.seq() == items0,
                reg == self.registry.deep_view(),
                reg.wf(),
                reg.has(self.module_id),
                out@.len() == it.index(),
                forall|j: int|
                    0 <= j < it.index() ==> (#[trigger] out@[j]).deep_view()
                        == mangled_machine_item(reg, self.module_id, items0[j].deep_view()),
        {
            let span = item.span;
            let one = match item.inner {
                MachineItem::Branch(b) => {
                    Spanned { inner: MachineItem::Branch(self.mangle_branch(b)), span }
                },
                other => Spanned { inner: other, span },
            };
            out.push(one);
        }
        proof {
            assert(out.deep_view() =~= items0.map_values(
                |x: Spanned<MachineItem>| x.deep_view(),
            ).map_values(
                |i: Spanned<MachineItemV>|
                    mangled_machine_item(self.registry.deep_view(), self.module_id, i),
            ));
        }
        out
    }

    /// Gives a machine its symbol and renames its calls.
    pub fn mangle_item(&self, item: Spanned<Item>) -> (r: Spanned<Item>)
        requires
            self.registry.deep_view().wf(),
            self.registry.deep_view().has(self.module_id),
        ensures
            r.deep_view() == mangled_item(
                self.registry.deep_view(),
                self.module_id,
                item.deep_view(),
            ),
    {
        let span = item.span;
        match item.inner {
            Item::Machine(m) => {
                let machine_span = m.span;
                let machine = m.inner;
                let path = &self.registry.module(self.module_id).path;
                let symbol = path.mangle(machine.ident.inner.0.as_str());
                let ident = Ident(symbol).with_span(machine.ident.span);
                let items = self.mangle_machine_items(machine.items);
                let mangled = Machine {
                    attrs: machine.attrs,
                    vis: machine.vis,
                    ident,
                    generics: machine.generics,
                    bounds: machine.bounds,
                    items,
                };
                Spanned {
                    inner: Item::Machine(Spanned { inner: mangled, span: machine_span }),
                    span,
                }
            },
            other => Spanned { inner: other, span },
        }
    }
}

fn mangle_module(module: ParsedModule, registry: &ProgramRegistry, module_id: ModuleId) -> (r:
    ParsedModule)
    requires
        registry.deep_view().wf(),
        registry.deep_view().has(module_id),
        registry.deep_view().id_for_path(module.deep_view().path) == Some(module_id),
    ensures
        r.deep_view() == mangled_module(registry.deep_view(), module.deep_view()),
{
    let ghost reg = registry.deep_view();
    let ghost mv = module.deep_view();
    let ghost ast0 = module.ast@;
    let mc = MangleCalls { registry, module_id };
    let mut out: Vec<Spanned<Item>> = Vec::new();
    for item in it: module.ast
        invariant
            it.seq() == ast0,
            reg == registry.deep_view(),
            mc.registry == registry,
            mc.module_id == module_id,
            reg.wf(),
            reg.has(module_id),
            out@.len() == it.index(),
            forall|j: int|
                0 <= j < it.index() ==> (#[trigger] out@[j]).deep_view() == mangled_item(
                    reg,
                    module_id,
                    ast0[j].deep_view(),
                ),
    {
        out.push(mc.mangle_item(item));
    }
    proof {
        assert(out.deep_view() =~= mangled_module(reg, mv).ast);
    }
    ParsedModule { path: module.path, source_path: module.source_path, ast: out }
}

/// Rewrite every machine definition and every machine call to a canonical
/// symbol, so that machines of the same name in different modules do not
/// collide.  Machines of the root module keep their bare name.
pub fn mangle_program(program: ParsedProgram, registry: &ProgramRegistry) -> (r: ParsedProgram)
    requires
        registry.deep_view().wf(),
        pure::all_registered(program.deep_view(), registry.deep_view()),
    ensures
        r.deep_view() == program.deep_view().map_values(
            |m: ModuleV| mangled_module(registry.deep_view(), m),
        ),
{
    let ghost reg = registry.deep_view();
    let ghost ms = program.deep_view();
    let ghost ms0 = program.modules@;
    let mut modules: Vec<ParsedModule> = Vec::new();
    for module in it: program.modules
        invariant
            it.seq() == ms0,
            ms == ms0.map_values(|x: ParsedModule| x.deep_view()),
            reg == registry.deep_view(),
            reg.wf(),
            pure::all_registered(ms, reg),
            modules@.len() == it.index(),
            forall|j: int|
                0 <= j < it.index() ==> (#[trigger] modules@[j]).deep_view() == mangled_module(
                    reg,
                    ms[j],
                ),
    {
        proof {
            assert(ms[it.index() as int] == module.deep_view());
            registry::index_of_path_bounds(reg, module.deep_view().path, 0);
        }
        let module_id = registry.module_id_for_path(&module.path).unwrap();
        modules.push(mangle_module(module, registry, module_id));
    }
    proof {
        assert(modules.deep_view() =~= ms.map_values(|m: ModuleV| mangled_module(reg, m)));
    }
    ParsedProgram { modules }
}

pub proof fn passing_keeps_modules(ms: Seq<ModuleV>, reg: RegistryV, inline_pure: bool, next: u32)
    ensures
        passed(ms, reg, inline_pure, next).0.len() == ms.len(),
        forall|i: int|
            0 <= i < ms.len() ==> (#[trigger] passed(ms, reg, inline_pure, next).0[i]).path
                == ms[i].path && passed(ms, reg, inline_pure, next).0[i].source_path
                == ms[i].source_path,
{
    lowering_modules_keeps_paths(
        reg,
        pure::ret_machines_of(ms, ms.len()),
        templates_for(ms, reg, inline_pure),
        ms,
        ms.len(),
        next,
    );
}

pub proof fn passing_keeps_registered(ms: Seq<ModuleV>, reg: RegistryV, inline_pure: bool, next: u32)
    requires
        pure::all_registered(ms, reg),
    ensures
        pure::all_registered(passed(ms, reg, inline_pure, next).0, reg),
{
    passing_keeps_modules(ms, reg, inline_pure, next);
    let q = passed(ms, reg, inline_pure, next).0;
    assert forall|i: int| 0 <= i < q.len() implies reg.id_for_path((#[trigger] q[i]).path) is Some by {
        assert(reg.id_for_path(ms[i].path) is Some);
    }
}

proof fn repeating_keeps_modules(
    ms: Seq<ModuleV>,
    reg: RegistryV,
    inline_pure: bool,
    next: u32,
    rounds: nat,
)
    ensures
        repeated(ms, reg, inline_pure, next, rounds).len() == ms.len(),
        forall|i: int|
            0 <= i < ms.len() ==> (#[trigger] repeated(ms, reg, inline_pure, next, rounds)[i]).path
                == ms[i].path && repeated(ms, reg, inline_pure, next, rounds)[i].source_path
                == ms[i].source_path,
    decreases rounds,
{
    passing_keeps_modules(ms, reg, inline_pure, next);
    let (q, c) = passed(ms, reg, inline_pure, next);
    let all = repeated(ms, reg, inline_pure, next, rounds);
    if !settled::settled_program(q, reg) && rounds > 0 {
        repeating_keeps_modules(q, reg, inline_pure, c, (rounds - 1) as nat);
        assert forall|i: int| 0 <= i < ms.len() implies (#[trigger] all[i]).path == ms[i].path
            && all[i].source_path == ms[i].source_path by {
            assert(q[i].path == ms[i].path);
        }
    }
}

/// Lowering keeps the modules of a program, in their order.
pub proof fn lowering_keeps_modules(ms: Seq<ModuleV>, reg: RegistryV, inline_pure: bool)
    ensures
        lowered_program(ms, reg, inline_pure).len() == ms.len(),
        forall|i: int|
            0 <= i < ms.len() ==> (#[trigger] lowered_program(ms, reg, inline_pure)[i]).path
                == ms[i].path && lowered_program(ms, reg, inline_pure)[i].source_path
                == ms[i].source_path,
{
    repeating_keeps_modules(ms, reg, inline_pure, 0, rounds(ms, reg));
}

proof fn lowering_modules_keeps_paths(
    reg: RegistryV,
    ret: Seq<(RetKeyV, Text)>,
    pure: Seq<(RetKeyV, TemplateV)>,
    ms: Seq<ModuleV>,
    n: nat,
    next: u32,
)
    requires
        n <= ms.len(),
    ensures
        lowered_modules(reg, ret, pure, ms, n, next).0.len() == n,
        forall|i: int|
            0 <= i < n ==> (#[trigger] lowered_modules(reg, ret, pure, ms, n, next).0[i]).path
                == ms[i].path && lowered_modules(reg, ret, pure, ms, n, next).0[i].source_path
                == ms[i].source_path,
    decreases n,
{
    if n > 0 {
        lowering_modules_keeps_paths(reg, ret, pure, ms, (n - 1) as nat, next);
        let before = lowered_modules(reg, ret, pure, ms, (n - 1) as nat, next).0;
        let after = lowered_modules(reg, ret, pure, ms, n, next).0;
        assert forall|i: int| 0 <= i < n implies (#[trigger] after[i]).path == ms[i].path
            && after[i].source_path == ms[i].source_path by {
            if i < n - 1 {
                assert(after[i] == before[i]);
            }
        }
    }
}

// ── what holds of every branch ─────────────────────────────────────────────

/// Whether all branches among machine items are good.
pub open spec fn each_item_branch(
    items: Seq<Spanned<MachineItemV>>,
    good: spec_fn(BranchV) -> bool,
) -> bool {
    forall|k: int|
        0 <= k < items.len() ==> match (#[trigger] items[k]).inner {
            MachineItemV::Branch(b) => good(b),
            MachineItemV::Field(_) => true,
        }
}

/// Whether all branches of a module's machines are good.
pub open spec fn each_ast_branch(
    ast: Seq<Spanned<ItemV>>,
    good: spec_fn(BranchV) -> bool,
) -> bool {
    forall|j: int|
        0 <= j < ast.len() ==> match (#[trigger] ast[j]).inner {
            ItemV::Machine(m) => each_item_branch(m.inner.items, good),
            _ => true,
        }
}

/// Whether all branches of a program's machines are good.
pub open spec fn each_branch(ms: Seq<ModuleV>, good: spec_fn(BranchV) -> bool) -> bool {
    forall|i: int| 0 <= i < ms.len() ==> each_ast_branch((#[trigger] ms[i]).ast, good)
}

/// Whether lowering makes good branches (`after`) of good ones (`before`),
/// where `pure` are the templates.
pub open spec fn lowers_well(
    pure: Seq<(RetKeyV, TemplateV)>,
    before: spec_fn(BranchV) -> bool,
    after: spec_fn(BranchV) -> bool,
) -> bool {
    forall|cx: CxV, b: BranchV, next: u32|
        cx.pure == pure && before(b) ==> after((#[trigger] lowered_branch(cx, b, next)).0)
}

proof fn lowered_items_are_good(
    cx: CxV,
    items: Seq<Spanned<MachineItemV>>,
    n: nat,
    next: u32,
    before: spec_fn(BranchV) -> bool,
    after: spec_fn(BranchV) -> bool,
)
    requires
        n <= items.len(),
        lowers_well(cx.pure, before, after),
        each_item_branch(items, before),
    ensures
        each_item_branch(lowered_items(cx, items, n, next).0, after),
    decreases n,
{
    if n > 0 {
        lowered_items_are_good(cx, items, (n - 1) as nat, next, before, after);
        let (old_items, c) = lowered_items(cx, items, (n - 1) as nat, next);
        let new_items = lowered_items(cx, items, n, next).0;
        let item = items[n - 1];
        assert forall|k: int| 0 <= k < new_items.len() implies match (
        #[trigger] new_items[k]).inner {
            MachineItemV::Branch(b) => after(b),
            MachineItemV::Field(_) => true,
        } by {
            if k < old_items.len() {
                assert(new_items[k] == old_items[k]);
            } else if let MachineItemV::Branch(b) = item.inner {
                assert(after(lowered_branch(cx, b, c).0));
            }
        }
    }
}

proof fn lowered_ast_is_good(
    cx: CxV,
    path: Seq<Text>,
    ast: Seq<Spanned<ItemV>>,
    n: nat,
    next: u32,
    before: spec_fn(BranchV) -> bool,
    after: spec_fn(BranchV) -> bool,
)
    requires
        n <= ast.len(),
        lowers_well(cx.pure, before, after),
        each_ast_branch(ast, before),
    ensures
        each_ast_branch(lowered_ast(cx, path, ast, n, next).0, after),
    decreases n,
{
    if n > 0 {
        lowered_ast_is_good(cx, path, ast, (n - 1) as nat, next, before, after);
        let (old_ast, c) = lowered_ast(cx, path, ast, (n - 1) as nat, next);
        let new_ast = lowered_ast(cx, path, ast, n, next).0;
        let item = ast[n - 1];
        if let ItemV::Machine(m) = item.inner {
            lowered_items_are_good(cx, m.inner.items, m.inner.items.len(), c, before, after);
        }
        assert forall|j: int| 0 <= j < new_ast.len() implies match (#[trigger] new_ast[j]).inner {
            ItemV::Machine(m) => each_item_branch(m.inner.items, after),
            _ => true,
        } by {
            if j < old_ast.len() {
                assert(new_ast[j] == old_ast[j]);
            }
        }
    }
}

/// After a pass the branches are as good as lowering makes them.
pub proof fn passed_branches_are_good(
    ms: Seq<ModuleV>,
    reg: RegistryV,
    inline_pure: bool,
    next: u32,
    before: spec_fn(BranchV) -> bool,
    after: spec_fn(BranchV) -> bool,
)
    requires
        lowers_well(templates_for(ms, reg, inline_pure), before, after),
        each_branch(ms, before),
    ensures
        each_branch(passed(ms, reg, inline_pure, next).0, after),
{
    lowered_modules_are_good(
        reg,
        pure::ret_machines_of(ms, ms.len()),
        templates_for(ms, reg, inline_pure),
        ms,
        ms.len(),
        next,
        before,
        after,
    );
}

proof fn lowered_modules_are_good(
    reg: RegistryV,
    ret: Seq<(RetKeyV, Text)>,
    pure: Seq<(RetKeyV, TemplateV)>,
    ms: Seq<ModuleV>,
    n: nat,
    next: u32,
    before: spec_fn(BranchV) -> bool,
    after: spec_fn(BranchV) -> bool,
)
    requires
        n <= ms.len(),
        lowers_well(pure, before, after),
        each_branch(ms, before),
    ensures
        each_branch(lowered_modules(reg, ret, pure, ms, n, next).0, after),
    decreases n,
{
    if n > 0 {
        lowered_modules_are_good(reg, ret, pure, ms, (n - 1) as nat, next, before, after);
        let (old_ms, c) = lowered_modules(reg, ret, pure, ms, (n - 1) as nat, next);
        let new_ms = lowered_modules(reg, ret, pure, ms, n, next).0;
        let m = ms[n - 1];
        lowered_ast_is_good(
            context_of(reg, ret, pure, m),
            m.path,
            m.ast,
            m.ast.len(),
            c,
            before,
            after,
        );
        assert forall|i: int| 0 <= i < new_ms.len() implies each_ast_branch(
            (#[trigger] new_ms[i]).ast,
            after,
        ) by {
            if i < old_ms.len() {
                assert(new_ms[i] == old_ms[i]);
            }
        }
    }
}

proof fn repeated_ret_branches_take_the_caller(
    ms: Seq<ModuleV>,
    reg: RegistryV,
    inline_pure: bool,
    next: u32,
    rounds: nat,
)
    ensures
        each_branch(
            repeated(ms, reg, inline_pure, next, rounds),
            |b: BranchV| b.head.ret_ty is Some ==> has_caller(b.head.patterns),
        ),
    decreases rounds,
{
    let before = |b: BranchV| true;
    let after = |b: BranchV| b.head.ret_ty is Some ==> has_caller(b.head.patterns);
    assert forall|cx: CxV, b: BranchV, next: u32| true implies after(
        (#[trigger] lowered_branch(cx, b, next)).0,
    ) by {
        lowering_patterns_twice_is_once(b.head);
        let ps = lowered_patterns(b.head);
        if b.head.ret_ty is Some && !has_caller(b.head.patterns) {
            assert(ps[0].inner.ident.inner == "__caller"@);
        }
    }
    passed_branches_are_good(ms, reg, inline_pure, next, before, after);
    let (q, c) = passed(ms, reg, inline_pure, next);
    if !settled::settled_program(q, reg) && rounds > 0 {
        repeated_ret_branches_take_the_caller(q, reg, inline_pure, c, (rounds - 1) as nat);
    }
}

/// In a lowered program every branch that returns takes its caller as its
/// first parameter.
pub proof fn ret_branches_take_the_caller(ms: Seq<ModuleV>, reg: RegistryV, inline_pure: bool)
    ensures
        each_branch(
            lowered_program(ms, reg, inline_pure),
            |b: BranchV| b.head.ret_ty is Some ==> has_caller(b.head.patterns),
        ),
{
    repeated_ret_branches_take_the_caller(ms, reg, inline_pure, 0, rounds(ms, reg));
}

} // verus!
