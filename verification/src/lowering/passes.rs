//! The rewriting passes of the lowering.

use vstd::prelude::*;

use crate::api::ast::{Ident, Type};
use crate::api::expr;
use crate::api::expr::{dup_expr, Expr, Head, Shape, Tree};
use crate::inspect;
use crate::inspect::Ask;
use crate::lowering::synth;
use crate::lowering::synth::{
    build_caller_send, is_var_named, named_type, synth_caller,
};
use crate::name_map::NameMap;
use crate::registry;
use crate::registry::{ConstValue, ConstValueV, ModuleId, ProgramRegistry, RegistryV, Resolution, ResolutionV};
use crate::rewrite;
use crate::rewrite::{Pass, Rule};
use crate::span::{SimpleSpan, SpanWrap, Spanned};
use crate::text;
use crate::text::{int_to_text, same, Text};

verus! {

// ── module constants ───────────────────────────────────────────────────────

/// The values of a module's constants.
pub open spec fn const_trees(consts: NameMap<Spanned<Expr>>) -> Map<Text, Tree> {
    Map::new(|k: Text| consts@.contains_key(k), |k: Text| expr::tree_of(consts@[k]))
}

/// Variables that name a constant become its value.
pub open spec fn consts_rule(consts: Map<Text, Tree>) -> Rule {
    Rule {
        enters: |head: Head, i: int| !(head is RecordLiteral),
        handlers: true,
        patterns: true,
        at: |t: Tree|
            match t.head {
                Head::Var(name, _) => if consts.contains_key(name) {
                    consts[name]
                } else {
                    t
                },
                _ => t,
            },
    }
}

/// Replaces references to a module's constants by their values.
pub struct ModuleConsts<'a> {
    pub consts: &'a NameMap<Spanned<Expr>>,
}

impl<'a> Pass for ModuleConsts<'a> {
    open spec fn ready(&self) -> bool {
        true
    }

    open spec fn rule(&self) -> Rule {
        consts_rule(const_trees(*self.consts))
    }

    fn does_enter(&self, shape: &Shape, i: usize) -> (r: bool) {
        !matches!(shape, Shape::RecordLiteral(_, _))
    }

    fn does_enter_handlers(&self) -> (r: bool) {
        true
    }

    fn does_enter_patterns(&self) -> (r: bool) {
        true
    }

    fn apply(&self, e: Spanned<Expr>) -> (r: Spanned<Expr>) {
        if let Expr::Var(name, _) = &e.inner {
            if let Some(value) = self.consts.get(name.as_str()) {
                return dup_expr(value);
            }
        }
        e
    }
}

// ── module-qualified paths ─────────────────────────────────────────────────

/// Paths that resolve become the bare name of their item.
pub open spec fn paths_rule(reg: RegistryV, id: ModuleId) -> Rule {
    Rule {
        enters: |head: Head, i: int| true,
        handlers: true,
        patterns: true,
        at: |t: Tree|
            match t.head {
                Head::Path(segs) => match reg.path_target(id, registry::segment_texts(segs)) {
                    Some((_, item)) => synth::open_var(item, t.span),
                    None => t,
                },
                _ => t,
            },
    }
}

/// Collapses module-qualified paths that resolve into bare names.
pub struct FlattenPaths<'a> {
    pub registry: &'a ProgramRegistry,
    pub module_id: ModuleId,
}

impl<'a> Pass for FlattenPaths<'a> {
    open spec fn ready(&self) -> bool {
        self.registry.deep_view().wf() && self.registry.deep_view().has(self.module_id)
    }

    open spec fn rule(&self) -> Rule {
        paths_rule(self.registry.deep_view(), self.module_id)
    }

    fn does_enter(&self, shape: &Shape, i: usize) -> (r: bool) {
        true
    }

    fn does_enter_handlers(&self) -> (r: bool) {
        true
    }

    fn does_enter_patterns(&self) -> (r: bool) {
        true
    }

    fn apply(&self, e: Spanned<Expr>) -> (r: Spanned<Expr>) {
        if let Expr::Path(segments) = &e.inner {
            if let Some((_, item)) = self.registry.resolve_path(self.module_id, segments) {
                return Expr::Var(item, Type::Unknown).with_span(e.span);
            }
        }
        e
    }
}

// ── constants in scope ─────────────────────────────────────────────────────

/// The literal that a constant stands for.
pub open spec fn const_tree(c: ConstValueV, span: SimpleSpan) -> Tree {
    match c {
        ConstValueV::Int(v) => expr::leaf(
            Head::Num(text::int_text(v as int), synth::named("i64"@, span)),
            span,
        ),
        ConstValueV::Bool(b) => expr::leaf(Head::Bool(b), span),
        ConstValueV::Str(s) => expr::leaf(Head::Str(s, synth::named("str"@, span)), span),
        ConstValueV::Atom(s) => expr::leaf(Head::Atom(s), span),
    }
}

fn const_expr(c: &ConstValue, span: SimpleSpan) -> (r: Spanned<Expr>)
    ensures
        expr::tree_of(r) == const_tree(c.deep_view(), span),
{
    match c {
        ConstValue::Int(v) => Expr::Num(int_to_text(*v), named_type("i64", span)).with_span(span),
        ConstValue::Bool(b) => Expr::Bool(*b).with_span(span),
        ConstValue::Str(s) => Expr::String(s.clone(), named_type("str", span)).with_span(span),
        ConstValue::Atom(s) => Expr::Atom(s.clone()).with_span(span),
    }
}

/// Variables that resolve to a constant become its literal.
pub open spec fn inline_rule(reg: RegistryV, id: ModuleId) -> Rule {
    Rule {
        enters: |head: Head, i: int| true,
        handlers: true,
        patterns: true,
        at: |t: Tree|
            match t.head {
                Head::Var(name, _) => match reg.resolved(id, name) {
                    Some(ResolutionV::Const(c)) => const_tree(c.value, t.span),
                    _ => t,
                },
                _ => t,
            },
    }
}

/// Replaces every name that resolves to a constant by its literal.
pub struct InlineConsts<'a> {
    pub registry: &'a ProgramRegistry,
    pub module_id: ModuleId,
}

impl<'a> Pass for InlineConsts<'a> {
    open spec fn ready(&self) -> bool {
        self.registry.deep_view().wf() && self.registry.deep_view().has(self.module_id)
    }

    open spec fn rule(&self) -> Rule {
        inline_rule(self.registry.deep_view(), self.module_id)
    }

    fn does_enter(&self, shape: &Shape, i: usize) -> (r: bool) {
        true
    }

    fn does_enter_handlers(&self) -> (r: bool) {
        true
    }

    fn does_enter_patterns(&self) -> (r: bool) {
        true
    }

    fn apply(&self, e: Spanned<Expr>) -> (r: Spanned<Expr>) {
        if let Expr::Var(name, _) = &e.inner {
            if let Some(Resolution::Const(c)) = self.registry.resolve_bare_in(
                self.module_id,
                name.as_str(),
            ) {
                return const_expr(&c.value, e.span);
            }
        }
        e
    }
}

// ── renaming ───────────────────────────────────────────────────────────────

/// Renames variables and `let` bindings.  Callees are machine names and stay
/// as they are, and so do the handlers of a `wait`.
pub struct Rename<'a> {
    pub names: &'a NameMap<String>,
}

/// The new name of `name`, or `name` itself.
pub open spec fn renamed(names: Map<Text, Text>, name: Text) -> Text {
    if names.contains_key(name) {
        names[name]
    } else {
        name
    }
}

/// Variables and `let` bindings get their new names.
pub open spec fn rename_rule(names: Map<Text, Text>) -> Rule {
    Rule {
        enters: |head: Head, i: int| !(head is RecordLiteral) && !(head is Jump && i == 0),
        handlers: false,
        patterns: true,
        at: |t: Tree|
            match t.head {
                Head::Var(name, ty) => Tree { head: Head::Var(renamed(names, name), ty), ..t },
                Head::Let(ident, ty) => Tree {
                    head: Head::Let(
                        Spanned { inner: renamed(names, ident.inner), span: ident.span },
                        ty,
                    ),
                    ..t
                },
                _ => t,
            },
    }
}

impl<'a> Pass for Rename<'a> {
    open spec fn ready(&self) -> bool {
        true
    }

    open spec fn rule(&self) -> Rule {
        rename_rule(self.names.deep_view())
    }

    fn does_enter(&self, shape: &Shape, i: usize) -> (r: bool) {
        match shape {
            Shape::RecordLiteral(_, _) => false,
            Shape::Jump => i != 0,
            _ => true,
        }
    }

    fn does_enter_handlers(&self) -> (r: bool) {
        false
    }

    fn does_enter_patterns(&self) -> (r: bool) {
        true
    }

    fn apply(&self, e: Spanned<Expr>) -> (r: Spanned<Expr>) {
        let span = e.span;
        match e.inner {
            Expr::Var(name, ty) => {
                let name = match self.names.get(name.as_str()) {
                    Some(fresh) => fresh.clone(),
                    None => name,
                };
                Expr::Var(name, ty).with_span(span)
            },
            Expr::Let { ident, ty, default } => {
                let ident = match self.names.get(ident.inner.0.as_str()) {
                    Some(fresh) => Ident(fresh.clone()).with_span(ident.span),
                    None => ident,
                };
                Expr::Let { ident, ty, default }.with_span(span)
            },
            other => Spanned { inner: other, span },
        }
    }
}

// ── threading the caller through self calls ────────────────────────────────

/// Whether a node is a call of `self` whose arguments do not begin with the
/// caller yet.
pub open spec fn is_unthreaded(t: Tree) -> bool {
    &&& t.head is Jump
    &&& t.kids.len() >= 1
    &&& synth::is_var(t.kids[0], "self"@)
    &&& !(t.kids.len() >= 2 && synth::is_var(t.kids[1], "__caller"@))
}

/// A call with an argument put before its first.
pub open spec fn with_first_arg(t: Tree, arg: Tree) -> Tree {
    Tree { kids: seq![t.kids[0], arg] + t.kids.skip(1), ..t }
}

/// Calls of `self` get the caller as their first argument.
pub open spec fn thread_rule() -> Rule {
    Rule {
        enters: |head: Head, i: int| true,
        handlers: true,
        patterns: true,
        at: |t: Tree|
            if is_unthreaded(t) {
                with_first_arg(t, synth::caller_var(t.span))
            } else {
                t
            },
    }
}

/// Prepends `__caller` to the arguments of every call of `self`, once.
pub struct ThreadCaller {}

impl Pass for ThreadCaller {
    open spec fn ready(&self) -> bool {
        true
    }

    open spec fn rule(&self) -> Rule {
        thread_rule()
    }

    fn does_enter(&self, shape: &Shape, i: usize) -> (r: bool) {
        true
    }

    fn does_enter_handlers(&self) -> (r: bool) {
        true
    }

    fn does_enter_patterns(&self) -> (r: bool) {
        true
    }

    fn apply(&self, e: Spanned<Expr>) -> (r: Spanned<Expr>) {
        let span = e.span;
        let ghost t = expr::tree_of(e);
        match e.inner {
            Expr::Jump { ident, args } => {
                proof {
                    assert(t.kids == seq![expr::tree_of(*ident)] + expr::trees(args@));
                    if args@.len() > 0 {
                        assert(expr::trees(args@)[0] == expr::tree_of(args@[0]));
                        assert(t.kids[1] == expr::tree_of(args@[0]));
                    }
                }
                let is_self = is_var_named(&ident.inner, "self");
                let threaded = args.len() > 0 && is_var_named(&args[0].inner, "__caller");
                if is_self && !threaded {
                    prepend_arg(ident, args, synth_caller(span)).with_span(span)
                } else {
                    Expr::Jump { ident, args }.with_span(span)
                }
            },
            other => Spanned { inner: other, span },
        }
    }
}

/// The call with `arg` before its first argument.
pub fn prepend_arg(ident: Box<Spanned<Expr>>, args: Vec<Spanned<Expr>>, arg: Spanned<Expr>) -> (r:
    Expr)
    ensures
        forall|span: SimpleSpan| #[trigger]
            expr::tree(r, span) == with_first_arg(
                expr::tree(Expr::Jump { ident, args }, span),
                expr::tree_of(arg),
            ),
{
    let ghost args0 = args@;
    let mut all: Vec<Spanned<Expr>> = Vec::new();
    all.push(arg);
    let mut args = args;
    all.append(&mut args);
    let r = Expr::Jump { ident, args: all };
    proof {
        assert(all@ =~= seq![arg] + args0);
        let callee = expr::tree_of(*ident);
        assert(seq![callee] + expr::trees(all@) =~= seq![callee, expr::tree_of(arg)] + (seq![callee]
            + expr::trees(args0)).skip(1));
    }
    r
}

// ── returns ────────────────────────────────────────────────────────────────

/// A `ret` becomes a send to the caller.
pub open spec fn ret_rule() -> Rule {
    Rule {
        enters: |head: Head, i: int| true,
        handlers: true,
        patterns: true,
        at: |t: Tree|
            if t.head is Ret && t.kids.len() == 1 {
                synth::caller_send(t.span, t.kids[0])
            } else {
                t
            },
    }
}

/// Turns `ret x` into the send `__caller(self x)`.
pub struct RewriteRet {}

impl Pass for RewriteRet {
    open spec fn ready(&self) -> bool {
        true
    }

    open spec fn rule(&self) -> Rule {
        ret_rule()
    }

    fn does_enter(&self, shape: &Shape, i: usize) -> (r: bool) {
        true
    }

    fn does_enter_handlers(&self) -> (r: bool) {
        true
    }

    fn does_enter_patterns(&self) -> (r: bool) {
        true
    }

    fn apply(&self, e: Spanned<Expr>) -> (r: Spanned<Expr>) {
        let span = e.span;
        match e.inner {
            Expr::Ret(value) => build_caller_send(span, *value).with_span(span),
            other => Spanned { inner: other, span },
        }
    }
}

// ── symbols ────────────────────────────────────────────────────────────────

/// The canonical symbol of the machine that `name` denotes in a module.
pub open spec fn symbol_of(reg: RegistryV, id: ModuleId, name: Text) -> Option<Text> {
    match reg.resolved(id, name) {
        Some(ResolutionV::Machine(m)) => Some(
            registry::mangled(reg.scope(m.module).path, m.name),
        ),
        _ => None,
    }
}

/// A call whose callee resolves to a machine calls its canonical symbol.
pub open spec fn mangled_call(reg: RegistryV, id: ModuleId, t: Tree) -> Tree {
    if t.head is Jump && t.kids.len() >= 1 {
        match t.kids[0].head {
            Head::Var(name, ty) => if name != "self"@ && symbol_of(reg, id, name) is Some {
                Tree {
                    kids: t.kids.update(
                        0,
                        Tree { head: Head::Var(symbol_of(reg, id, name)->0, ty), ..t.kids[0] },
                    ),
                    ..t
                }
            } else {
                t
            },
            _ => t,
        }
    } else {
        t
    }
}

/// Callees that resolve to machines become canonical symbols.
pub open spec fn mangle_rule(reg: RegistryV, id: ModuleId) -> Rule {
    Rule {
        enters: |head: Head, i: int| !(head is Jump && i == 0),
        handlers: true,
        patterns: true,
        at: |t: Tree| mangled_call(reg, id, t),
    }
}

/// Renames the callees that resolve to machines to their canonical symbols.
pub struct MangleCalls<'a> {
    pub registry: &'a ProgramRegistry,
    pub module_id: ModuleId,
}

impl<'a> MangleCalls<'a> {
    /// Resolve `name` in this module's scope.  If it denotes a machine,
    /// return the canonical symbol of that machine.
    pub fn canonical_for(&self, name: &str) -> (r: Option<String>)
        requires
            self.ready(),
        ensures
            r.deep_view() == symbol_of(self.registry.deep_view(), self.module_id, name@),
    {
        match self.registry.resolve_bare_in(self.module_id, name) {
            Some(Resolution::Machine(m)) => {
                proof {
                    registry::resolved_machine_has_module(
                        self.registry.deep_view(),
                        self.module_id,
                        name@,
                    );
                }
                let path = &self.registry.module(m.module).path;
                Some(path.mangle(m.name.as_str()))
            },
            _ => None,
        }
    }
}

impl<'a> Pass for MangleCalls<'a> {
    open spec fn ready(&self) -> bool {
        self.registry.deep_view().wf() && self.registry.deep_view().has(self.module_id)
    }

    open spec fn rule(&self) -> Rule {
        mangle_rule(self.registry.deep_view(), self.module_id)
    }

    fn does_enter(&self, shape: &Shape, i: usize) -> (r: bool) {
        !matches!(shape, Shape::Jump) || i != 0
    }

    fn does_enter_handlers(&self) -> (r: bool) {
        true
    }

    fn does_enter_patterns(&self) -> (r: bool) {
        true
    }

    fn apply(&self, e: Spanned<Expr>) -> (r: Spanned<Expr>) {
        let span = e.span;
        let ghost t = expr::tree_of(e);
        match e.inner {
            Expr::Jump { ident, args } => {
                let callee_span = ident.span;
                let ghost callee = expr::tree_of(*ident);
                proof {
                    assert(t.kids[0] == callee);
                    assert(t.kids.update(0, callee) =~= t.kids);
                }
                let callee = match ident.inner {
                    Expr::Var(name, ty) => {
                        if same(name.as_str(), "self") {
                            Expr::Var(name, ty)
                        } else {
                            match self.canonical_for(name.as_str()) {
                                Some(symbol) => Expr::Var(symbol, ty),
                                None => Expr::Var(name, ty),
                            }
                        }
                    },
                    other => other,
                };
                let new_ident = Box::new(Spanned { inner: callee, span: callee_span });
                proof {
                    let want = mangled_call(self.registry.deep_view(), self.module_id, t);
                    assert(seq![expr::tree_of(*new_ident)] + expr::trees(args@) =~= want.kids);
                }
                Expr::Jump { ident: new_ident, args }.with_span(span)
            },
            other => Spanned { inner: other, span },
        }
    }
}

// ── running a pass again ───────────────────────────────────────────────────

/// Flattening paths that have been flattened changes nothing.
pub proof fn flattening_twice_is_once(reg: RegistryV, id: ModuleId, t: Tree)
    ensures
        rewrite::rewritten(paths_rule(reg, id), rewrite::rewritten(paths_rule(reg, id), t))
            == rewrite::rewritten(paths_rule(reg, id), t),
{
    let p = paths_rule(reg, id);
    assert forall|t: Tree|
        rewrite::settled_below(p, t) && !rewrite::is_part(t.head) implies rewrite::rewritten(
        p,
        #[trigger] (p.at)(t),
    ) == (p.at)(t) by {
        rewrite::settled_node(p, (p.at)(t));
    }
    rewrite::rewriting_twice_is_once(p, t);
}

/// A body whose constants are inlined has no more constants to inline.
pub proof fn inlining_consts_twice_is_once(reg: RegistryV, id: ModuleId, t: Tree)
    ensures
        rewrite::rewritten(inline_rule(reg, id), rewrite::rewritten(inline_rule(reg, id), t))
            == rewrite::rewritten(inline_rule(reg, id), t),
{
    let p = inline_rule(reg, id);
    assert forall|t: Tree|
        rewrite::settled_below(p, t) && !rewrite::is_part(t.head) implies rewrite::rewritten(
        p,
        #[trigger] (p.at)(t),
    ) == (p.at)(t) by {
        rewrite::settled_node(p, (p.at)(t));
    }
    rewrite::rewriting_twice_is_once(p, t);
}

/// Calls of `self` get the caller once: threading it a second time changes
/// nothing.
pub proof fn threading_twice_is_once(t: Tree)
    ensures
        rewrite::rewritten(thread_rule(), rewrite::rewritten(thread_rule(), t))
            == rewrite::rewritten(thread_rule(), t),
{
    let p = thread_rule();
    assert forall|t: Tree|
        rewrite::settled_below(p, t) && !rewrite::is_part(t.head) implies rewrite::rewritten(
        p,
        #[trigger] (p.at)(t),
    ) == (p.at)(t) by {
        let r = (p.at)(t);
        if is_unthreaded(t) {
            let caller = synth::caller_var(t.span);
            rewrite::settled_node(p, caller);
            assert forall|i: int|
                0 <= i < r.kids.len() && rewrite::entered(p, r.head, i) implies rewrite::rewritten(
                p,
                #[trigger] r.kids[i],
            ) == r.kids[i] by {
                if i == 0 {
                    assert(r.kids[0] == t.kids[0]);
                } else if i > 1 {
                    assert(r.kids[i] == t.kids[i - 1]);
                }
            }
            assert(r.kids[0] == t.kids[0] && r.kids[1] == caller);
            assert(!is_unthreaded(r));
        }
        rewrite::settled_node(p, r);
    }
    rewrite::rewriting_twice_is_once(p, t);
}

/// Rewriting returns a second time changes nothing.
pub proof fn rewriting_ret_twice_is_once(t: Tree)
    ensures
        rewrite::rewritten(ret_rule(), rewrite::rewritten(ret_rule(), t)) == rewrite::rewritten(
            ret_rule(),
            t,
        ),
{
    let p = ret_rule();
    assert forall|t: Tree|
        rewrite::settled_below(p, t) && !rewrite::is_part(t.head) implies rewrite::rewritten(
        p,
        #[trigger] (p.at)(t),
    ) == (p.at)(t) by {
        let r = (p.at)(t);
        if t.head is Ret && t.kids.len() == 1 {
            rewrite::settled_node(p, synth::caller_var(t.span));
            rewrite::settled_node(p, synth::self_tree(t.span));
            assert(rewrite::entered(p, t.head, 0));
            assert(rewrite::rewritten(p, t.kids[0]) == t.kids[0]);
        }
        rewrite::settled_node(p, r);
    }
    rewrite::rewriting_twice_is_once(p, t);
}

/// No name of a constant.
pub open spec fn no_const(reg: RegistryV, id: ModuleId) -> Ask {
    Ask {
        local: |t: Tree|
            match t.head {
                Head::Var(name, _) => !(reg.resolved(id, name) matches Some(ResolutionV::Const(_))),
                _ => true,
            },
        covers: |head: Head, i: int| true,
    }
}

/// Once constants are inlined, no name of a constant is left.
pub proof fn no_const_is_left(reg: RegistryV, id: ModuleId, t: Tree)
    ensures
        inspect::holds(no_const(reg, id), rewrite::rewritten(inline_rule(reg, id), t)),
    decreases t,
{
    let p = inline_rule(reg, id);
    let ask = no_const(reg, id);
    let t2 = Tree { kids: rewrite::rewritten_kids(p, t.head, t.kids), ..t };
    let r = rewrite::rewritten(p, t);
    assert forall|i: int|
        0 <= i < t2.kids.len() && inspect::covered(ask, t2.head, i) implies #[trigger]
    inspect::holds(ask, t2.kids[i]) by {
        assert(rewrite::entered(p, t.head, i));
        assert(decreases_to!(t => t.kids[i]));
        no_const_is_left(reg, id, t.kids[i]);
    }
    inspect::holds_iff(ask, t2);
    inspect::holds_iff(ask, r);
    assert(r == t2 || r.kids.len() == 0);
}

/// No name of a module's constant, but for what record literals hold.
pub open spec fn no_module_const(consts: Map<Text, Tree>) -> Ask {
    Ask {
        local: |t: Tree|
            match t.head {
                Head::Var(name, _) => !consts.contains_key(name),
                _ => true,
            },
        covers: |head: Head, i: int| !(head is RecordLiteral),
    }
}

/// Whether no constant's value names a constant, as no literal does.
pub open spec fn values_are_plain(consts: Map<Text, Tree>) -> bool {
    forall|k: Text|
        consts.contains_key(k) ==> inspect::holds(no_module_const(consts), #[trigger] consts[k])
}

/// Once a module's constants are replaced, no name of one is left outside
/// record literals, which are not entered.
pub proof fn no_module_const_is_left(consts: Map<Text, Tree>, t: Tree)
    requires
        values_are_plain(consts),
    ensures
        inspect::holds(no_module_const(consts), rewrite::rewritten(consts_rule(consts), t)),
    decreases t,
{
    let p = consts_rule(consts);
    let ask = no_module_const(consts);
    let t2 = Tree { kids: rewrite::rewritten_kids(p, t.head, t.kids), ..t };
    let r = rewrite::rewritten(p, t);
    assert forall|i: int|
        0 <= i < t2.kids.len() && inspect::covered(ask, t2.head, i) implies #[trigger]
    inspect::holds(ask, t2.kids[i]) by {
        assert(rewrite::entered(p, t.head, i));
        assert(decreases_to!(t => t.kids[i]));
        no_module_const_is_left(consts, t.kids[i]);
    }
    inspect::holds_iff(ask, t2);
    if let Head::Var(name, _) = t.head {
        if consts.contains_key(name) {
            assert(inspect::holds(ask, consts[name]));
            assert(r == consts[name]);
        }
    }
}

proof fn nothing_to_replace(consts: Map<Text, Tree>, t: Tree)
    requires
        inspect::holds(no_module_const(consts), t),
    ensures
        rewrite::rewritten(consts_rule(consts), t) == t,
    decreases t,
{
    let p = consts_rule(consts);
    let ask = no_module_const(consts);
    inspect::holds_iff(ask, t);
    assert forall|i: int|
        0 <= i < t.kids.len() && rewrite::entered(p, t.head, i) implies rewrite::rewritten(
        p,
        #[trigger] t.kids[i],
    ) == t.kids[i] by {
        assert(inspect::covered(ask, t.head, i));
        assert(inspect::holds(ask, t.kids[i]));
        assert(decreases_to!(t => t.kids[i]));
        nothing_to_replace(consts, t.kids[i]);
    }
    rewrite::settled_node(p, t);
}

/// Replacing a module's constants a second time changes nothing.
pub proof fn replacing_consts_twice_is_once(consts: Map<Text, Tree>, t: Tree)
    requires
        values_are_plain(consts),
    ensures
        rewrite::rewritten(consts_rule(consts), rewrite::rewritten(consts_rule(consts), t))
            == rewrite::rewritten(consts_rule(consts), t),
{
    no_module_const_is_left(consts, t);
    nothing_to_replace(consts, rewrite::rewritten(consts_rule(consts), t));
}

} // verus!
