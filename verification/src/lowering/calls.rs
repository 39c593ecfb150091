//! Calls of ret-machines, seen from the caller.

use vstd::prelude::*;

use crate::api::ast;
use crate::api::ast::{Branch, Ident, Pattern, PatternV, Type, TypeV};
use crate::api::expr;
use crate::api::expr::{dup_expr, dup_exprs, Expr, Head, HandlerV, Tree};
use crate::lowering::expand::{CxV, LowerCx};
use crate::lowering::lift;
use crate::lowering::lift::Fresh;
use crate::lowering::passes;
use crate::lowering::passes::prepend_arg;
use crate::lowering::pure;
use crate::lowering::pure::{KeyTable, RetKey, RetKeyV};
use crate::lowering::synth;
use crate::lowering::synth::{let_expr, named_type, numbered_name, synth_null_pid, synth_self};
use crate::registry;
use crate::registry::{ImportBinding, ImportBindingV, ModuleId, RegistryV};
use crate::span;
use crate::span::{SimpleSpan, SpanWrap, Spanned};
use crate::text;
use crate::text::{cat, chars_of, same, text_of, trim_bounds, word_end, Text};

verus! {

// ── types from their rendering ─────────────────────────────────────────────

/// The types of the words of `s`.
pub open spec fn types_of_words(s: Text, span: SimpleSpan) -> Seq<Spanned<TypeV>>
    decreases s.len(), 1nat,
{
    if s.len() == 0 {
        Seq::empty()
    } else if text::white_space(s[0]) {
        types_of_words(s.skip(1), span)
    } else {
        let k = text::word_len(s) as int;
        proof {
            text::word_len_fits(s);
        }
        seq![Spanned { inner: type_of_word(s.take(k), span), span }] + types_of_words(
            s.skip(k),
            span,
        )
    }
}

/// The type that a text without white space around it renders.
pub open spec fn type_of_word(s: Text, span: SimpleSpan) -> TypeV
    decreases s.len(), 0nat,
{
    if s.len() >= 2 && s[0] == '{' && s.last() == '}' {
        let inner = s.subrange(1, s.len() - 1);
        let fields = types_of_words(inner, span);
        if text::trimmed(inner).len() == 0 {
            TypeV::Unit
        } else {
            TypeV::Struct(fields)
        }
    } else if s == "i64"@ || s == "str"@ || s == "buf"@ || s == "bool"@ || s == "pid"@ || s
        == "atom"@ {
        synth::named(s, span)
    } else {
        TypeV::Unknown
    }
}

} // verus!

verus! {

fn type_of_chars(cs: &Vec<char>, from: usize, to: usize, span: SimpleSpan) -> (r: Type)
    requires
        from <= to <= cs@.len(),
    ensures
        ast::type_view(r) == type_of_word(cs@.subrange(from as int, to as int), span),
    decreases to - from, 0nat,
{
    let ghost s = cs@.subrange(from as int, to as int);
    if to - from >= 2 && cs[from] == '{' && cs[to - 1] == '}' {
        let ghost inner = s.subrange(1, s.len() - 1);
        proof {
            assert(inner =~= cs@.subrange(from + 1, to - 1));
        }
        let (a, b) = trim_bounds(cs, from + 1, to - 1);
        if a == b {
            return Type::Unit;
        }
        let fields = types_of_chars(cs, from + 1, to - 1, span);
        return Type::Struct(fields);
    }
    let word = text_of(cs, from, to);
    if same(word.as_str(), "i64") || same(word.as_str(), "str") || same(word.as_str(), "buf")
        || same(word.as_str(), "bool") || same(word.as_str(), "pid") || same(
        word.as_str(),
        "atom",
    ) {
        named_type(word.as_str(), span)
    } else {
        Type::Unknown
    }
}

fn types_of_chars(cs: &Vec<char>, from: usize, to: usize, span: SimpleSpan) -> (r: Vec<
    Spanned<Type>,
>)
    requires
        from <= to <= cs@.len(),
    ensures
        ast::types_view(r@) == types_of_words(cs@.subrange(from as int, to as int), span),
    decreases to - from, 1nat,
{
    let ghost whole = types_of_words(cs@.subrange(from as int, to as int), span);
    let mut out: Vec<Spanned<Type>> = Vec::new();
    let mut i: usize = from;
    proof {
        assert(ast::types_view(out@) =~= Seq::<Spanned<TypeV>>::empty());
        assert(ast::types_view(out@) + whole =~= whole);
    }
    while i < to
        invariant
            from <= i <= to <= cs@.len(),
            ast::types_view(out@) + types_of_words(cs@.subrange(i as int, to as int), span)
                == whole,
        decreases to - i,
    {
        let ghost s = cs@.subrange(i as int, to as int);
        if text::is_white_space(cs[i]) {
            proof {
                assert(s.skip(1) =~= cs@.subrange(i + 1, to as int));
            }
            i = i + 1;
        } else {
            let e = word_end(cs, i, to);
            proof {
                assert(text::word_len(s) >= 1);
                assert(s.take(e - i) =~= cs@.subrange(i as int, e as int));
                assert(s.skip(e - i) =~= cs@.subrange(e as int, to as int));
            }
            let ghost before = out@;
            let one = type_of_chars(cs, i, e, span).with_span(span);
            let ghost t = Spanned { inner: ast::type_view(one.inner), span };
            out.push(one);
            proof {
                assert(ast::types_view(out@) =~= ast::types_view(before).push(t));
                let rest = types_of_words(cs@.subrange(e as int, to as int), span);
                assert(types_of_words(s, span) == seq![t] + rest);
                assert(ast::types_view(before).push(t) + rest =~= ast::types_view(before) + (seq![t]
                    + rest));
            }
            i = e;
        }
    }
    proof {
        assert(types_of_words(cs@.subrange(to as int, to as int), span)
            =~= Seq::<Spanned<TypeV>>::empty());
        assert(ast::types_view(out@) =~= whole);
    }
    out
}

/// The type that a text renders: a built-in name, or an anonymous struct of
/// such types.
pub fn type_from_string(s: &str, span: SimpleSpan) -> (r: Type)
    ensures
        ast::type_view(r) == type_of_word(text::trimmed(s@), span),
{
    let cs = chars_of(s);
    let n = cs.len();
    proof {
        assert(cs@.subrange(0, n as int) =~= s@);
    }
    let (a, b) = trim_bounds(&cs, 0, n);
    type_of_chars(&cs, a, b, span)
}

// ── which calls return a value ─────────────────────────────────────────────

/// The first entry from `from` on whose machine is called `name`.
pub open spec fn ret_named(table: Seq<(RetKeyV, Text)>, name: Text, from: int) -> Option<Text>
    decreases table.len() - from,
{
    if from >= table.len() {
        None
    } else if table[from].0.name == name {
        Some(table[from].1)
    } else {
        ret_named(table, name, from + 1)
    }
}

/// The return type of the machine that an import denotes.
pub open spec fn import_ret(cx: CxV, b: ImportBindingV) -> Option<Text> {
    match b.target_item {
        Some(item) => if cx.reg.has(b.target_module) {
            pure::key_lookup(
                cx.ret,
                RetKeyV { module: cx.reg.scope(b.target_module).path, name: item },
            )
        } else {
            None
        },
        None => None,
    }
}

/// The return type of the machine that a bare name denotes: one of the
/// module itself, an imported one, or any machine of that name.
pub open spec fn ret_by_name(cx: CxV, name: Text) -> Option<Text> {
    let scope = cx.reg.scope(cx.id);
    let local = pure::key_lookup(cx.ret, RetKeyV { module: scope.path, name });
    if local is Some {
        local
    } else if scope.imports.contains_key(name) && import_ret(cx, scope.imports[name]) is Some {
        import_ret(cx, scope.imports[name])
    } else {
        ret_named(cx.ret, name, 0)
    }
}

/// The return type of the ret-machine that `t` calls.
pub open spec fn ret_of(cx: CxV, t: Tree) -> Option<Text> {
    if t.head is Jump && t.kids.len() > 0 {
        match t.kids[0].head {
            Head::Var(name, _) => ret_by_name(cx, name),
            Head::Path(segs) => match cx.reg.path_target(cx.id, registry::segment_texts(segs)) {
                Some((m, item)) => pure::key_lookup(
                    cx.ret,
                    RetKeyV { module: cx.reg.scope(m).path, name: item },
                ),
                None => None,
            },
            _ => None,
        }
    } else {
        None
    }
}

/// Whether `t` binds what a ret-machine returns.  `let r pid = f(x)` asks
/// for the pid of the machine instead.
pub open spec fn binds_ret(cx: CxV, t: Tree) -> bool {
    match t.head {
        Head::Let(_, ty) => t.kids.len() == 1 && !is_pid(ty.inner) && ret_of(cx, t.kids[0]) is Some,
        _ => false,
    }
}

/// Whether a type is the pid type.
pub open spec fn is_pid(t: TypeV) -> bool {
    t matches TypeV::Named(n) && n.inner == "pid"@
}

fn type_is_pid(t: &Type) -> (r: bool)
    ensures
        r == is_pid(ast::type_view(*t)),
{
    match t {
        Type::Named(n) => same(n.inner.0.as_str(), "pid"),
        _ => false,
    }
}

fn some_text(o: Option<&String>) -> (r: Option<String>)
    ensures
        r.deep_view() == (match o {
            Some(s) => Some(s@),
            None => None,
        }),
{
    match o {
        Some(s) => Some(s.clone()),
        None => None,
    }
}

fn find_ret_named(table: &KeyTable<String>, name: &str) -> (r: Option<String>)
    ensures
        r.deep_view() == ret_named(table.deep_view(), name@, 0),
{
    let ghost tv = table.deep_view();
    let mut i: usize = 0;
    while i < table.entries.len()
        invariant
            i <= table.entries.len(),
            tv == table.deep_view(),
            ret_named(tv, name@, 0) == ret_named(tv, name@, i as int),
        decreases table.entries.len() - i,
    {
        proof {
            assert(tv[i as int] == (
                table.entries@[i as int].0.deep_view(),
                table.entries@[i as int].1@,
            ));
        }
        if same(table.entries[i].0.name.as_str(), name) {
            return Some(table.entries[i].1.clone());
        }
        i = i + 1;
    }
    None
}

/// A path resolves to a module that exists.
pub proof fn path_target_exists(reg: RegistryV, id: ModuleId, segs: Seq<Text>)
    requires
        reg.wf(),
        reg.has(id),
    ensures
        reg.path_target(id, segs) matches Some((m, _)) ==> reg.has(m),
{
    if segs.len() >= 2 {
        let module = segs.drop_last();
        registry::index_of_path_bounds(reg, module, 0);
        let imports = reg.scope(id).imports;
        if imports.contains_key(module[0]) {
            let full = reg.scope(imports[module[0]].target_module).path + module.skip(1);
            registry::index_of_path_bounds(reg, full, 0);
        }
    }
}

impl<'a> LowerCx<'a> {
    fn resolve_import_ret(&self, binding: &ImportBinding) -> (r: Option<String>)
        requires
            self.deep_view().wf(),
        ensures
            r.deep_view() == import_ret(self.deep_view(), binding.deep_view()),
    {
        match &binding.target_item {
            None => None,
            Some(item) => {
                if (binding.target_module.0 as usize) < self.registry.modules.len() {
                    let key = RetKey {
                        module: self.registry.module(binding.target_module).path.dup(),
                        name: item.clone(),
                    };
                    some_text(self.ret_machines.get(&key))
                } else {
                    None
                }
            },
        }
    }

    fn ret_of_name(&self, name: &str) -> (r: Option<String>)
        requires
            self.deep_view().wf(),
        ensures
            r.deep_view() == ret_by_name(self.deep_view(), name@),
    {
        let scope = self.registry.module(self.module_id);
        let key = RetKey { module: scope.path.dup(), name: name.to_owned() };
        if let Some(ret) = self.ret_machines.get(&key) {
            return Some(ret.clone());
        }
        if let Some(binding) = scope.imports.get(name) {
            proof {
                assert(self.deep_view().reg.scope(self.module_id).imports[name@]
                    == binding.deep_view());
            }
            let found = self.resolve_import_ret(binding);
            if found.is_some() {
                return found;
            }
        }
        find_ret_named(self.ret_machines, name)
    }

    /// If `e` calls a ret-machine, the machine's return type.
    pub fn ret_target(&self, e: &Spanned<Expr>) -> (r: Option<String>)
        requires
            self.deep_view().wf(),
        ensures
            r.deep_view() == ret_of(self.deep_view(), expr::tree_of(*e)),
    {
        let ghost t = expr::tree_of(*e);
        match &e.inner {
            Expr::Jump { ident, args } => {
                proof {
                    assert(t.kids == seq![expr::tree_of(**ident)] + expr::trees(args@));
                    assert(t.kids[0] == expr::tree_of(**ident));
                }
                match &ident.inner {
                    Expr::Var(name, _) => self.ret_of_name(name.as_str()),
                    Expr::Path(segs) => {
                        match self.registry.resolve_path(self.module_id, segs) {
                            None => None,
                            Some((m, item)) => {
                                proof {
                                    path_target_exists(
                                        self.registry.deep_view(),
                                        self.module_id,
                                        registry::segment_texts(segs.deep_view()),
                                    );
                                }
                                let key = RetKey {
                                    module: self.registry.module(m).path.dup(),
                                    name: item,
                                };
                                some_text(self.ret_machines.get(&key))
                            },
                        }
                    },
                    _ => None,
                }
            },
            _ => None,
        }
    }

    /// Whether a statement binds what a ret-machine returns.
    pub fn is_let_with_ret_target(&self, e: &Spanned<Expr>) -> (r: bool)
        requires
            self.deep_view().wf(),
        ensures
            r == binds_ret(self.deep_view(), expr::tree_of(*e)),
    {
        let ghost t = expr::tree_of(*e);
        match &e.inner {
            Expr::Let { ty, default: Some(value), .. } => {
                proof {
                    assert(t.kids == seq![expr::tree_of(**value)]);
                    assert(t.kids[0] == expr::tree_of(**value));
                }
                !type_is_pid(&ty.inner) && self.ret_target(value).is_some()
            },
            _ => false,
        }
    }
}

// ── bindings for calls whose value nobody asked for ────────────────────────

/// `pin x` as a statement is a binding of a fresh name.
pub open spec fn pinned(t: Tree, next: u32) -> (Tree, u32) {
    if t.head is Pin {
        (
            synth::open_let(synth::numbered("__pin_"@, next), synth::operand(t), t.span),
            lift::succ(next),
        )
    } else {
        (t, next)
    }
}

/// A bare call of a ret-machine is a binding of a fresh name.
pub open spec fn discarded(cx: CxV, t: Tree, next: u32) -> (Tree, u32) {
    if t.head is Jump && ret_of(cx, t) is Some {
        (synth::open_let(synth::numbered("__discard_"@, next), t, t.span), lift::succ(next))
    } else {
        (t, next)
    }
}

/// [`pinned`] on the first `n` statements.
pub open spec fn pinned_all(body: Seq<Tree>, n: nat, next: u32) -> (Seq<Tree>, u32)
    decreases n,
{
    if n == 0 {
        (Seq::empty(), next)
    } else {
        let (before, c) = pinned_all(body, (n - 1) as nat, next);
        let (t, c2) = pinned(body[n - 1], c);
        (before.push(t), c2)
    }
}

/// [`discarded`] on the first `n` statements.
pub open spec fn discarded_all(cx: CxV, body: Seq<Tree>, n: nat, next: u32) -> (Seq<Tree>, u32)
    decreases n,
{
    if n == 0 {
        (Seq::empty(), next)
    } else {
        let (before, c) = discarded_all(cx, body, (n - 1) as nat, next);
        let (t, c2) = discarded(cx, body[n - 1], c);
        (before.push(t), c2)
    }
}

/// Rewrite the statement `pin x` into `let __pin_<id> = x`.
pub fn rewrite_pin(e: Spanned<Expr>, fresh: &mut Fresh) -> (r: Spanned<Expr>)
    ensures
        (expr::tree_of(r), final(fresh).next) == pinned(expr::tree_of(e), old(fresh).next),
{
    let span = e.span;
    match e.inner {
        Expr::Pin(value) => {
            let id = fresh.fresh_id();
            let name = numbered_name("__pin_", id);
            let_expr(name.as_str(), Type::Unknown, *value, span)
        },
        other => Spanned { inner: other, span },
    }
}

/// [`rewrite_pin`] on every statement.
pub fn rewrite_pins(body: Vec<Spanned<Expr>>, fresh: &mut Fresh) -> (r: Vec<Spanned<Expr>>)
    ensures
        (expr::trees(r@), final(fresh).next) == pinned_all(
            expr::trees(body@),
            body@.len(),
            old(fresh).next,
        ),
{
    let ghost es = body@;
    let ghost ts = expr::trees(es);
    let ghost start = fresh.next;
    let mut out: Vec<Spanned<Expr>> = Vec::new();
    proof {
        assert(expr::trees(out@) =~= Seq::<Tree>::empty());
    }
    for e in it: body
        invariant
            it.seq() == es,
            ts == expr::trees(es),
            (expr::trees(out@), fresh.next) == pinned_all(ts, it.index() as nat, start),
    {
        proof {
            assert(ts[it.index() as int] == expr::tree_of(e));
        }
        let ghost before = out@;
        let one = rewrite_pin(e, fresh);
        let ghost t = expr::tree_of(one);
        out.push(one);
        proof {
            assert(expr::trees(out@) =~= expr::trees(before).push(t));
        }
    }
    out
}

impl<'a> LowerCx<'a> {
    /// Wrap a bare call of a ret-machine in `let __discard_<id> = ...`, so
    /// that it is waited for.
    pub fn wrap_bare_ret_call_in_let(&self, e: Spanned<Expr>, fresh: &mut Fresh) -> (r: Spanned<
        Expr,
    >)
        requires
            self.deep_view().wf(),
        ensures
            (expr::tree_of(r), final(fresh).next) == discarded(
                self.deep_view(),
                expr::tree_of(e),
                old(fresh).next,
            ),
    {
        if !matches!(e.inner, Expr::Jump { .. }) || self.ret_target(&e).is_none() {
            return e;
        }
        let span = e.span;
        let id = fresh.fresh_id();
        let name = numbered_name("__discard_", id);
        let_expr(name.as_str(), Type::Unknown, e, span)
    }

    /// [`wrap_bare_ret_call_in_let`](Self::wrap_bare_ret_call_in_let) on
    /// every statement.
    pub fn wrap_bare_ret_calls(&self, body: Vec<Spanned<Expr>>, fresh: &mut Fresh) -> (r: Vec<
        Spanned<Expr>,
    >)
        requires
            self.deep_view().wf(),
        ensures
            (expr::trees(r@), final(fresh).next) == discarded_all(
                self.deep_view(),
                expr::trees(body@),
                body@.len(),
                old(fresh).next,
            ),
    {
        let ghost cx = self.deep_view();
        let ghost es = body@;
        let ghost ts = expr::trees(es);
        let ghost start = fresh.next;
        let mut out: Vec<Spanned<Expr>> = Vec::new();
        proof {
            assert(expr::trees(out@) =~= Seq::<Tree>::empty());
        }
        for e in it: body
            invariant
                it.seq() == es,
                ts == expr::trees(es),
                cx == self.deep_view(),
                cx.wf(),
                (expr::trees(out@), fresh.next) == discarded_all(
                    cx,
                    ts,
                    it.index() as nat,
                    start,
                ),
        {
            proof {
                assert(ts[it.index() as int] == expr::tree_of(e));
            }
            let ghost before = out@;
            let one = self.wrap_bare_ret_call_in_let(e, fresh);
            let ghost t = expr::tree_of(one);
            out.push(one);
            proof {
                assert(expr::trees(out@) =~= expr::trees(before).push(t));
            }
        }
        out
    }
}

/// Whether `t` is written as a pid.
pub open spec fn is_pid_arg(t: Tree) -> bool {
    match t.head {
        Head::Var(_, ty) => is_pid(ty),
        Head::Num(_, ty) => is_pid(ty),
        _ => false,
    }
}

/// Does `e` evaluate to a pid, by its shape?
pub fn first_arg_is_pid(e: &Expr) -> (r: bool)
    ensures
        forall|span: SimpleSpan| r == is_pid_arg(#[trigger] expr::tree(*e, span)),
{
    match e {
        Expr::Var(_, ty) => type_is_pid(ty),
        Expr::Num(_, ty) => type_is_pid(ty),
        _ => false,
    }
}

/// A call of a ret-machine that does not begin with a pid gets the null pid
/// as its first argument: nobody waits for what it returns.
pub open spec fn unwaited(cx: CxV, t: Tree) -> Option<Tree> {
    if ret_of(cx, t) is Some && !(t.kids.len() >= 2 && is_pid_arg(t.kids[1])) {
        Some(passes::with_first_arg(t, synth::null_pid(t.span)))
    } else {
        None
    }
}

impl<'a> LowerCx<'a> {
    /// A bare call of a ret-machine with the null pid as its caller.
    pub fn try_rewrite_bare_ret_call(&self, e: &Spanned<Expr>) -> (r: Option<Spanned<Expr>>)
        requires
            self.deep_view().wf(),
        ensures
            match r {
                Some(call) => unwaited(self.deep_view(), expr::tree_of(*e)) == Some(
                    expr::tree_of(call),
                ),
                None => unwaited(self.deep_view(), expr::tree_of(*e)) is None,
            },
    {
        let ghost t = expr::tree_of(*e);
        if self.ret_target(e).is_none() {
            return None;
        }
        match &e.inner {
            Expr::Jump { ident, args } => {
                proof {
                    assert(t.kids == seq![expr::tree_of(**ident)] + expr::trees(args@));
                    assert(args@.len() > 0 ==> t.kids[1] == expr::tree_of(args@[0]));
                }
                if args.len() > 0 && first_arg_is_pid(&args[0].inner) {
                    return None;
                }
                let callee = Box::new(dup_expr(ident));
                let args2 = dup_exprs(args);
                proof {
                    assert(expr::tree(Expr::Jump { ident: callee, args: args2 }, e.span).kids
                        == seq![expr::tree_of(*callee)] + expr::trees(args2@));
                }
                Some(prepend_arg(callee, args2, synth_null_pid(e.span)).with_span(e.span))
            },
            _ => None,
        }
    }
}

// ── waiting for a reply ────────────────────────────────────────────────────

/// `__ret_<id>_<what>`.
pub open spec fn reply_name(id: u32, what: Text) -> Text {
    synth::numbered("__ret_"@, id) + what
}

fn reply_name_text(id: u32, what: &str) -> (r: String)
    ensures
        r@ == reply_name(id, what@),
{
    cat(numbered_name("__ret_", id).as_str(), what)
}

/// The call with `self` as its first argument, at `span`.
pub open spec fn with_self(t: Tree, span: SimpleSpan) -> Tree {
    Tree { span, ..passes::with_first_arg(t, synth::self_tree(span)) }
}

/// A parameter of the handler that takes a reply.
pub open spec fn reply_param(name: Spanned<Text>, ty: TypeV, span: SimpleSpan) -> Spanned<
    PatternV,
> {
    Spanned { inner: ast::new_pattern(name, Spanned { inner: ty, span }), span }
}

/// The name that a reply is bound to; `_` would not take it out of the
/// mailbox.
pub open spec fn reply_target(ident: Spanned<Text>, id: u32) -> Spanned<Text> {
    if ident.inner == "_"@ {
        Spanned { inner: reply_name(id, "_value"@), span: ident.span }
    } else {
        ident
    }
}

/// What `let r = f(args)` and the statements after it become: the call, and
/// a `wait` for its reply that goes on with `rest`.
pub open spec fn awaited(t: Tree, ret: Text, rest: Seq<Tree>, id: u32) -> Seq<Tree> {
    let span = t.span;
    let pid = reply_name(id, "_pid"@);
    let handler = Tree {
        head: Head::Handler(
            HandlerV {
                label: None,
                patterns: seq![
                    reply_param(
                        Spanned { inner: reply_name(id, "_sender"@), span },
                        synth::named("pid"@, span),
                        span,
                    ),
                    reply_param(
                        reply_target(t.head->Let_0, id),
                        type_of_word(text::trimmed(ret), span),
                        span,
                    ),
                ],
                ret_ty: None,
            },
        ),
        span,
        kids: rest,
    };
    let filter = expr::node(
        Head::Filter,
        span::zero_span(),
        seq![synth::var_tree(pid, synth::named("pid"@, span), span)],
    );
    seq![
        synth::let_tree(pid, synth::named("pid"@, span), with_self(t.kids[0], span), span),
        expr::node(Head::Wait, span, seq![filter, handler]),
    ]
}

fn prepend_self_arg(call: Spanned<Expr>, span: SimpleSpan) -> (r: Spanned<Expr>)
    requires
        expr::tree_of(call).head is Jump,
    ensures
        expr::tree_of(r) == with_self(expr::tree_of(call), span),
{
    let ghost t = expr::tree_of(call);
    match call.inner {
        Expr::Jump { ident, args } => {
            proof {
                assert(t.kids == seq![expr::tree_of(*ident)] + expr::trees(args@));
                assert(expr::tree(Expr::Jump { ident, args }, span).kids == t.kids);
            }
            prepend_arg(ident, args, synth_self(span)).with_span(span)
        },
        other => Spanned { inner: other, span },
    }
}

fn reply_handler(
    ident: Spanned<Ident>,
    ret: &str,
    rest: Vec<Spanned<Expr>>,
    id: u32,
    span: SimpleSpan,
) -> (r: Spanned<Branch>)
    ensures
        r.span == span,
        expr::trees(r.inner.body@) == expr::trees(rest@),
        expr::branch_head(r.inner) == (HandlerV {
            label: None,
            patterns: seq![
                reply_param(
                    Spanned { inner: reply_name(id, "_sender"@), span },
                    synth::named("pid"@, span),
                    span,
                ),
                reply_param(
                    reply_target(ident.deep_view(), id),
                    type_of_word(text::trimmed(ret@), span),
                    span,
                ),
            ],
            ret_ty: None,
        }),
{
    let sender = reply_name_text(id, "_sender");
    let target = if same(ident.inner.0.as_str(), "_") {
        Ident(reply_name_text(id, "_value")).with_span(ident.span)
    } else {
        ident
    };
    let sender_pat = Pattern::new(
        Ident(sender).with_span(span),
        named_type("pid", span).with_span(span),
    );
    let value_pat = Pattern::new(target, type_from_string(ret, span).with_span(span));
    let mut patterns: Vec<Spanned<Pattern>> = Vec::new();
    patterns.push(sender_pat.with_span(span));
    patterns.push(value_pat.with_span(span));
    let b = Branch::new(None, patterns, None, rest);
    proof {
        assert(expr::branch_head(b).patterns =~= seq![
            Spanned { inner: ast::pattern_view(sender_pat), span },
            Spanned { inner: ast::pattern_view(value_pat), span },
        ]);
    }
    b.with_span(span)
}

/// The call and the `wait` for its reply, around statements that have been
/// lowered already.
pub fn expand_let_with_ret(
    e: Spanned<Expr>,
    ret: &str,
    rest: Vec<Spanned<Expr>>,
    id: u32,
) -> (r: Vec<Spanned<Expr>>)
    requires
        expr::tree_of(e).head is Let,
        expr::tree_of(e).kids.len() == 1,
        expr::tree_of(e).kids[0].head is Jump,
    ensures
        expr::trees(r@) == awaited(expr::tree_of(e), ret@, expr::trees(rest@), id),
{
    let ghost t = expr::tree_of(e);
    let mut out: Vec<Spanned<Expr>> = Vec::new();
    let span = e.span;
    match e.inner {
        Expr::Let { ident, ty, default } => match default {
            Some(call) => {
                proof {
                    assert(t.kids[0] == expr::tree_of(*call));
                }
                let pid = reply_name_text(id, "_pid");
                let call = prepend_self_arg(*call, span);
                let pid_let = let_expr(pid.as_str(), named_type("pid", span), call, span);
                let handler = reply_handler(ident, ret, rest, id, span);
                let mut handlers: Vec<Spanned<Branch>> = Vec::new();
                handlers.push(handler);
                let pid_var = Expr::Var(pid.clone(), named_type("pid", span)).with_span(span);
                let ghost pv = expr::tree_of(pid_var);
                let mut filter: Vec<Spanned<Expr>> = Vec::new();
                filter.push(pid_var);
                let ghost a = expr::tree_of(pid_let);
                proof {
                    assert(expr::trees(filter@) =~= seq![pv]);
                    assert(expr::handlers_view(handlers@) =~= seq![
                        Tree {
                            head: Head::Handler(expr::branch_head(handler.inner)),
                            span: handler.span,
                            kids: expr::trees(handler.inner.body@),
                        },
                    ]);
                }
                let wait = Expr::Wait { handlers, filter }.with_span(span);
                let ghost w = expr::tree_of(wait);
                proof {
                    let want = awaited(t, ret@, expr::trees(rest@), id);
                    assert(w.kids == seq![
                        expr::node(Head::Filter, span::zero_span(), expr::trees(filter@)),
                    ] + expr::handlers_view(handlers@));
                    assert(w.kids =~= want[1].kids);
                    assert(a == want[0]);
                }
                out.push(pid_let);
                out.push(wait);
                proof {
                    assert(expr::trees(out@) =~= seq![a, w]);
                }
                out
            },
            None => out,
        },
        _ => out,
    }
}

} // verus!
