//! Ret-machines, and which of them are pure enough to be inlined.

use vstd::prelude::*;

use crate::api::ast;
use crate::api::ast::{
    Branch, BranchV, Item, ItemV, Machine, MachineItem, MachineItemV, MachineV, Pattern, PatternV,
};
use crate::api::expr;
use crate::api::expr::{dup_expr, dup_exprs, Expr, Head, Tree};
use crate::loader::{ModuleV, ParsedModule, ParsedProgram};
use crate::lowering::passes::ModuleConsts;
use crate::lowering::recursion;
use crate::name_map::NameMap;
use crate::registry;
use crate::registry::{ModuleId, ModulePath, ProgramRegistry, RegistryV};
use crate::inspect;
use crate::inspect::{check, check_all, Ask, Property};
use crate::rewrite;
use crate::rewrite::rewrite_all;
use crate::span::Spanned;
use crate::text::{same, Text};

verus! {

// ── returns inside expressions ─────────────────────────────────────────────

/// No node is a `ret`.
pub open spec fn no_ret() -> Ask {
    Ask { local: |t: Tree| !(t.head is Ret), covers: |head: Head, i: int| true }
}

/// Checks that no node is a `ret`.
pub struct NoRet {}

impl Property for NoRet {
    open spec fn ready(&self) -> bool {
        true
    }

    open spec fn ask(&self) -> Ask {
        no_ret()
    }

    fn check_local(&self, e: &Spanned<Expr>) -> (r: bool) {
        !matches!(e.inner, Expr::Ret(_))
    }

    fn check_covers(&self, e: &Expr, i: usize) -> (r: bool) {
        true
    }
}

/// Whether `ret` occurs anywhere in `t`.
pub open spec fn contains_ret(t: Tree) -> bool {
    !inspect::holds(no_ret(), t)
}

/// Whether `ret` occurs anywhere in an expression.
pub fn expr_contains_ret(e: &Spanned<Expr>) -> (r: bool)
    ensures
        r == contains_ret(expr::tree_of(*e)),
{
    !check(&NoRet {  }, e)
}

/// Whether a body's last statement is its one and only `ret`.
pub open spec fn is_simple(body: Seq<Tree>) -> bool {
    &&& body.len() > 0
    &&& body.last().head is Ret
    &&& forall|i: int| 0 <= i < body.last().kids.len() ==> !#[trigger] contains_ret(body.last().kids[i])
    &&& forall|i: int| 0 <= i < body.len() - 1 ==> !#[trigger] contains_ret(body[i])
}

/// True when the body has exactly one `ret`, at the top level, as the last
/// statement.  Statements before it are allowed.
pub fn is_simple_pure_body(body: &Vec<Spanned<Expr>>) -> (r: bool)
    ensures
        r == is_simple(expr::trees(body@)),
{
    let ghost ts = expr::trees(body@);
    let n = body.len();
    if n == 0 {
        return false;
    }
    proof {
        assert(ts.last() == expr::tree_of(body@[n - 1]));
    }
    match &body[n - 1].inner {
        Expr::Ret(inner) => {
            proof {
                let k = ts.last().kids;
                assert(k == seq![expr::tree_of(**inner)]);
                assert(k[0] == expr::tree_of(**inner));
            }
            if expr_contains_ret(inner) {
                return false;
            }
        },
        _ => {
            return false;
        },
    }
    let mut i: usize = 0;
    while i < n - 1
        invariant
            i <= n - 1,
            n == body@.len(),
            ts == expr::trees(body@),
            forall|j: int| 0 <= j < i ==> !#[trigger] contains_ret(ts[j]),
        decreases n - i,
    {
        proof {
            assert(ts[i as int] == expr::tree_of(body@[i as int]));
        }
        if expr_contains_ret(&body[i]) {
            return false;
        }
        i = i + 1;
    }
    true
}

/// `... let v = e; ret v` is `... ret e`.
pub open spec fn canonical(body: Seq<Tree>) -> Seq<Tree> {
    if body.len() >= 2 && ends_in_let_ret(body) {
        let n = body.len();
        body.take(n - 2).push(
            Tree { head: Head::Ret, span: body[n - 1].span, kids: seq![body[n - 2].kids[0]] },
        )
    } else {
        body
    }
}

/// Whether a body ends in `let v = e; ret v`.
pub open spec fn ends_in_let_ret(body: Seq<Tree>) -> bool {
    let n = body.len();
    let last = body[n - 1];
    let prev = body[n - 2];
    &&& last.head is Ret
    &&& last.kids.len() == 1
    &&& last.kids[0].head is Var
    &&& prev.head is Let
    &&& prev.kids.len() == 1
    &&& prev.head->Let_0.inner == last.kids[0].head->Var_0
}

fn let_ret_end(body: &Vec<Spanned<Expr>>) -> (r: bool)
    requires
        body@.len() >= 2,
    ensures
        r == ends_in_let_ret(expr::trees(body@)),
{
    let n = body.len();
    let ghost last = expr::trees(body@)[n - 1];
    let ghost prev = expr::trees(body@)[n - 2];
    proof {
        assert(last == expr::tree_of(body@[n - 1]));
        assert(prev == expr::tree_of(body@[n - 2]));
    }
    match &body[n - 1].inner {
        Expr::Ret(inner) => {
            proof {
                assert(last.kids == seq![expr::tree_of(**inner)]);
            }
            match &inner.inner {
                Expr::Var(name, _) => match &body[n - 2].inner {
                    Expr::Let { ident, ty, default } => {
                        default.is_some() && same(ident.inner.0.as_str(), name.as_str())
                    },
                    _ => false,
                },
                _ => false,
            }
        },
        _ => false,
    }
}

/// Canonicalise `let v = e; ret v` at the end of a body to `ret e`.
pub fn canonicalise_let_ret(body: Vec<Spanned<Expr>>) -> (r: Vec<Spanned<Expr>>)
    ensures
        expr::trees(r@) == canonical(expr::trees(body@)),
{
    if body.len() < 2 || !let_ret_end(&body) {
        return body;
    }
    let ghost ts = expr::trees(body@);
    let ghost n = body@.len();
    let mut out = body;
    let last = out.pop().unwrap();
    let prev = out.pop().unwrap();
    proof {
        assert(ts[n - 1] == expr::tree_of(last));
        assert(ts[n - 2] == expr::tree_of(prev));
    }
    if let Expr::Let { ident, ty, default } = prev.inner {
        if let Some(value) = default {
            out.push(Spanned { inner: Expr::Ret(value), span: last.span });
        }
    }
    proof {
        assert(expr::trees(out@) =~= canonical(ts));
    }
    out
}

// ── ret-machines ───────────────────────────────────────────────────────────

/// A machine, identified by its module and its name.
#[derive(Debug, Clone, PartialEq, Eq)]
pub struct RetKey {
    pub module: ModulePath,
    pub name: String,
}

#[verifier::ext_equal]
pub struct RetKeyV {
    pub module: Seq<Text>,
    pub name: Text,
}

impl DeepView for RetKey {
    type V = RetKeyV;

    open spec fn deep_view(&self) -> RetKeyV {
        RetKeyV { module: self.module.deep_view(), name: self.name@ }
    }
}

impl RetKey {
    pub fn is_same(&self, other: &RetKey) -> (r: bool)
        ensures
            r == (self.deep_view() == other.deep_view()),
    {
        self.module.is_same(&other.module) && same(self.name.as_str(), other.name.as_str())
    }

    pub fn dup(&self) -> (r: RetKey)
        ensures
            r.deep_view() == self.deep_view(),
    {
        RetKey { module: self.module.dup(), name: self.name.clone() }
    }
}

/// The first position from `from` on at which `key` occurs.
pub open spec fn key_index<T>(entries: Seq<(RetKeyV, T)>, key: RetKeyV, from: int) -> int
    decreases entries.len() - from,
{
    if from >= entries.len() || entries[from].0 == key {
        from
    } else {
        key_index(entries, key, from + 1)
    }
}

/// What `key` is mapped to.
pub open spec fn key_lookup<T>(entries: Seq<(RetKeyV, T)>, key: RetKeyV) -> Option<T> {
    let i = key_index(entries, key, 0);
    if 0 <= i < entries.len() {
        Some(entries[i].1)
    } else {
        None
    }
}

/// `entries` with `key` mapped to `value`.
pub open spec fn key_insert<T>(entries: Seq<(RetKeyV, T)>, key: RetKeyV, value: T) -> Seq<
    (RetKeyV, T),
> {
    let i = key_index(entries, key, 0);
    if 0 <= i < entries.len() {
        entries.update(i, (key, value))
    } else {
        entries.push((key, value))
    }
}

/// A table over machines, in the order of first entry.
#[derive(Debug, Clone)]
pub struct KeyTable<T> {
    pub entries: Vec<(RetKey, T)>,
}

impl<T: DeepView> DeepView for KeyTable<T> {
    type V = Seq<(RetKeyV, T::V)>;

    open spec fn deep_view(&self) -> Seq<(RetKeyV, T::V)> {
        Seq::new(
            self.entries@.len(),
            |i: int| (self.entries@[i].0.deep_view(), self.entries@[i].1.deep_view()),
        )
    }
}

impl<T: DeepView> KeyTable<T> {
    pub fn new() -> (r: KeyTable<T>)
        ensures
            r.deep_view() == Seq::<(RetKeyV, T::V)>::empty(),
    {
        let r = KeyTable { entries: Vec::new() };
        proof {
            assert(r.deep_view() =~= Seq::<(RetKeyV, T::V)>::empty());
        }
        r
    }

    fn find(&self, key: &RetKey) -> (r: usize)
        ensures
            r == key_index(self.deep_view(), key.deep_view(), 0),
            r <= self.entries@.len(),
    {
        let mut i: usize = 0;
        while i < self.entries.len()
            invariant
                i <= self.entries.len(),
                key_index(self.deep_view(), key.deep_view(), 0) == key_index(
                    self.deep_view(),
                    key.deep_view(),
                    i as int,
                ),
            decreases self.entries.len() - i,
        {
            if self.entries[i].0.is_same(key) {
                return i;
            }
            i = i + 1;
        }
        i
    }

    pub fn get(&self, key: &RetKey) -> (r: Option<&T>)
        ensures
            match r {
                Some(v) => key_lookup(self.deep_view(), key.deep_view()) == Some(v.deep_view()),
                None => key_lookup(self.deep_view(), key.deep_view()) is None,
            },
    {
        let i = self.find(key);
        if i < self.entries.len() {
            Some(&self.entries[i].1)
        } else {
            None
        }
    }

    pub fn insert(&mut self, key: RetKey, value: T)
        ensures
            final(self).deep_view() == key_insert(
                old(self).deep_view(),
                key.deep_view(),
                value.deep_view(),
            ),
    {
        let i = self.find(&key);
        let ghost k = key.deep_view();
        let ghost v = value.deep_view();
        if i < self.entries.len() {
            self.entries.set(i, (key, value));
        } else {
            self.entries.push((key, value));
        }
        proof {
            assert(self.deep_view() =~= key_insert(old(self).deep_view(), k, v));
        }
    }
}

/// The rendered return type of the first branch that has one, among the
/// items from `from` on.
pub open spec fn first_ret(items: Seq<Spanned<MachineItemV>>, from: int) -> Option<Text>
    decreases items.len() - from,
{
    if from >= items.len() {
        None
    } else {
        match items[from].inner {
            MachineItemV::Branch(b) => match b.head.ret_ty {
                Some(t) => Some(ast::type_text(t.inner)),
                None => first_ret(items, from + 1),
            },
            MachineItemV::Field(_) => first_ret(items, from + 1),
        }
    }
}

/// The return type of the first branch that has one.
pub fn first_ret_ty(machine: &Machine) -> (r: Option<String>)
    ensures
        r.deep_view() == first_ret(machine.deep_view().items, 0),
{
    let ghost items = machine.deep_view().items;
    let mut i: usize = 0;
    while i < machine.items.len()
        invariant
            i <= machine.items.len(),
            items == machine.deep_view().items,
            first_ret(items, 0) == first_ret(items, i as int),
        decreases machine.items.len() - i,
    {
        proof {
            assert(items[i as int] == machine.items@[i as int].deep_view());
        }
        if let MachineItem::Branch(b) = &machine.items[i].inner {
            if let Some(t) = &b.ret_ty {
                return Some(t.inner.to_string());
            }
        }
        i = i + 1;
    }
    None
}

/// The ret-machines among the first `n` items of a module.
pub open spec fn module_ret_machines(
    table: Seq<(RetKeyV, Text)>,
    m: ModuleV,
    n: nat,
) -> Seq<(RetKeyV, Text)>
    decreases n,
{
    if n == 0 {
        table
    } else {
        let before = module_ret_machines(table, m, (n - 1) as nat);
        match m.ast[n - 1].inner {
            ItemV::Machine(mach) => match first_ret(mach.inner.items, 0) {
                Some(ret) => key_insert(
                    before,
                    RetKeyV { module: m.path, name: mach.inner.ident.inner },
                    ret,
                ),
                None => before,
            },
            _ => before,
        }
    }
}

/// The ret-machines of the first `n` modules.
pub open spec fn ret_machines_of(ms: Seq<ModuleV>, n: nat) -> Seq<(RetKeyV, Text)>
    decreases n,
{
    if n == 0 {
        Seq::empty()
    } else {
        module_ret_machines(
            ret_machines_of(ms, (n - 1) as nat),
            ms[n - 1],
            ms[n - 1].ast.len(),
        )
    }
}

fn add_ret_machines(table: &mut KeyTable<String>, module: &ParsedModule)
    ensures
        final(table).deep_view() == module_ret_machines(
            old(table).deep_view(),
            module.deep_view(),
            module.ast@.len(),
        ),
{
    let ghost start = table.deep_view();
    let ghost mv = module.deep_view();
    let mut i: usize = 0;
    while i < module.ast.len()
        invariant
            i <= module.ast.len(),
            mv == module.deep_view(),
            table.deep_view() == module_ret_machines(start, mv, i as nat),
        decreases module.ast.len() - i,
    {
        proof {
            assert(mv.ast[i as int] == module.ast@[i as int].deep_view());
        }
        if let Item::Machine(m) = &module.ast[i].inner {
            if let Some(ret) = first_ret_ty(&m.inner) {
                let key = RetKey {
                    module: module.path.dup(),
                    name: m.inner.ident.inner.0.clone(),
                };
                table.insert(key, ret);
            }
        }
        i = i + 1;
    }
}

/// Every machine with a `ret` branch, with its return type.
pub fn collect_ret_machines(program: &ParsedProgram) -> (r: KeyTable<String>)
    ensures
        r.deep_view() == ret_machines_of(program.deep_view(), program.modules@.len()),
{
    let ghost ms = program.deep_view();
    let mut table: KeyTable<String> = KeyTable::new();
    let mut i: usize = 0;
    while i < program.modules.len()
        invariant
            i <= program.modules.len(),
            ms == program.deep_view(),
            table.deep_view() == ret_machines_of(ms, i as nat),
        decreases program.modules.len() - i,
    {
        proof {
            assert(ms[i as int] == program.modules@[i as int].deep_view());
        }
        add_ret_machines(&mut table, &program.modules[i]);
        i = i + 1;
    }
    table
}

} // verus!

verus! {

// ── purity ─────────────────────────────────────────────────────────────────

/// Runtime functions that neither yield the scheduler nor perform I/O.
pub open spec fn is_pure_rt(name: Text) -> bool {
    name == "rt_allocate"@ || name == "rt_allocate_raw"@ || name == "rt_die_actor"@ || name
        == "rt_free"@ || name == "rt_store"@ || name == "rt_load_u8"@ || name == "rt_load_u16"@
        || name == "rt_load_u32"@ || name == "rt_load_u64"@ || name == "rt_copy_bytes"@ || name
        == "rt_mmap"@ || name == "rt_munmap"@ || name == "buf_ptr"@ || name == "buf_len"@ || name
        == "buf_trim"@ || name == "cmp_str_buf"@ || name == "rt_envp_raw"@
}

/// Whether `name` is a runtime function that keeps a body pure: memory,
/// allocator and pointer helpers.
pub fn pure_rt_funcs(name: &str) -> (r: bool)
    ensures
        r == is_pure_rt(name@),
{
    same(name, "rt_allocate") || same(name, "rt_allocate_raw") || same(name, "rt_die_actor")
        || same(name, "rt_free") || same(name, "rt_store") || same(name, "rt_load_u8") || same(
        name,
        "rt_load_u16",
    ) || same(name, "rt_load_u32") || same(name, "rt_load_u64") || same(name, "rt_copy_bytes")
        || same(name, "rt_mmap") || same(name, "rt_munmap") || same(name, "buf_ptr") || same(
        name,
        "buf_len",
    ) || same(name, "buf_trim") || same(name, "cmp_str_buf") || same(name, "rt_envp_raw")
}

/// Whether one of the keys has `name`.
pub open spec fn names_some(keys: Seq<RetKeyV>, name: Text) -> bool {
    exists|i: int| 0 <= i < keys.len() && (#[trigger] keys[i]).name == name
}

/// The keys of a table.
pub open spec fn keys_of<T>(entries: Seq<(RetKeyV, T)>) -> Seq<RetKeyV> {
    Seq::new(entries.len(), |i: int| entries[i].0)
}

/// Whether a callee is known to be pure: a pure runtime function or a
/// machine among `pure`.
pub open spec fn callee_pure(callee: Tree, pure: Seq<RetKeyV>, ret: Seq<RetKeyV>) -> bool {
    match callee.head {
        Head::Var(name, _) => name != "self"@ && (is_pure_rt(name) || (names_some(ret, name)
            && names_some(pure, name))),
        Head::Path(segs) => names_some(
            pure,
            if segs.len() > 0 {
                segs.last().inner
            } else {
                ""@
            },
        ),
        _ => false,
    }
}

/// What purity asks of a node.
pub open spec fn pure_node(t: Tree, pure: Seq<RetKeyV>, ret: Seq<RetKeyV>) -> bool {
    match t.head {
        Head::Pin | Head::Wait | Head::MethodCall(_) | Head::AtAccess(_) | Head::DotAccess(_)
        | Head::StructInit | Head::RecordLiteral(_, _) => false,
        Head::Jump => t.kids.len() > 0 && callee_pure(t.kids[0], pure, ret),
        _ => true,
    }
}

/// No scheduling, no I/O, only calls of pure callees.
pub open spec fn purity(pure: Seq<RetKeyV>, ret: Seq<RetKeyV>) -> Ask {
    Ask {
        local: |t: Tree| pure_node(t, pure, ret),
        covers: |head: Head, i: int| !(head is Jump && i == 0),
    }
}

/// Checks purity, given the machines that are taken to be pure.
pub struct Pure<'a> {
    pub pure: &'a Vec<RetKey>,
    pub ret: &'a KeyTable<String>,
}

pub fn any_key_named(keys: &Vec<RetKey>, name: &str) -> (r: bool)
    ensures
        r == names_some(keys.deep_view(), name@),
{
    let ghost ks = keys.deep_view();
    let mut i: usize = 0;
    while i < keys.len()
        invariant
            i <= keys.len(),
            ks == keys.deep_view(),
            forall|j: int| 0 <= j < i ==> (#[trigger] ks[j]).name != name@,
        decreases keys.len() - i,
    {
        proof {
            assert(ks[i as int] == keys@[i as int].deep_view());
        }
        if same(keys[i].name.as_str(), name) {
            return true;
        }
        i = i + 1;
    }
    false
}

fn any_entry_named(table: &KeyTable<String>, name: &str) -> (r: bool)
    ensures
        r == names_some(keys_of(table.deep_view()), name@),
{
    let ghost ks = keys_of(table.deep_view());
    let mut i: usize = 0;
    while i < table.entries.len()
        invariant
            i <= table.entries.len(),
            ks == keys_of(table.deep_view()),
            forall|j: int| 0 <= j < i ==> (#[trigger] ks[j]).name != name@,
        decreases table.entries.len() - i,
    {
        proof {
            assert(ks[i as int] == table.entries@[i as int].0.deep_view());
        }
        if same(table.entries[i].0.name.as_str(), name) {
            return true;
        }
        i = i + 1;
    }
    false
}

impl<'a> Pure<'a> {
    fn callee_is_pure(&self, callee: &Spanned<Expr>) -> (r: bool)
        ensures
            r == callee_pure(
                expr::tree_of(*callee),
                self.pure.deep_view(),
                keys_of(self.ret.deep_view()),
            ),
    {
        match &callee.inner {
            Expr::Var(name, _) => {
                if same(name.as_str(), "self") {
                    false
                } else if pure_rt_funcs(name.as_str()) {
                    true
                } else {
                    any_entry_named(self.ret, name.as_str()) && any_key_named(
                        self.pure,
                        name.as_str(),
                    )
                }
            },
            Expr::Path(segs) => {
                let n = segs.len();
                if n > 0 {
                    proof {
                        assert(segs.deep_view().last() == segs@[n - 1].deep_view());
                    }
                    any_key_named(self.pure, segs[n - 1].inner.0.as_str())
                } else {
                    any_key_named(self.pure, "")
                }
            },
            _ => false,
        }
    }
}

impl<'a> Property for Pure<'a> {
    open spec fn ready(&self) -> bool {
        true
    }

    open spec fn ask(&self) -> Ask {
        purity(self.pure.deep_view(), keys_of(self.ret.deep_view()))
    }

    fn check_local(&self, e: &Spanned<Expr>) -> (r: bool) {
        match &e.inner {
            Expr::Pin(_) | Expr::Wait { .. } | Expr::MethodCall { .. } | Expr::AtAccess { .. }
            | Expr::DotAccess { .. } | Expr::StructInit { .. } | Expr::RecordLiteral { .. } => {
                false
            },
            Expr::Jump { ident, args } => {
                proof {
                    assert(expr::tree_of(*e).kids == seq![expr::tree_of(**ident)] + expr::trees(
                        args@,
                    ));
                    assert(expr::tree_of(*e).kids[0] == expr::tree_of(**ident));
                }
                self.callee_is_pure(ident)
            },
            _ => true,
        }
    }

    fn check_covers(&self, e: &Expr, i: usize) -> (r: bool) {
        match e {
            Expr::Jump { .. } => i != 0,
            _ => true,
        }
    }
}

// ── the pure machines of a program ─────────────────────────────────────────

/// A list of statements.
pub struct Body(pub Vec<Spanned<Expr>>);

impl DeepView for Body {
    type V = Seq<Tree>;

    open spec fn deep_view(&self) -> Seq<Tree> {
        expr::trees(self.0@)
    }
}

/// The statements of all branches among the first `n` machine items.
pub open spec fn all_statements(items: Seq<Spanned<MachineItemV>>, n: nat) -> Seq<Tree>
    decreases n,
{
    if n == 0 {
        Seq::empty()
    } else {
        let rest = all_statements(items, (n - 1) as nat);
        match items[n - 1].inner {
            MachineItemV::Branch(b) => rest + b.body,
            MachineItemV::Field(_) => rest,
        }
    }
}

fn machine_statements(m: &Machine) -> (r: Body)
    ensures
        r.deep_view() == all_statements(m.deep_view().items, m.items@.len()),
{
    let ghost items = m.deep_view().items;
    let mut out: Vec<Spanned<Expr>> = Vec::new();
    let mut i: usize = 0;
    proof {
        assert(expr::trees(out@) =~= Seq::<Tree>::empty());
    }
    while i < m.items.len()
        invariant
            i <= m.items.len(),
            items == m.deep_view().items,
            expr::trees(out@) == all_statements(items, i as nat),
        decreases m.items.len() - i,
    {
        proof {
            assert(items[i as int] == m.items@[i as int].deep_view());
        }
        if let MachineItem::Branch(b) = &m.items[i].inner {
            let mut body = dup_exprs(&b.body);
            let ghost x = out@;
            let ghost y = body@;
            out.append(&mut body);
            proof {
                assert(expr::trees(out@) =~= expr::trees(x) + expr::trees(y));
            }
        }
        i = i + 1;
    }
    Body(out)
}

/// The statements of the ret-machines among the first `n` items of a module.
pub open spec fn module_bodies(
    table: Seq<(RetKeyV, Seq<Tree>)>,
    ret: Seq<(RetKeyV, Text)>,
    m: ModuleV,
    n: nat,
) -> Seq<(RetKeyV, Seq<Tree>)>
    decreases n,
{
    if n == 0 {
        table
    } else {
        let before = module_bodies(table, ret, m, (n - 1) as nat);
        match m.ast[n - 1].inner {
            ItemV::Machine(mach) => {
                let key = RetKeyV { module: m.path, name: mach.inner.ident.inner };
                if key_lookup(ret, key) is Some {
                    key_insert(
                        before,
                        key,
                        all_statements(mach.inner.items, mach.inner.items.len()),
                    )
                } else {
                    before
                }
            },
            _ => before,
        }
    }
}

/// The statements of the ret-machines of the first `n` modules.
pub open spec fn ret_bodies(ms: Seq<ModuleV>, ret: Seq<(RetKeyV, Text)>, n: nat) -> Seq<
    (RetKeyV, Seq<Tree>),
>
    decreases n,
{
    if n == 0 {
        Seq::empty()
    } else {
        module_bodies(
            ret_bodies(ms, ret, (n - 1) as nat),
            ret,
            ms[n - 1],
            ms[n - 1].ast.len(),
        )
    }
}

/// Whether the statements of `key` are pure, given the machines `pure`.
pub open spec fn key_is_pure(
    key: RetKeyV,
    bodies: Seq<(RetKeyV, Seq<Tree>)>,
    pure: Seq<RetKeyV>,
    ret: Seq<RetKeyV>,
) -> bool {
    match key_lookup(bodies, key) {
        Some(body) => inspect::all_hold(purity(pure, ret), body),
        None => false,
    }
}

/// The keys among `keys[..n]` that are pure, given the machines `pure`.
pub open spec fn pure_among(
    keys: Seq<RetKeyV>,
    n: nat,
    bodies: Seq<(RetKeyV, Seq<Tree>)>,
    pure: Seq<RetKeyV>,
    ret: Seq<RetKeyV>,
) -> Seq<RetKeyV>
    decreases n,
{
    if n == 0 {
        Seq::empty()
    } else {
        let rest = pure_among(keys, (n - 1) as nat, bodies, pure, ret);
        if key_is_pure(keys[n - 1], bodies, pure, ret) {
            rest.push(keys[n - 1])
        } else {
            rest
        }
    }
}

/// Strikes impure machines from `keys` until no more have to go.
pub open spec fn pure_keys(
    keys: Seq<RetKeyV>,
    bodies: Seq<(RetKeyV, Seq<Tree>)>,
    ret: Seq<RetKeyV>,
) -> Seq<RetKeyV>
    decreases keys.len(),
{
    let next = pure_among(keys, keys.len(), bodies, keys, ret);
    if next.len() < keys.len() {
        pure_keys(next, bodies, ret)
    } else {
        keys
    }
}

proof fn pure_among_shrinks(
    keys: Seq<RetKeyV>,
    n: nat,
    bodies: Seq<(RetKeyV, Seq<Tree>)>,
    pure: Seq<RetKeyV>,
    ret: Seq<RetKeyV>,
)
    requires
        n <= keys.len(),
    ensures
        pure_among(keys, n, bodies, pure, ret).len() <= n,
        forall|i: int|
            0 <= i < pure_among(keys, n, bodies, pure, ret).len() ==> key_is_pure(
                #[trigger] pure_among(keys, n, bodies, pure, ret)[i],
                bodies,
                pure,
                ret,
            ),
        pure_among(keys, n, bodies, pure, ret).len() == n ==> pure_among(
            keys,
            n,
            bodies,
            pure,
            ret,
        ) == keys.take(n as int),
    decreases n,
{
    if n > 0 {
        pure_among_shrinks(keys, (n - 1) as nat, bodies, pure, ret);
        let rest = pure_among(keys, (n - 1) as nat, bodies, pure, ret);
        if pure_among(keys, n, bodies, pure, ret).len() == n {
            assert(keys.take(n - 1).push(keys[n - 1]) =~= keys.take(n as int));
        }
    } else {
        assert(keys.take(0) =~= Seq::<RetKeyV>::empty());
    }
}

/// Every machine that is found pure has pure statements, given that the
/// machines found pure are.
pub proof fn pure_keys_are_pure(
    keys: Seq<RetKeyV>,
    bodies: Seq<(RetKeyV, Seq<Tree>)>,
    ret: Seq<RetKeyV>,
)
    ensures
        ({
            let found = pure_keys(keys, bodies, ret);
            forall|i: int|
                0 <= i < found.len() ==> key_is_pure(#[trigger] found[i], bodies, found, ret)
        }),
    decreases keys.len(),
{
    let next = pure_among(keys, keys.len(), bodies, keys, ret);
    pure_among_shrinks(keys, keys.len(), bodies, keys, ret);
    if next.len() < keys.len() {
        pure_keys_are_pure(next, bodies, ret);
        assert(pure_keys(keys, bodies, ret) == pure_keys(next, bodies, ret));
    } else {
        assert(keys.take(keys.len() as int) =~= keys);
        assert(pure_keys(keys, bodies, ret) == keys);
        assert forall|i: int| 0 <= i < keys.len() implies key_is_pure(
            #[trigger] keys[i],
            bodies,
            keys,
            ret,
        ) by {
            assert(next[i] == keys[i]);
        }
    }
}

fn collect_bodies(program: &ParsedProgram, ret: &KeyTable<String>) -> (r: KeyTable<Body>)
    ensures
        r.deep_view() == ret_bodies(program.deep_view(), ret.deep_view(), program.modules@.len()),
{
    let ghost ms = program.deep_view();
    let mut table: KeyTable<Body> = KeyTable::new();
    let mut i: usize = 0;
    while i < program.modules.len()
        invariant
            i <= program.modules.len(),
            ms == program.deep_view(),
            table.deep_view() == ret_bodies(ms, ret.deep_view(), i as nat),
        decreases program.modules.len() - i,
    {
        let module = &program.modules[i];
        let ghost start = table.deep_view();
        let ghost mv = module.deep_view();
        proof {
            assert(ms[i as int] == mv);
        }
        let mut j: usize = 0;
        while j < module.ast.len()
            invariant
                j <= module.ast.len(),
                mv == module.deep_view(),
                table.deep_view() == module_bodies(start, ret.deep_view(), mv, j as nat),
            decreases module.ast.len() - j,
        {
            proof {
                assert(mv.ast[j as int] == module.ast@[j as int].deep_view());
            }
            if let Item::Machine(m) = &module.ast[j].inner {
                let key = RetKey {
                    module: module.path.dup(),
                    name: m.inner.ident.inner.0.clone(),
                };
                if ret.get(&key).is_some() {
                    let body = machine_statements(&m.inner);
                    table.insert(key, body);
                }
            }
            j = j + 1;
        }
        i = i + 1;
    }
    table
}

fn retain_pure(
    keys: &Vec<RetKey>,
    bodies: &KeyTable<Body>,
    ret: &KeyTable<String>,
) -> (r: Vec<RetKey>)
    ensures
        r.deep_view() == pure_among(
            keys.deep_view(),
            keys@.len(),
            bodies.deep_view(),
            keys.deep_view(),
            keys_of(ret.deep_view()),
        ),
{
    let ghost kv = keys.deep_view();
    let property = Pure { pure: keys, ret };
    let mut out: Vec<RetKey> = Vec::new();
    let mut i: usize = 0;
    proof {
        assert(out.deep_view() =~= Seq::<RetKeyV>::empty());
    }
    while i < keys.len()
        invariant
            i <= keys.len(),
            kv == keys.deep_view(),
            property.ask() == purity(kv, keys_of(ret.deep_view())),
            out.deep_view() == pure_among(
                kv,
                i as nat,
                bodies.deep_view(),
                kv,
                keys_of(ret.deep_view()),
            ),
        decreases keys.len() - i,
    {
        proof {
            assert(kv[i as int] == keys@[i as int].deep_view());
        }
        let keep = match bodies.get(&keys[i]) {
            Some(body) => check_all(&property, &body.0),
            None => false,
        };
        if keep {
            let ghost before = out.deep_view();
            out.push(keys[i].dup());
            proof {
                assert(out.deep_view() =~= before.push(kv[i as int]));
            }
        }
        i = i + 1;
    }
    out
}

/// The pure ret-machines of a program.  None of them calls itself, directly
/// or through others.
pub open spec fn pure_machines(ms: Seq<ModuleV>, ret: Seq<(RetKeyV, Text)>) -> Seq<RetKeyV> {
    let bodies = ret_bodies(ms, ret, ms.len());
    recursion::straight(pure_keys(keys_of(bodies), bodies, keys_of(ret)), bodies)
}

/// Detect ret-machines whose bodies are pure: no `wait`, no `pin`, no
/// `self()`, no spawn-style call, no I/O.  Calls to other pure ret-machines
/// are allowed, but only non-recursive ones.  Initially every ret-machine is
/// taken to be pure; those with disallowed shapes are struck out until nothing
/// changes, and then those that reach themselves.
pub fn collect_pure_ret_machines(
    program: &ParsedProgram,
    ret_machines: &KeyTable<String>,
) -> (r: Vec<RetKey>)
    ensures
        r.deep_view() == pure_machines(program.deep_view(), ret_machines.deep_view()),
{
    let bodies = collect_bodies(program, ret_machines);
    let ghost bv = bodies.deep_view();
    let ghost rv = keys_of(ret_machines.deep_view());
    let mut keys: Vec<RetKey> = Vec::new();
    let mut i: usize = 0;
    while i < bodies.entries.len()
        invariant
            i <= bodies.entries.len(),
            keys@.len() == i,
            forall|j: int|
                0 <= j < i ==> (#[trigger] keys@[j]).deep_view()
                    == bodies.entries@[j].0.deep_view(),
        decreases bodies.entries.len() - i,
    {
        keys.push(bodies.entries[i].0.dup());
        i = i + 1;
    }
    proof {
        assert(keys.deep_view() =~= keys_of(bv));
    }
    loop
        invariant
            bv == bodies.deep_view(),
            rv == keys_of(ret_machines.deep_view()),
            pure_keys(keys.deep_view(), bv, rv) == pure_keys(keys_of(bv), bv, rv),
        ensures
            keys.deep_view() == pure_keys(keys_of(bv), bv, rv),
        decreases keys@.len(),
    {
        let next = retain_pure(&keys, &bodies, ret_machines);
        if next.len() >= keys.len() {
            break ;
        }
        keys = next;
    }
    recursion::strike_recursive(keys, &bodies)
}

// ── inlineable bodies ──────────────────────────────────────────────────────

/// What is needed to inline a pure machine: its parameters, its statements
/// and the module it was written in.
pub struct PureBodyTemplate {
    pub params: Vec<Spanned<Pattern>>,
    pub body: Vec<Spanned<Expr>>,
    pub origin_module: ModuleId,
}

#[verifier::ext_equal]
pub struct TemplateV {
    pub params: Seq<Spanned<PatternV>>,
    pub body: Seq<Tree>,
    pub origin_module: ModuleId,
}

impl DeepView for PureBodyTemplate {
    type V = TemplateV;

    open spec fn deep_view(&self) -> TemplateV {
        TemplateV {
            params: ast::patterns_view(self.params@),
            body: expr::trees(self.body@),
            origin_module: self.origin_module,
        }
    }
}

/// The constants among the first `n` items of a module.
pub open spec fn module_consts(items: Seq<Spanned<ItemV>>, n: nat) -> Map<Text, Tree>
    decreases n,
{
    if n == 0 {
        Map::empty()
    } else {
        let rest = module_consts(items, (n - 1) as nat);
        match items[n - 1].inner {
            ItemV::Const(c) => rest.insert(c.inner.ident.inner, c.inner.value),
            _ => rest,
        }
    }
}

/// The constants of a module, with their values.
pub fn collect_module_consts(module: &ParsedModule) -> (r: NameMap<Spanned<Expr>>)
    ensures
        crate::lowering::passes::const_trees(r) == module_consts(
            module.deep_view().ast,
            module.ast@.len(),
        ),
{
    let ghost items = module.deep_view().ast;
    let mut out: NameMap<Spanned<Expr>> = NameMap::new();
    let mut i: usize = 0;
    proof {
        assert(crate::lowering::passes::const_trees(out) =~= Map::<Text, Tree>::empty());
    }
    while i < module.ast.len()
        invariant
            i <= module.ast.len(),
            items == module.deep_view().ast,
            crate::lowering::passes::const_trees(out) == module_consts(items, i as nat),
        decreases module.ast.len() - i,
    {
        proof {
            assert(items[i as int] == module.ast@[i as int].deep_view());
        }
        if let Item::Const(c) = &module.ast[i].inner {
            let ghost before = crate::lowering::passes::const_trees(out);
            let value = dup_expr(&c.inner.value);
            out.insert(c.inner.ident.inner.0.clone(), value);
            proof {
                assert(crate::lowering::passes::const_trees(out) =~= before.insert(
                    c.inner.ident.inner.0@,
                    expr::tree_of(c.inner.value),
                ));
            }
        }
        i = i + 1;
    }
    out
}

/// The branches among the first `n` machine items.
pub open spec fn branches_of(items: Seq<Spanned<MachineItemV>>, n: nat) -> Seq<BranchV>
    decreases n,
{
    if n == 0 {
        Seq::empty()
    } else {
        let rest = branches_of(items, (n - 1) as nat);
        match items[n - 1].inner {
            MachineItemV::Branch(b) => rest.push(b),
            MachineItemV::Field(_) => rest,
        }
    }
}

/// The template of a machine with a single branch whose canonical body is
/// simple: constants of the module are put in.
pub open spec fn template_of(m: MachineV, consts: Map<Text, Tree>, id: ModuleId) -> Option<
    TemplateV,
> {
    let bs = branches_of(m.items, m.items.len());
    if bs.len() == 1 && is_simple(canonical(bs[0].body)) {
        Some(
            TemplateV {
                params: bs[0].head.patterns,
                body: rewrite::rewritten_all(
                    crate::lowering::passes::consts_rule(consts),
                    canonical(bs[0].body),
                ),
                origin_module: id,
            },
        )
    } else {
        None
    }
}

fn only_branch<'a>(m: &'a Machine) -> (r: Option<&'a Branch>)
    ensures
        match r {
            Some(b) => branches_of(m.deep_view().items, m.items@.len()) == seq![b.deep_view()],
            None => branches_of(m.deep_view().items, m.items@.len()).len() != 1,
        },
{
    let ghost items = m.deep_view().items;
    let mut found: Option<&'a Branch> = None;
    let mut count: usize = 0;
    let mut i: usize = 0;
    while i < m.items.len()
        invariant
            i <= m.items.len(),
            items == m.deep_view().items,
            count == branches_of(items, i as nat).len(),
            count <= i,
            count == 1 ==> found is Some && branches_of(items, i as nat) == seq![
                found->0.deep_view(),
            ],
        decreases m.items.len() - i,
    {
        proof {
            assert(items[i as int] == m.items@[i as int].deep_view());
        }
        if let MachineItem::Branch(b) = &m.items[i].inner {
            found = Some(b);
            count = count + 1;
            proof {
                if count == 1 {
                    assert(branches_of(items, (i + 1) as nat) =~= seq![b.deep_view()]);
                }
            }
        }
        i = i + 1;
    }
    if count == 1 {
        found
    } else {
        None
    }
}

fn build_template(m: &Machine, consts: &NameMap<Spanned<Expr>>, id: ModuleId) -> (r: Option<
    PureBodyTemplate,
>)
    ensures
        r.deep_view() == template_of(
            m.deep_view(),
            crate::lowering::passes::const_trees(*consts),
            id,
        ),
{
    match only_branch(m) {
        None => None,
        Some(branch) => {
            let body = canonicalise_let_ret(dup_exprs(&branch.body));
            if !is_simple_pure_body(&body) {
                return None;
            }
            let pass = ModuleConsts { consts };
            let body = rewrite_all(&pass, body);
            Some(
                PureBodyTemplate {
                    params: ast::dup_patterns(&branch.patterns),
                    body,
                    origin_module: id,
                },
            )
        },
    }
}

/// The templates of the pure machines among the first `n` items of a module.
pub open spec fn module_templates(
    table: Seq<(RetKeyV, TemplateV)>,
    pure: Seq<RetKeyV>,
    m: ModuleV,
    id: ModuleId,
    n: nat,
) -> Seq<(RetKeyV, TemplateV)>
    decreases n,
{
    if n == 0 {
        table
    } else {
        let before = module_templates(table, pure, m, id, (n - 1) as nat);
        match m.ast[n - 1].inner {
            ItemV::Machine(mach) => {
                let key = RetKeyV { module: m.path, name: mach.inner.ident.inner };
                if pure.contains(key) {
                    match template_of(mach.inner, module_consts(m.ast, m.ast.len()), id) {
                        Some(t) => key_insert(before, key, t),
                        None => before,
                    }
                } else {
                    before
                }
            },
            _ => before,
        }
    }
}

/// The templates of the pure machines of the first `n` modules.
pub open spec fn templates_of(
    ms: Seq<ModuleV>,
    pure: Seq<RetKeyV>,
    reg: RegistryV,
    n: nat,
) -> Seq<(RetKeyV, TemplateV)>
    decreases n,
{
    if n == 0 {
        Seq::empty()
    } else {
        module_templates(
            templates_of(ms, pure, reg, (n - 1) as nat),
            pure,
            ms[n - 1],
            reg.id_for_path(ms[n - 1].path)->0,
            ms[n - 1].ast.len(),
        )
    }
}

pub fn has_key(keys: &Vec<RetKey>, key: &RetKey) -> (r: bool)
    ensures
        r == keys.deep_view().contains(key.deep_view()),
{
    let ghost ks = keys.deep_view();
    let mut i: usize = 0;
    while i < keys.len()
        invariant
            i <= keys.len(),
            ks == keys.deep_view(),
            forall|j: int| 0 <= j < i ==> ks[j] != key.deep_view(),
        decreases keys.len() - i,
    {
        if keys[i].is_same(key) {
            proof {
                assert(ks[i as int] == key.deep_view());
            }
            return true;
        }
        i = i + 1;
    }
    false
}

/// Whether every module of a program is registered.
pub open spec fn all_registered(ms: Seq<ModuleV>, reg: RegistryV) -> bool {
    forall|i: int| 0 <= i < ms.len() ==> reg.id_for_path((#[trigger] ms[i]).path) is Some
}

/// The inlineable machines: pure, with one branch whose only `ret` comes
/// last.
pub fn collect_pure_bodies(
    program: &ParsedProgram,
    pure_set: &Vec<RetKey>,
    registry: &ProgramRegistry,
) -> (r: KeyTable<PureBodyTemplate>)
    requires
        registry.deep_view().wf(),
        all_registered(program.deep_view(), registry.deep_view()),
    ensures
        r.deep_view() == templates_of(
            program.deep_view(),
            pure_set.deep_view(),
            registry.deep_view(),
            program.modules@.len(),
        ),
{
    let ghost ms = program.deep_view();
    let ghost pv = pure_set.deep_view();
    let ghost reg = registry.deep_view();
    let mut table: KeyTable<PureBodyTemplate> = KeyTable::new();
    let mut i: usize = 0;
    while i < program.modules.len()
        invariant
            i <= program.modules.len(),
            ms == program.deep_view(),
            pv == pure_set.deep_view(),
            reg == registry.deep_view(),
            reg.wf(),
            all_registered(ms, reg),
            table.deep_view() == templates_of(ms, pv, reg, i as nat),
        decreases program.modules.len() - i,
    {
        let module = &program.modules[i];
        let ghost start = table.deep_view();
        let ghost mv = module.deep_view();
        proof {
            assert(ms[i as int] == mv);
        }
        let consts = collect_module_consts(module);
        let id = registry.module_id_for_path(&module.path).unwrap();
        let mut j: usize = 0;
        while j < module.ast.len()
            invariant
                j <= module.ast.len(),
                mv == module.deep_view(),
                pv == pure_set.deep_view(),
                crate::lowering::passes::const_trees(consts) == module_consts(
                    mv.ast,
                    mv.ast.len(),
                ),
                table.deep_view() == module_templates(start, pv, mv, id, j as nat),
            decreases module.ast.len() - j,
        {
            proof {
                assert(mv.ast[j as int] == module.ast@[j as int].deep_view());
            }
            if let Item::Machine(m) = &module.ast[j].inner {
                let key = RetKey {
                    module: module.path.dup(),
                    name: m.inner.ident.inner.0.clone(),
                };
                if has_key(pure_set, &key) {
                    if let Some(template) = build_template(&m.inner, &consts, id) {
                        table.insert(key, template);
                    }
                }
            }
            j = j + 1;
        }
        i = i + 1;
    }
    table
}

} // verus!
