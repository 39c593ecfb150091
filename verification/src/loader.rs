//! Loading the modules of a program.
//!
//! Loading walks the import graph from the entry file on: it asks for one
//! file after the other, finds cycles, and gathers the texts.  The files come
//! in as a list of what is known of the disk; where a file is needed that is
//! not in the list, loading says so, and is run again when it is.

use vstd::prelude::*;

use crate::api::ast;
use crate::api::ast::{Import, ImportV, Item, ItemV};
use crate::error_handle;
use crate::error_handle::{ErrorV, LakeError, LakeErrors, Report};
use crate::prelude;
use crate::registry;
use crate::registry::ModulePath;
use crate::span::{SimpleSpan, Spanned};
use crate::text::{cat, cat3, chars_of, dup_texts, same, Text};

verus! {

/// A module whose source has been parsed.
#[derive(Debug, PartialEq)]
pub struct ParsedModule {
    pub path: ModulePath,
    pub source_path: String,
    pub ast: Vec<Spanned<Item>>,
}

#[verifier::ext_equal]
pub struct ModuleV {
    pub path: Seq<Text>,
    pub source_path: Text,
    pub ast: Seq<Spanned<ItemV>>,
}

impl DeepView for ParsedModule {
    type V = ModuleV;

    open spec fn deep_view(&self) -> ModuleV {
        ModuleV {
            path: self.path.deep_view(),
            source_path: self.source_path@,
            ast: self.ast.deep_view(),
        }
    }
}

/// The parsed modules of a program.
#[derive(Debug, PartialEq)]
pub struct ParsedProgram {
    pub modules: Vec<ParsedModule>,
}

impl DeepView for ParsedProgram {
    type V = Seq<ModuleV>;

    open spec fn deep_view(&self) -> Seq<ModuleV> {
        self.modules.deep_view()
    }
}

/// The first module from `from` on with the given path.
pub open spec fn module_at(mods: Seq<ModuleV>, path: Seq<Text>, from: nat) -> Option<int>
    decreases mods.len() - from,
{
    if from >= mods.len() {
        None
    } else if mods[from as int].path == path {
        Some(from as int)
    } else {
        module_at(mods, path, from + 1)
    }
}

/// Whether two paths are the same.
pub fn same_path(a: &ModulePath, b: &ModulePath) -> (r: bool)
    ensures
        r == (a.deep_view() == b.deep_view()),
{
    let ghost x = a.deep_view();
    let ghost y = b.deep_view();
    if a.0.len() != b.0.len() {
        proof {
            assert(x.len() != y.len());
        }
        return false;
    }
    let mut i: usize = 0;
    while i < a.0.len()
        invariant
            i <= a.0@.len(),
            a.0@.len() == b.0@.len(),
            x == a.deep_view(),
            y == b.deep_view(),
            forall|j: int| 0 <= j < i ==> x[j] == y[j],
        decreases a.0@.len() - i,
    {
        if !same(a.0[i].as_str(), b.0[i].as_str()) {
            proof {
                assert(x[i as int] != y[i as int]);
            }
            return false;
        }
        i = i + 1;
    }
    proof {
        assert(x =~= y);
    }
    true
}

impl ParsedProgram {
    /// The module with the given path.
    pub fn by_path(&self, path: &ModulePath) -> (r: Option<&ParsedModule>)
        ensures
            match r {
                Some(m) => {
                    &&& module_at(self.deep_view(), path.deep_view(), 0) is Some
                    &&& m.deep_view() == self.deep_view()[module_at(
                        self.deep_view(),
                        path.deep_view(),
                        0,
                    )->0]
                },
                None => module_at(self.deep_view(), path.deep_view(), 0) is None,
            },
    {
        let mut i: usize = 0;
        while i < self.modules.len()
            invariant
                i <= self.modules@.len(),
                module_at(self.deep_view(), path.deep_view(), 0) == module_at(
                    self.deep_view(),
                    path.deep_view(),
                    i as nat,
                ),
            decreases self.modules@.len() - i,
        {
            proof {
                assert(self.deep_view()[i as int] == self.modules@[i as int].deep_view());
            }
            if same_path(&self.modules[i].path, path) {
                return Some(&self.modules[i]);
            }
            i = i + 1;
        }
        None
    }

    /// The entry module, which is loaded first.
    pub fn root(&self) -> (r: &ParsedModule)
        requires
            self.deep_view().len() > 0,
        ensures
            r.deep_view() == self.deep_view()[0],
    {
        &self.modules[0]
    }
}

// ── the modules that a file refers to ──────────────────────────────────────

/// Whether `a` comes before `b` in the order of their characters.
pub open spec fn text_before(a: Text, b: Text) -> bool
    decreases a.len(),
{
    if b.len() == 0 {
        false
    } else if a.len() == 0 {
        true
    } else if a[0] != b[0] {
        a[0] < b[0]
    } else {
        text_before(a.skip(1), b.skip(1))
    }
}

/// Whether `a` comes before `b` in the order of their segments.
pub open spec fn path_before(a: Seq<Text>, b: Seq<Text>) -> bool
    decreases a.len(),
{
    if b.len() == 0 {
        false
    } else if a.len() == 0 {
        true
    } else if a[0] != b[0] {
        text_before(a[0], b[0])
    } else {
        path_before(a.skip(1), b.skip(1))
    }
}

/// Exactly one of two different texts comes before the other.
pub proof fn texts_are_ordered(a: Text, b: Text)
    ensures
        !(text_before(a, b) && text_before(b, a)),
        !text_before(a, a),
        a != b ==> text_before(a, b) || text_before(b, a),
    decreases a.len(),
{
    if a.len() > 0 {
        texts_are_ordered(a.skip(1), a.skip(1));
    }
    if a.len() > 0 && b.len() > 0 && a[0] == b[0] {
        texts_are_ordered(a.skip(1), b.skip(1));
        if a.skip(1) == b.skip(1) {
            assert(a =~= seq![a[0]] + a.skip(1));
            assert(b =~= seq![b[0]] + b.skip(1));
        }
    } else if a.len() == 0 && b.len() == 0 {
        assert(a =~= b);
    }
}

/// Exactly one of two different paths comes before the other.
pub proof fn paths_are_ordered(a: Seq<Text>, b: Seq<Text>)
    ensures
        !(path_before(a, b) && path_before(b, a)),
        !path_before(a, a),
        a != b ==> path_before(a, b) || path_before(b, a),
    decreases a.len(),
{
    if a.len() > 0 {
        paths_are_ordered(a.skip(1), a.skip(1));
        if b.len() > 0 {
            texts_are_ordered(a[0], b[0]);
        }
    }
    if a.len() > 0 && b.len() > 0 && a[0] == b[0] {
        paths_are_ordered(a.skip(1), b.skip(1));
        if a.skip(1) == b.skip(1) {
            assert(a =~= seq![a[0]] + a.skip(1));
            assert(b =~= seq![b[0]] + b.skip(1));
        }
    } else if a.len() == 0 && b.len() == 0 {
        assert(a =~= b);
    }
}

/// `p` put into its place among paths in order; once is enough.
pub open spec fn placed(ps: Seq<Seq<Text>>, p: Seq<Text>) -> Seq<Seq<Text>>
    decreases ps.len(),
{
    if ps.len() == 0 {
        seq![p]
    } else if ps[0] == p {
        ps
    } else if path_before(p, ps[0]) {
        seq![p] + ps
    } else {
        seq![ps[0]] + placed(ps.skip(1), p)
    }
}

/// `found` with the modules that an import refers to.  The last name of a
/// path is an item; the names before it are the module.
pub open spec fn import_targets(i: ImportV, prefix: Seq<Text>, found: Seq<Seq<Text>>) -> Seq<
    Seq<Text>,
>
    decreases i,
{
    match i {
        ImportV::Import(id, Some(next), _) => import_targets(
            next.inner,
            prefix.push(id.inner),
            found,
        ),
        ImportV::Import(_, None, _) => if prefix.len() > 0 {
            placed(found, prefix)
        } else {
            found
        },
        ImportV::MultiImport(entries) => entry_targets(entries, entries.len(), prefix, found),
    }
}

pub open spec fn entry_targets(
    entries: Seq<Spanned<ImportV>>,
    n: nat,
    prefix: Seq<Text>,
    found: Seq<Seq<Text>>,
) -> Seq<Seq<Text>>
    decreases entries, n,
{
    if n == 0 || n > entries.len() {
        found
    } else {
        import_targets(
            entries[n - 1].inner,
            prefix,
            entry_targets(entries, (n - 1) as nat, prefix, found),
        )
    }
}

/// The modules that the first `n` items refer to, in order and once each.
pub open spec fn referenced(items: Seq<Spanned<ItemV>>, n: nat) -> Seq<Seq<Text>>
    decreases n,
{
    if n == 0 {
        Seq::empty()
    } else {
        let before = referenced(items, (n - 1) as nat);
        match items[n - 1].inner {
            ItemV::Import(i) => import_targets(i.inner, Seq::empty(), before),
            _ => before,
        }
    }
}

/// Whether paths are in order, each one before the next.
pub open spec fn ascending(ps: Seq<Seq<Text>>) -> bool {
    forall|i: int| 0 <= i < ps.len() - 1 ==> #[trigger] path_before(ps[i], ps[i + 1])
}

/// Putting a path into its place keeps the order and the other paths.
pub proof fn placed_keeps_order(ps: Seq<Seq<Text>>, p: Seq<Text>)
    requires
        ascending(ps),
    ensures
        ascending(placed(ps, p)),
        forall|q: Seq<Text>| #[trigger] placed(ps, p).contains(q) <==> ps.contains(q) || q == p,
        placed(ps, p).len() > 0,
        placed(ps, p)[0] == p || ps.len() > 0 && placed(ps, p)[0] == ps[0],
    decreases ps.len(),
{
    let out = placed(ps, p);
    if ps.len() == 0 {
        assert(out[0] == p);
        assert forall|q: Seq<Text>| out.contains(q) <==> ps.contains(q) || q == p by {
            if q == p {
                assert(out[0] == q);
            }
        }
    } else if ps[0] == p {
        assert(ps.contains(p));
    } else if path_before(p, ps[0]) {
        assert forall|i: int| 0 <= i < out.len() - 1 implies #[trigger] path_before(
            out[i],
            out[i + 1],
        ) by {
            if i > 0 {
                assert(out[i] == ps[i - 1]);
                assert(out[i + 1] == ps[i - 1 + 1]);
                assert(path_before(ps[i - 1], ps[i - 1 + 1]));
            } else {
                assert(out[1] == ps[0]);
            }
        }
        assert forall|q: Seq<Text>| out.contains(q) <==> ps.contains(q) || q == p by {
            if ps.contains(q) {
                let k = ps.index_of(q);
                assert(out[k + 1] == q);
            }
            if q == p {
                assert(out[0] == q);
            }
            if out.contains(q) {
                let k = out.index_of(q);
                if k > 0 {
                    assert(ps[k - 1] == q);
                }
            }
        }
    } else {
        let tail = ps.skip(1);
        let rest = placed(tail, p);
        assert forall|i: int| 0 <= i < tail.len() - 1 implies #[trigger] path_before(
            tail[i],
            tail[i + 1],
        ) by {
            assert(path_before(ps[i + 1], ps[i + 1 + 1]));
        }
        placed_keeps_order(tail, p);
        paths_are_ordered(p, ps[0]);
        assert(path_before(ps[0], p));
        assert forall|i: int| 0 <= i < out.len() - 1 implies #[trigger] path_before(
            out[i],
            out[i + 1],
        ) by {
            if i > 0 {
                assert(out[i] == rest[i - 1]);
                assert(out[i + 1] == rest[i - 1 + 1]);
                assert(path_before(rest[i - 1], rest[i - 1 + 1]));
            } else {
                assert(out[1] == rest[0]);
                if rest[0] != p {
                    assert(path_before(ps[0], ps[0 + 1int]));
                }
            }
        }
        assert forall|q: Seq<Text>| out.contains(q) <==> ps.contains(q) || q == p by {
            if ps.contains(q) {
                let k = ps.index_of(q);
                if k == 0 {
                    assert(out[0] == q);
                } else {
                    assert(tail[k - 1] == q);
                    assert(tail.contains(q));
                }
            }
            if rest.contains(q) {
                let k = rest.index_of(q);
                assert(out[k + 1] == q);
            }
            if out.contains(q) {
                let k = out.index_of(q);
                if k > 0 {
                    assert(rest[k - 1] == q);
                    assert(rest.contains(q));
                    if tail.contains(q) {
                        let m = tail.index_of(q);
                        assert(ps[m + 1] == q);
                    }
                } else {
                    assert(ps[0] == q);
                }
            }
        }
    }
}

/// The modules that items refer to come in order, so each of them once.
pub proof fn referenced_modules_are_in_order(items: Seq<Spanned<ItemV>>, n: nat)
    requires
        n <= items.len(),
    ensures
        ascending(referenced(items, n)),
    decreases n,
{
    if n > 0 {
        referenced_modules_are_in_order(items, (n - 1) as nat);
        match items[n - 1].inner {
            ItemV::Import(i) => {
                import_targets_in_order(
                    i.inner,
                    Seq::empty(),
                    referenced(items, (n - 1) as nat),
                );
            },
            _ => {},
        }
    }
}

proof fn import_targets_in_order(i: ImportV, prefix: Seq<Text>, found: Seq<Seq<Text>>)
    requires
        ascending(found),
    ensures
        ascending(import_targets(i, prefix, found)),
    decreases i,
{
    match i {
        ImportV::Import(id, Some(next), _) => {
            import_targets_in_order(next.inner, prefix.push(id.inner), found);
        },
        ImportV::Import(_, None, _) => {
            placed_keeps_order(found, prefix);
        },
        ImportV::MultiImport(entries) => {
            entry_targets_in_order(entries, entries.len(), prefix, found);
        },
    }
}

proof fn entry_targets_in_order(
    entries: Seq<Spanned<ImportV>>,
    n: nat,
    prefix: Seq<Text>,
    found: Seq<Seq<Text>>,
)
    requires
        ascending(found),
    ensures
        ascending(entry_targets(entries, n, prefix, found)),
    decreases entries, n,
{
    if 0 < n <= entries.len() {
        entry_targets_in_order(entries, (n - 1) as nat, prefix, found);
        import_targets_in_order(
            entries[n - 1].inner,
            prefix,
            entry_targets(entries, (n - 1) as nat, prefix, found),
        );
    }
}

fn comes_before(a: &Vec<char>, b: &Vec<char>) -> (r: bool)
    ensures
        r == text_before(a@, b@),
{
    let mut i: usize = 0;
    proof {
        assert(a@.skip(0) =~= a@);
        assert(b@.skip(0) =~= b@);
    }
    while i < a.len() && i < b.len() && a[i] == b[i]
        invariant
            i <= a@.len(),
            i <= b@.len(),
            text_before(a@, b@) == text_before(a@.skip(i as int), b@.skip(i as int)),
        decreases a@.len() - i,
    {
        proof {
            assert(a@.skip(i as int).skip(1) =~= a@.skip(i + 1));
            assert(b@.skip(i as int).skip(1) =~= b@.skip(i + 1));
        }
        i = i + 1;
    }
    if i >= b.len() {
        false
    } else if i >= a.len() {
        true
    } else {
        proof {
            assert(a@.skip(i as int)[0] == a@[i as int]);
            assert(b@.skip(i as int)[0] == b@[i as int]);
        }
        a[i] < b[i]
    }
}

fn path_comes_before(a: &ModulePath, b: &ModulePath) -> (r: bool)
    ensures
        r == path_before(a.deep_view(), b.deep_view()),
{
    let ghost x = a.deep_view();
    let ghost y = b.deep_view();
    let mut i: usize = 0;
    proof {
        assert(x.skip(0) =~= x);
        assert(y.skip(0) =~= y);
    }
    while i < a.0.len() && i < b.0.len() && same(a.0[i].as_str(), b.0[i].as_str())
        invariant
            i <= a.0@.len(),
            i <= b.0@.len(),
            x == a.deep_view(),
            y == b.deep_view(),
            path_before(x, y) == path_before(x.skip(i as int), y.skip(i as int)),
        decreases a.0@.len() - i,
    {
        proof {
            assert(x.skip(i as int).skip(1) =~= x.skip(i + 1));
            assert(y.skip(i as int).skip(1) =~= y.skip(i + 1));
            assert(x[i as int] == a.0@[i as int]@);
            assert(y[i as int] == b.0@[i as int]@);
        }
        i = i + 1;
    }
    if i >= b.0.len() {
        false
    } else if i >= a.0.len() {
        true
    } else {
        proof {
            assert(x.skip(i as int)[0] == a.0@[i as int]@);
            assert(y.skip(i as int)[0] == b.0@[i as int]@);
        }
        comes_before(&chars_of(a.0[i].as_str()), &chars_of(b.0[i].as_str()))
    }
}

fn place(given: Vec<ModulePath>, p: ModulePath) -> (r: Vec<ModulePath>)
    ensures
        r.deep_view() == placed(given.deep_view(), p.deep_view()),
{
    let ghost ps = given.deep_view();
    let ghost pv = p.deep_view();
    let mut paths = given;
    let mut i: usize = 0;
    proof {
        assert(ps.take(0) + placed(ps.skip(0), pv) =~= placed(ps, pv)) by {
            assert(ps.skip(0) =~= ps);
        }
    }
    while i < paths.len()
        invariant
            i <= paths@.len(),
            ps == given.deep_view(),
            ps == paths.deep_view(),
            pv == p.deep_view(),
            placed(ps, pv) == ps.take(i as int) + placed(ps.skip(i as int), pv),
        decreases paths@.len() - i,
    {
        let ghost rest = ps.skip(i as int);
        proof {
            assert(rest[0] == paths@[i as int].deep_view());
        }
        if same_path(&paths[i], &p) {
            proof {
                assert(ps.take(i as int) + rest =~= ps);
            }
            return paths;
        }
        if path_comes_before(&p, &paths[i]) {
            paths.insert(i, p);
            proof {
                assert(paths.deep_view() =~= ps.take(i as int) + (seq![pv] + rest));
            }
            return paths;
        }
        proof {
            assert(rest.skip(1) =~= ps.skip(i + 1));
            assert(ps.take(i as int) + (seq![rest[0]] + placed(rest.skip(1), pv)) =~= ps.take(i + 1)
                + placed(ps.skip(i + 1), pv));
        }
        i = i + 1;
    }
    paths.push(p);
    proof {
        assert(ps.skip(i as int) =~= Seq::<Seq<Text>>::empty());
        assert(paths.deep_view() =~= ps.take(i as int) + seq![pv]);
    }
    paths
}

/// Adds the modules that an import refers to.
fn collect_from_import(node: &Import, prefix: &Vec<String>, found: Vec<ModulePath>) -> (r: Vec<
    ModulePath,
>)
    ensures
        r.deep_view() == import_targets(
            ast::import_view(*node),
            prefix.deep_view(),
            found.deep_view(),
        ),
    decreases ast::import_view(*node), 0nat,
{
    let ghost v = ast::import_view(*node);
    match node {
        Import::Import(ident, next, _) => match next {
            Some(n) => {
                let mut longer = dup_texts(prefix);
                let ghost before = longer.deep_view();
                longer.push(ident.inner.0.clone());
                proof {
                    assert(longer.deep_view() =~= before.push(ident.inner.deep_view()));
                    let below = v->Import_1->0;
                    assert(below.inner == ast::import_view(n.inner));
                    assert(decreases_to!(v => v->Import_1));
                    assert(decreases_to!(v->Import_1 => v->Import_1->0));
                    assert(decreases_to!(v->Import_1->0 => v->Import_1->0.inner));
                }
                collect_from_import(&n.inner, &longer, found)
            },
            None => if prefix.len() > 0 {
                let p = ModulePath(dup_texts(prefix));
                place(found, p)
            } else {
                found
            },
        },
        Import::MultiImport(entries) => {
            proof {
                assert(v->MultiImport_0 == ast::imports_view(entries@));
                assert(decreases_to!(v => v->MultiImport_0));
            }
            collect_entries(entries, prefix, found)
        },
    }
}

fn collect_entries(
    entries: &Vec<Spanned<Import>>,
    prefix: &Vec<String>,
    given: Vec<ModulePath>,
) -> (r: Vec<ModulePath>)
    ensures
        r.deep_view() == entry_targets(
            ast::imports_view(entries@),
            entries@.len(),
            prefix.deep_view(),
            given.deep_view(),
        ),
    decreases ast::imports_view(entries@), 1nat,
{
    let ghost es = ast::imports_view(entries@);
    let ghost fv = given.deep_view();
    let mut found = given;
    let mut i: usize = 0;
    while i < entries.len()
        invariant
            i <= entries@.len(),
            es == ast::imports_view(entries@),
            found.deep_view() == entry_targets(es, i as nat, prefix.deep_view(), fv),
        decreases entries@.len() - i,
    {
        proof {
            assert(es[i as int].inner == ast::import_view(entries@[i as int].inner));
            assert(decreases_to!(es => es[i as int]));
            assert(decreases_to!(es[i as int] => es[i as int].inner));
        }
        found = collect_from_import(&entries[i].inner, prefix, found);
        i = i + 1;
    }
    found
}

/// The modules that the imports of a file refer to, in order and once each.
pub fn collect_referenced_modules(items: &Vec<Spanned<Item>>) -> (r: Vec<ModulePath>)
    ensures
        r.deep_view() == referenced(items.deep_view(), items.deep_view().len()),
{
    let none: Vec<String> = Vec::new();
    let mut found: Vec<ModulePath> = Vec::new();
    let mut i: usize = 0;
    proof {
        assert(found.deep_view() =~= Seq::<Seq<Text>>::empty());
        assert(none.deep_view() =~= Seq::<Text>::empty());
    }
    while i < items.len()
        invariant
            i <= items@.len(),
            none.deep_view() == Seq::<Text>::empty(),
            found.deep_view() == referenced(items.deep_view(), i as nat),
        decreases items@.len() - i,
    {
        proof {
            assert(items.deep_view()[i as int] == items@[i as int].deep_view());
        }
        if let Item::Import(import) = &items[i].inner {
            found = collect_from_import(&import.inner, &none, found);
        }
        i = i + 1;
    }
    found
}

// ── loading ────────────────────────────────────────────────────────────────

/// What is known of a file on disk.
#[derive(Debug, Clone, PartialEq)]
pub enum Content {
    /// There is a file, with this text.
    Text(String),
    /// There is a file that cannot be read, for this reason.
    Unreadable(String),
    /// There is no file; this is what reading it says.
    Absent(String),
}

#[derive(Debug, Clone, PartialEq)]
pub struct DiskFile {
    pub path: String,
    pub content: Content,
}

pub enum ContentV {
    Text(Text),
    Unreadable(Text),
    Absent(Text),
}

impl DeepView for Content {
    type V = ContentV;

    open spec fn deep_view(&self) -> ContentV {
        match *self {
            Content::Text(s) => ContentV::Text(s@),
            Content::Unreadable(s) => ContentV::Unreadable(s@),
            Content::Absent(s) => ContentV::Absent(s@),
        }
    }
}

impl DeepView for DiskFile {
    type V = (Text, ContentV);

    open spec fn deep_view(&self) -> (Text, ContentV) {
        (self.path@, self.content.deep_view())
    }
}

/// A file that has been loaded.
#[derive(Debug, Clone, PartialEq)]
pub struct LoadedFile {
    pub path: ModulePath,
    pub source_path: String,
    pub src: String,
}

#[verifier::ext_equal]
pub struct FileV {
    pub path: Seq<Text>,
    pub source_path: Text,
    pub src: Text,
}

impl DeepView for LoadedFile {
    type V = FileV;

    open spec fn deep_view(&self) -> FileV {
        FileV { path: self.path.deep_view(), source_path: self.source_path@, src: self.src@ }
    }
}

/// The texts of all files of a program.
#[derive(Debug, PartialEq)]
pub struct ProgramSources {
    files: Vec<LoadedFile>,
    /// The modules that are loaded with everything they import.
    loaded: Vec<ModulePath>,
}

impl ProgramSources {
    /// The loaded files, the entry file first.
    pub closed spec fn file_views(self) -> Seq<FileV> {
        self.files.deep_view()
    }

    pub fn files(&self) -> (r: &Vec<LoadedFile>)
        ensures
            r.deep_view() == self.file_views(),
    {
        &self.files
    }
}

/// How far loading has come.
pub enum LoadV {
    /// The files and the modules that are complete.
    Done(Seq<FileV>, Seq<Seq<Text>>),
    /// What is wrong, and the files that were read until then.
    Failed(Seq<ErrorV>, Seq<FileV>),
    /// Nothing is known of this file yet.
    Needs(Text),
}

/// The first known thing from `from` on about a path.
pub open spec fn known(disk: Seq<(Text, ContentV)>, path: Text, from: nat) -> Option<ContentV>
    decreases disk.len() - from,
{
    if from >= disk.len() {
        None
    } else if disk[from as int].0 == path {
        Some(disk[from as int].1)
    } else {
        known(disk, path, from + 1)
    }
}

/// A path below a directory.
pub open spec fn below(root: Text, rel: Text) -> Text {
    if root.len() == 0 || root.last() == '/' {
        root + rel
    } else {
        root + "/"@ + rel
    }
}

/// The place of complaints that no source position goes with.
pub open spec fn nowhere() -> SimpleSpan {
    SimpleSpan { start: 0, end: 0 }
}

pub open spec fn cycle_error(path: Seq<Text>) -> ErrorV {
    error_handle::helped_error(
        "import cycle detected at module `"@ + registry::path_text(path) + "`"@,
        nowhere(),
        "M001"@,
        "break the cycle by removing one of the import edges"@,
    )
}

pub open spec fn missing_error(path: Seq<Text>, root: Text) -> ErrorV {
    error_handle::helped_error(
        "module `"@ + registry::path_text(path) + "` not found (looked for `"@
            + registry::file_path(path) + "` under `"@ + root + "`)"@,
        nowhere(),
        "M002"@,
        "create the missing file, or set LAKE_PATH / <name>_PATH to point at the directory containing the library"@,
    )
}

pub open spec fn io_error(file: Text, message: Text) -> ErrorV {
    error_handle::coded_error(
        "could not read `"@ + file + "`: "@ + message,
        nowhere(),
        "M003"@,
    )
}

/// Where the file of a module is.
#[verifier::ext_equal]
pub enum FoundV {
    At(Text),
    /// A file that has to be looked at first.
    Needs(Text),
    Missing,
}

/// Where the file of a module is below `root`: the file that is named like
/// the module or, where there is none, `mod.lake` in the directory that is.
pub open spec fn found(disk: Seq<(Text, ContentV)>, root: Text, path: Seq<Text>) -> FoundV {
    let file = below(root, registry::file_path(path));
    match known(disk, file, 0) {
        None => FoundV::Needs(file),
        Some(ContentV::Absent(_)) => {
            let inside = below(root, registry::mod_file_path(path));
            match known(disk, inside, 0) {
                None => FoundV::Needs(inside),
                Some(ContentV::Absent(_)) => FoundV::Missing,
                Some(_) => FoundV::At(inside),
            }
        },
        Some(_) => FoundV::At(file),
    }
}

/// Loads one module from `file`, with everything it imports.  `open` are the
/// modules on the way to it: meeting one of them again is a cycle.  A module
/// that is complete is not loaded again.  `fuel` bounds the length of that
/// way.
pub open spec fn load_module(
    disk: Seq<(Text, ContentV)>,
    root: Text,
    path: Seq<Text>,
    file: Text,
    files: Seq<FileV>,
    loaded: Seq<Seq<Text>>,
    open: Seq<Seq<Text>>,
    fuel: nat,
) -> LoadV
    decreases fuel, 0nat,
{
    if fuel == 0 || open.contains(path) {
        LoadV::Failed(seq![cycle_error(path)], files)
    } else if loaded.contains(path) {
        LoadV::Done(files, loaded)
    } else {
        match known(disk, file, 0) {
            None => LoadV::Needs(file),
            Some(ContentV::Unreadable(m)) => LoadV::Failed(seq![io_error(file, m)], files),
            Some(ContentV::Absent(m)) => LoadV::Failed(seq![io_error(file, m)], files),
            Some(ContentV::Text(src)) => match prelude::parse_result(src) {
                Err(es) => LoadV::Failed(
                    error_handle::tagged_all(es, file),
                    files.push(FileV { path, source_path: file, src }),
                ),
                Ok(items) => match load_imports(
                    disk,
                    root,
                    referenced(items, items.len()),
                    0,
                    files.push(FileV { path, source_path: file, src }),
                    loaded,
                    open.push(path),
                    (fuel - 1) as nat,
                ) {
                    LoadV::Done(fs, done) => LoadV::Done(fs, done.push(path)),
                    other => other,
                },
            },
        }
    }
}

/// Loads the modules from the `k`-th on, one after the other.  The file of a
/// module is looked for below `root`.
pub open spec fn load_imports(
    disk: Seq<(Text, ContentV)>,
    root: Text,
    mods: Seq<Seq<Text>>,
    k: nat,
    files: Seq<FileV>,
    loaded: Seq<Seq<Text>>,
    open: Seq<Seq<Text>>,
    fuel: nat,
) -> LoadV
    decreases fuel, mods.len() - k + 1,
{
    if k >= mods.len() {
        LoadV::Done(files, loaded)
    } else {
        match found(disk, root, mods[k as int]) {
            FoundV::Needs(file) => LoadV::Needs(file),
            FoundV::Missing => LoadV::Failed(seq![missing_error(mods[k as int], root)], files),
            FoundV::At(file) => match load_module(
                disk,
                root,
                mods[k as int],
                file,
                files,
                loaded,
                open,
                fuel,
            ) {
                LoadV::Done(fs, done) => load_imports(
                    disk,
                    root,
                    mods,
                    k + 1,
                    fs,
                    done,
                    open,
                    fuel,
                ),
                other => other,
            },
        }
    }
}

/// How far loading has come.
enum Step {
    Done,
    Failed(LakeErrors),
    Needs(String),
}

/// What loading a program gives.
#[derive(Debug, PartialEq)]
pub enum Loading {
    Done(ProgramSources),
    /// What is wrong, and the files that were read until then, to show it in.
    Failed(LakeErrors, ProgramSources),
    /// The file that has to be looked at before loading can go on.
    Needs(String),
}

spec fn step_is(r: Step, after: ProgramSources, v: LoadV) -> bool {
    match r {
        Step::Done => v == LoadV::Done(after.files.deep_view(), after.loaded.deep_view()),
        Step::Failed(es) => v == LoadV::Failed(es.deep_view(), after.files.deep_view()),
        Step::Needs(f) => v == LoadV::Needs(f@),
    }
}

fn one_error(e: LakeError) -> (r: LakeErrors)
    ensures
        r.deep_view() == seq![e.deep_view()],
{
    let mut es: Vec<LakeError> = Vec::new();
    es.push(e);
    let r = LakeErrors::new(es);
    proof {
        assert(r.deep_view() =~= seq![e.deep_view()]);
    }
    r
}

fn cycle(path: &ModulePath) -> (r: LakeErrors)
    ensures
        r.deep_view() == seq![cycle_error(path.deep_view())],
{
    let shown = path.display();
    let message = cat3("import cycle detected at module `", shown.as_str(), "`");
    let span = SimpleSpan { start: 0, end: 0 };
    let e = LakeError::new(message.as_str(), span).code("M001").help(
        "break the cycle by removing one of the import edges",
    );
    one_error(e)
}

fn module_not_found(path: &ModulePath, root: &str) -> (r: LakeErrors)
    ensures
        r.deep_view() == seq![missing_error(path.deep_view(), root@)],
{
    let shown = path.display();
    let file = path.to_filesystem();
    let mut message = cat3("module `", shown.as_str(), "` not found (looked for `");
    message.append(file.as_str());
    message.append("` under `");
    message.append(root);
    message.append("`)");
    let span = SimpleSpan { start: 0, end: 0 };
    let e = LakeError::new(message.as_str(), span).code("M002").help(
        "create the missing file, or set LAKE_PATH / <name>_PATH to point at the directory containing the library",
    );
    one_error(e)
}

fn unreadable(file: &str, message: &str) -> (r: LakeErrors)
    ensures
        r.deep_view() == seq![io_error(file@, message@)],
{
    let mut text = cat3("could not read `", file, "`: ");
    text.append(message);
    let span = SimpleSpan { start: 0, end: 0 };
    one_error(LakeError::new(text.as_str(), span).code("M003"))
}

fn find<'d>(disk: &'d Vec<DiskFile>, path: &str) -> (r: Option<&'d Content>)
    ensures
        match r {
            Some(c) => known(disk.deep_view(), path@, 0) == Some(c.deep_view()),
            None => known(disk.deep_view(), path@, 0) is None,
        },
{
    let ghost ds = disk.deep_view();
    let mut i: usize = 0;
    while i < disk.len()
        invariant
            i <= disk@.len(),
            ds == disk.deep_view(),
            known(ds, path@, 0) == known(ds, path@, i as nat),
        decreases disk@.len() - i,
    {
        proof {
            assert(ds[i as int] == disk@[i as int].deep_view());
        }
        if same(disk[i].path.as_str(), path) {
            return Some(&disk[i].content);
        }
        i = i + 1;
    }
    None
}

fn path_below(root: &str, rel: &str) -> (r: String)
    ensures
        r@ == below(root@, rel@),
{
    let cs = chars_of(root);
    if cs.len() == 0 || cs[cs.len() - 1] == '/' {
        cat(root, rel)
    } else {
        cat3(root, "/", rel)
    }
}

/// Where the file of a module is.
#[derive(Debug, PartialEq)]
pub enum Found {
    At(String),
    /// A file that has to be looked at first.
    Needs(String),
    Missing,
}

impl DeepView for Found {
    type V = FoundV;

    open spec fn deep_view(&self) -> FoundV {
        match *self {
            Found::At(f) => FoundV::At(f@),
            Found::Needs(f) => FoundV::Needs(f@),
            Found::Missing => FoundV::Missing,
        }
    }
}

/// Resolves a module to its file below `root`: `core/io.lake`, or
/// `core/io/mod.lake` where there is no such file.
pub fn resolve_module_file(module: &ModulePath, root: &str, disk: &Vec<DiskFile>) -> (r: Found)
    ensures
        r.deep_view() == found(disk.deep_view(), root@, module.deep_view()),
{
    let rel = module.to_filesystem();
    let file = path_below(root, rel.as_str());
    match find(disk, file.as_str()) {
        None => Found::Needs(file),
        Some(Content::Absent(_)) => {
            let rel = module.to_filesystem_mod();
            let inside = path_below(root, rel.as_str());
            match find(disk, inside.as_str()) {
                None => Found::Needs(inside),
                Some(Content::Absent(_)) => Found::Missing,
                Some(_) => Found::At(inside),
            }
        },
        Some(_) => Found::At(file),
    }
}

fn is_among(paths: &Vec<ModulePath>, p: &ModulePath) -> (r: bool)
    ensures
        r == paths.deep_view().contains(p.deep_view()),
{
    let ghost ps = paths.deep_view();
    let mut i: usize = 0;
    while i < paths.len()
        invariant
            i <= paths@.len(),
            ps == paths.deep_view(),
            forall|j: int| 0 <= j < i ==> ps[j] != p.deep_view(),
        decreases paths@.len() - i,
    {
        proof {
            assert(ps[i as int] == paths@[i as int].deep_view());
        }
        if same_path(&paths[i], p) {
            return true;
        }
        i = i + 1;
    }
    false
}

impl ProgramSources {
    fn load_recursive(
        &mut self,
        path: ModulePath,
        file: String,
        root: &str,
        disk: &Vec<DiskFile>,
        open: &mut Vec<ModulePath>,
        fuel: u64,
    ) -> (r: Step)
        ensures
            step_is(
                r,
                *final(self),
                load_module(
                    disk.deep_view(),
                    root@,
                    path.deep_view(),
                    file@,
                    old(self).files.deep_view(),
                    old(self).loaded.deep_view(),
                    old(open).deep_view(),
                    fuel as nat,
                ),
            ),
            r is Done ==> final(open)@ == old(open)@,
        decreases fuel, 0nat,
    {
        let ghost fs0 = self.files.deep_view();
        let ghost pv = path.deep_view();
        if fuel == 0 || is_among(open, &path) {
            return Step::Failed(cycle(&path));
        }
        if is_among(&self.loaded, &path) {
            return Step::Done;
        }
        let src: &String = match find(disk, file.as_str()) {
            None => {
                return Step::Needs(file);
            },
            Some(Content::Unreadable(m)) => {
                return Step::Failed(unreadable(file.as_str(), m.as_str()));
            },
            Some(Content::Absent(m)) => {
                return Step::Failed(unreadable(file.as_str(), m.as_str()));
            },
            Some(Content::Text(s)) => s,
        };
        let ghost one = FileV { path: pv, source_path: file@, src: src@ };
        self.files.push(
            LoadedFile { path: path.dup(), source_path: file.clone(), src: src.clone() },
        );
        proof {
            assert(self.files.deep_view() =~= fs0.push(one));
        }
        let items = match prelude::parse(file.as_str(), src.as_str()) {
            Ok(items) => items,
            Err(es) => {
                return Step::Failed(es.tag_source_path(file.as_str()));
            },
        };
        let mods = collect_referenced_modules(&items);
        let ghost open0 = open@;
        let ghost ov = open.deep_view();
        open.push(path.dup());
        proof {
            assert(open.deep_view() =~= ov.push(pv));
        }
        match self.load_list(mods, root, disk, open, fuel - 1) {
            Step::Done => {
                let _ = open.pop();
                proof {
                    assert(open@ =~= open0);
                }
                let ghost before = self.loaded.deep_view();
                self.loaded.push(path);
                proof {
                    assert(self.loaded.deep_view() =~= before.push(pv));
                }
                Step::Done
            },
            other => other,
        }
    }

    fn load_list(
        &mut self,
        mods: Vec<ModulePath>,
        root: &str,
        disk: &Vec<DiskFile>,
        open: &mut Vec<ModulePath>,
        fuel: u64,
    ) -> (r: Step)
        ensures
            step_is(
                r,
                *final(self),
                load_imports(
                    disk.deep_view(),
                    root@,
                    mods.deep_view(),
                    0,
                    old(self).files.deep_view(),
                    old(self).loaded.deep_view(),
                    old(open).deep_view(),
                    fuel as nat,
                ),
            ),
            r is Done ==> final(open)@ == old(open)@,
        decreases fuel, 1nat,
    {
        let ghost ms = mods.deep_view();
        let ghost ds = disk.deep_view();
        let ghost ov = open.deep_view();
        let ghost open0 = open@;
        let ghost want = load_imports(
            ds,
            root@,
            ms,
            0,
            self.files.deep_view(),
            self.loaded.deep_view(),
            ov,
            fuel as nat,
        );
        let mut k: usize = 0;
        while k < mods.len()
            invariant
                k <= mods@.len(),
                ms == mods.deep_view(),
                ds == disk.deep_view(),
                ov == open.deep_view(),
                open@ == open0,
                want == load_imports(
                    ds,
                    root@,
                    ms,
                    k as nat,
                    self.files.deep_view(),
                    self.loaded.deep_view(),
                    ov,
                    fuel as nat,
                ),
                want == load_imports(
                    ds,
                    root@,
                    ms,
                    0,
                    old(self).files.deep_view(),
                    old(self).loaded.deep_view(),
                    old(open).deep_view(),
                    fuel as nat,
                ),
                open0 == old(open)@,
            decreases mods@.len() - k,
        {
            proof {
                assert(ms[k as int] == mods@[k as int].deep_view());
            }
            let file = match resolve_module_file(&mods[k], root, disk) {
                Found::Needs(file) => {
                    return Step::Needs(file);
                },
                Found::Missing => {
                    return Step::Failed(module_not_found(&mods[k], root));
                },
                Found::At(file) => file,
            };
            match self.load_recursive(mods[k].dup(), file, root, disk, open, fuel) {
                Step::Done => {},
                other => {
                    return other;
                },
            }
            k = k + 1;
        }
        Step::Done
    }

    /// Loads the entry file and everything it imports.  The files of modules
    /// are looked for below `project_root`; `disk` is what is known of files.
    pub fn load(entry_path: &str, project_root: &str, disk: &Vec<DiskFile>) -> (r: Loading)
        ensures
            match load_module(
                disk.deep_view(),
                project_root@,
                Seq::empty(),
                entry_path@,
                Seq::empty(),
                Seq::empty(),
                Seq::empty(),
                u64::MAX as nat,
            ) {
                LoadV::Done(files, _) => r is Done && r->Done_0.file_views() == files,
                LoadV::Failed(es, files) => r is Failed && r->Failed_0.deep_view() == es
                    && r->Failed_1.file_views() == files,
                LoadV::Needs(f) => r is Needs && r->Needs_0@ == f,
            },
    {
        let mut sources = ProgramSources { files: Vec::new(), loaded: Vec::new() };
        let mut open: Vec<ModulePath> = Vec::new();
        proof {
            assert(sources.files.deep_view() =~= Seq::<FileV>::empty());
            assert(sources.loaded.deep_view() =~= Seq::<Seq<Text>>::empty());
            assert(open.deep_view() =~= Seq::<Seq<Text>>::empty());
        }
        match sources.load_recursive(
            ModulePath::root(),
            entry_path.to_owned(),
            project_root,
            disk,
            &mut open,
            u64::MAX,
        ) {
            Step::Done => Loading::Done(sources),
            Step::Failed(es) => Loading::Failed(es, sources),
            Step::Needs(f) => Loading::Needs(f),
        }
    }
}

// ── what loading promises ──────────────────────────────────────────────────

/// Whether no module is there twice, and every file belongs to a module that
/// is complete or on the way.
pub open spec fn each_once(files: Seq<FileV>, loaded: Seq<Seq<Text>>, open: Seq<Seq<Text>>) -> bool {
    &&& forall|i: int, j: int|
        0 <= i < j < files.len() ==> (#[trigger] files[i]).path != (#[trigger] files[j]).path
    &&& forall|i: int|
        0 <= i < files.len() ==> loaded.contains((#[trigger] files[i]).path) || open.contains(
            files[i].path,
        )
}

proof fn module_loads_each_once(
    disk: Seq<(Text, ContentV)>,
    root: Text,
    path: Seq<Text>,
    file: Text,
    files: Seq<FileV>,
    loaded: Seq<Seq<Text>>,
    open: Seq<Seq<Text>>,
    fuel: nat,
)
    requires
        each_once(files, loaded, open),
    ensures
        match load_module(disk, root, path, file, files, loaded, open, fuel) {
            LoadV::Done(fs, done) => each_once(fs, done, open) && files.len() <= fs.len() && (forall|
                i: int,
            |
                0 <= i < files.len() ==> #[trigger] fs[i] == files[i]) && done.contains(path),
            _ => true,
        },
    decreases fuel, 0nat,
{
    if fuel > 0 && !open.contains(path) && !loaded.contains(path) {
        match known(disk, file, 0) {
            Some(ContentV::Text(src)) => match prelude::parse_result(src) {
                Ok(items) => {
                    let one = FileV { path, source_path: file, src };
                    let fs = files.push(one);
                    let way = open.push(path);
                    assert(way[open.len() as int] == path);
                    assert forall|i: int| 0 <= i < fs.len() implies loaded.contains(
                        (#[trigger] fs[i]).path,
                    ) || way.contains(fs[i].path) by {
                        if i < files.len() {
                            assert(fs[i] == files[i]);
                            if open.contains(files[i].path) {
                                let k = open.index_of(files[i].path);
                                assert(way[k] == files[i].path);
                            }
                        }
                    }
                    assert forall|i: int, j: int| 0 <= i < j < fs.len() implies (#[trigger]
                    fs[i]).path != (#[trigger] fs[j]).path by {
                        assert(fs[i] == files[i]);
                        if j < files.len() {
                            assert(fs[j] == files[j]);
                        }
                    }
                    let mods = referenced(items, items.len());
                    imports_load_each_once(disk, root, mods, 0, fs, loaded, way, (fuel - 1) as nat);
                    match load_imports(disk, root, mods, 0, fs, loaded, way, (fuel - 1) as nat) {
                        LoadV::Done(gs, done) => {
                            let all = done.push(path);
                            assert(all[done.len() as int] == path);
                            assert forall|i: int| 0 <= i < gs.len() implies all.contains(
                                (#[trigger] gs[i]).path,
                            ) || open.contains(gs[i].path) by {
                                if done.contains(gs[i].path) {
                                    let k = done.index_of(gs[i].path);
                                    assert(all[k] == gs[i].path);
                                } else {
                                    let k = way.index_of(gs[i].path);
                                    if k < open.len() {
                                        assert(open[k] == gs[i].path);
                                    }
                                }
                            }
                            assert forall|i: int| 0 <= i < files.len() implies #[trigger] gs[i]
                                == files[i] by {
                                assert(gs[i] == fs[i]);
                            }
                        },
                        _ => {},
                    }
                },
                Err(_) => {},
            },
            _ => {},
        }
    }
}

proof fn imports_load_each_once(
    disk: Seq<(Text, ContentV)>,
    root: Text,
    mods: Seq<Seq<Text>>,
    k: nat,
    files: Seq<FileV>,
    loaded: Seq<Seq<Text>>,
    open: Seq<Seq<Text>>,
    fuel: nat,
)
    requires
        each_once(files, loaded, open),
    ensures
        match load_imports(disk, root, mods, k, files, loaded, open, fuel) {
            LoadV::Done(fs, done) => each_once(fs, done, open) && files.len() <= fs.len() && (forall|
                i: int,
            |
                0 <= i < files.len() ==> #[trigger] fs[i] == files[i]),
            _ => true,
        },
    decreases fuel, mods.len() - k + 1,
{
    if k < mods.len() {
        if let FoundV::At(file) = found(disk, root, mods[k as int]) {
            module_loads_each_once(disk, root, mods[k as int], file, files, loaded, open, fuel);
            match load_module(disk, root, mods[k as int], file, files, loaded, open, fuel) {
                LoadV::Done(fs, done) => {
                    imports_load_each_once(disk, root, mods, k + 1, fs, done, open, fuel);
                },
                _ => {},
            }
        }
    }
}

/// A loaded program has every module once, and the entry file first.
pub proof fn every_module_is_loaded_once(
    disk: Seq<(Text, ContentV)>,
    root: Text,
    entry: Text,
    fuel: nat,
)
    ensures
        match load_module(
            disk,
            root,
            Seq::empty(),
            entry,
            Seq::empty(),
            Seq::empty(),
            Seq::empty(),
            fuel,
        ) {
            LoadV::Done(files, _) => {
                &&& files.len() > 0
                &&& files[0].path == Seq::<Text>::empty()
                &&& files[0].source_path == entry
                &&& forall|i: int, j: int|
                    0 <= i < j < files.len() ==> (#[trigger] files[i]).path != (#[trigger]
                    files[j]).path
            },
            _ => true,
        },
{
    let none = Seq::<Seq<Text>>::empty();
    let root_path = Seq::<Text>::empty();
    module_loads_each_once(disk, root, root_path, entry, Seq::empty(), none, none, fuel);
    if fuel > 0 {
        assert(!none.contains(root_path));
        match known(disk, entry, 0) {
            Some(ContentV::Text(src)) => match prelude::parse_result(src) {
                Ok(items) => {
                    let one = FileV { path: root_path, source_path: entry, src };
                    let fs = Seq::<FileV>::empty().push(one);
                    let way = none.push(root_path);
                    assert(way[0] == root_path);
                    let mods = referenced(items, items.len());
                    imports_load_each_once(disk, root, mods, 0, fs, none, way, (fuel - 1) as nat);
                    match load_imports(disk, root, mods, 0, fs, none, way, (fuel - 1) as nat) {
                        LoadV::Done(gs, done) => {
                            assert(gs[0] == fs[0]);
                        },
                        _ => {},
                    }
                },
                Err(_) => {},
            },
            _ => {},
        }
    }
}

/// A module that is met again on the way to itself is reported as a cycle.
pub proof fn cycles_are_reported(
    disk: Seq<(Text, ContentV)>,
    root: Text,
    path: Seq<Text>,
    file: Text,
    files: Seq<FileV>,
    loaded: Seq<Seq<Text>>,
    open: Seq<Seq<Text>>,
    fuel: nat,
)
    requires
        open.contains(path),
    ensures
        load_module(disk, root, path, file, files, loaded, open, fuel) == LoadV::Failed(
            seq![cycle_error(path)],
            files,
        ),
{
}

// ── parsing what was loaded ────────────────────────────────────────────────

/// The syntax errors of several files.
#[derive(Debug, PartialEq)]
pub struct ParseErrors {
    pub per_file: Vec<(String, LakeErrors)>,
}

impl DeepView for ParseErrors {
    type V = Seq<(Text, Seq<ErrorV>)>;

    open spec fn deep_view(&self) -> Seq<(Text, Seq<ErrorV>)> {
        Seq::new(
            self.per_file@.len(),
            |i: int| (self.per_file@[i].0@, self.per_file@[i].1.deep_view()),
        )
    }
}

/// The text of the first file from `from` on with the given path.
pub open spec fn text_of_file(files: Seq<FileV>, path: Text, from: nat) -> Text
    decreases files.len() - from,
{
    if from >= files.len() {
        Seq::empty()
    } else if files[from as int].source_path == path {
        files[from as int].src
    } else {
        text_of_file(files, path, from + 1)
    }
}

impl ParseErrors {
    pub fn push(&mut self, path: &str, errs: LakeErrors)
        ensures
            final(self).deep_view() == old(self).deep_view().push((path@, errs.deep_view())),
    {
        let ghost before = self.deep_view();
        self.per_file.push((path.to_owned(), errs));
        proof {
            assert(self.deep_view() =~= before.push((path@, errs.deep_view())));
        }
    }

    pub fn is_empty(&self) -> (r: bool)
        ensures
            r == (self.deep_view().len() == 0),
    {
        self.per_file.len() == 0
    }

    /// What to show of the errors: file by file, against its text.
    pub fn display(&self, sources: &ProgramSources) -> (r: Vec<Vec<Report>>)
        ensures
            r@.len() == self.deep_view().len(),
            forall|i: int|
                0 <= i < r@.len() ==> (#[trigger] r@[i]).deep_view() == error_handle::reports_on(
                    self.deep_view()[i].1,
                    text_of_file(sources.file_views(), self.deep_view()[i].0, 0),
                    self.deep_view()[i].0,
                    self.deep_view()[i].1.len(),
                ),
    {
        let mut out: Vec<Vec<Report>> = Vec::new();
        let mut i: usize = 0;
        while i < self.per_file.len()
            invariant
                i <= self.per_file@.len(),
                out@.len() == i,
                forall|j: int|
                    0 <= j < i ==> (#[trigger] out@[j]).deep_view() == error_handle::reports_on(
                        self.deep_view()[j].1,
                        text_of_file(sources.file_views(), self.deep_view()[j].0, 0),
                        self.deep_view()[j].0,
                        self.deep_view()[j].1.len(),
                    ),
            decreases self.per_file@.len() - i,
        {
            let path = &self.per_file[i].0;
            let text = sources.text_of(path.as_str());
            let shown = self.per_file[i].1.display(text.as_str(), path.as_str());
            proof {
                assert(self.deep_view()[i as int] == (path@, self.per_file@[i as int].1.deep_view()));
            }
            out.push(shown);
            i = i + 1;
        }
        out
    }
}

/// The modules that the first `n` files parse to, and the errors of those
/// that do not parse.
pub open spec fn parsed_files(files: Seq<FileV>, n: nat) -> (
    Seq<ModuleV>,
    Seq<(Text, Seq<ErrorV>)>,
)
    decreases n,
{
    if n == 0 {
        (Seq::empty(), Seq::empty())
    } else {
        let before = parsed_files(files, (n - 1) as nat);
        let f = files[n - 1];
        match prelude::parse_result(f.src) {
            Ok(items) => (
                before.0.push(ModuleV { path: f.path, source_path: f.source_path, ast: items }),
                before.1,
            ),
            Err(es) => (before.0, before.1.push((f.source_path, es))),
        }
    }
}

impl ProgramSources {
    fn text_of(&self, path: &str) -> (r: String)
        ensures
            r@ == text_of_file(self.file_views(), path@, 0),
    {
        let ghost fs = self.file_views();
        let mut i: usize = 0;
        while i < self.files.len()
            invariant
                i <= self.files@.len(),
                fs == self.file_views(),
                fs == self.files.deep_view(),
                text_of_file(fs, path@, 0) == text_of_file(fs, path@, i as nat),
            decreases self.files@.len() - i,
        {
            proof {
                assert(fs[i as int] == self.files@[i as int].deep_view());
            }
            if same(self.files[i].source_path.as_str(), path) {
                return self.files[i].src.clone();
            }
            i = i + 1;
        }
        let none = String::new();
        proof {
            assert(none@ =~= Seq::<char>::empty());
        }
        none
    }

    /// Parses every loaded file.  The errors of all files are reported
    /// together.
    pub fn parse_all(&self) -> (r: Result<ParsedProgram, ParseErrors>)
        ensures
            match r {
                Ok(p) => {
                    &&& parsed_files(self.file_views(), self.file_views().len()).1.len() == 0
                    &&& p.deep_view() == parsed_files(
                        self.file_views(),
                        self.file_views().len(),
                    ).0
                },
                Err(es) => {
                    &&& es.deep_view().len() > 0
                    &&& es.deep_view() == parsed_files(
                        self.file_views(),
                        self.file_views().len(),
                    ).1
                },
            },
    {
        let ghost fs = self.file_views();
        let mut modules: Vec<ParsedModule> = Vec::new();
        let mut errors = ParseErrors { per_file: Vec::new() };
        let mut i: usize = 0;
        proof {
            assert(modules.deep_view() =~= Seq::<ModuleV>::empty());
            assert(errors.deep_view() =~= Seq::<(Text, Seq<ErrorV>)>::empty());
        }
        while i < self.files.len()
            invariant
                i <= self.files@.len(),
                fs == self.file_views(),
                fs == self.files.deep_view(),
                parsed_files(fs, i as nat) == (modules.deep_view(), errors.deep_view()),
            decreases self.files@.len() - i,
        {
            let f = &self.files[i];
            let ghost done = modules.deep_view();
            proof {
                assert(fs[i as int] == f.deep_view());
            }
            match prelude::parse(f.source_path.as_str(), f.src.as_str()) {
                Ok(ast) => {
                    let m = ParsedModule {
                        path: f.path.dup(),
                        source_path: f.source_path.clone(),
                        ast,
                    };
                    let ghost mv = m.deep_view();
                    modules.push(m);
                    proof {
                        assert(modules.deep_view() =~= done.push(mv));
                    }
                },
                Err(es) => {
                    errors.push(f.source_path.as_str(), es);
                },
            }
            i = i + 1;
        }
        if errors.is_empty() {
            Ok(ParsedProgram { modules })
        } else {
            Err(errors)
        }
    }
}

proof fn files_that_parse(
    disk: Seq<(Text, ContentV)>,
    root: Text,
    path: Seq<Text>,
    file: Text,
    files: Seq<FileV>,
    loaded: Seq<Seq<Text>>,
    open: Seq<Seq<Text>>,
    fuel: nat,
)
    requires
        forall|i: int|
            0 <= i < files.len() ==> prelude::parse_result((#[trigger] files[i]).src) is Ok,
    ensures
        match load_module(disk, root, path, file, files, loaded, open, fuel) {
            LoadV::Done(fs, _) => forall|i: int|
                0 <= i < fs.len() ==> prelude::parse_result((#[trigger] fs[i]).src) is Ok,
            _ => true,
        },
    decreases fuel, 0nat,
{
    if fuel > 0 && !open.contains(path) && !loaded.contains(path) {
        match known(disk, file, 0) {
            Some(ContentV::Text(src)) => match prelude::parse_result(src) {
                Ok(items) => {
                    let fs = files.push(FileV { path, source_path: file, src });
                    imports_that_parse(
                        disk,
                        root,
                        referenced(items, items.len()),
                        0,
                        fs,
                        loaded,
                        open.push(path),
                        (fuel - 1) as nat,
                    );
                },
                Err(_) => {},
            },
            _ => {},
        }
    }
}

proof fn imports_that_parse(
    disk: Seq<(Text, ContentV)>,
    root: Text,
    mods: Seq<Seq<Text>>,
    k: nat,
    files: Seq<FileV>,
    loaded: Seq<Seq<Text>>,
    open: Seq<Seq<Text>>,
    fuel: nat,
)
    requires
        forall|i: int|
            0 <= i < files.len() ==> prelude::parse_result((#[trigger] files[i]).src) is Ok,
    ensures
        match load_imports(disk, root, mods, k, files, loaded, open, fuel) {
            LoadV::Done(fs, _) => forall|i: int|
                0 <= i < fs.len() ==> prelude::parse_result((#[trigger] fs[i]).src) is Ok,
            _ => true,
        },
    decreases fuel, mods.len() - k + 1,
{
    if k < mods.len() {
        if let FoundV::At(file) = found(disk, root, mods[k as int]) {
            files_that_parse(disk, root, mods[k as int], file, files, loaded, open, fuel);
            match load_module(disk, root, mods[k as int], file, files, loaded, open, fuel) {
                LoadV::Done(fs, done) => {
                    imports_that_parse(disk, root, mods, k + 1, fs, done, open, fuel);
                },
                _ => {},
            }
        }
    }
}

/// What has been loaded parses: one module for every file, in the order of
/// the files, and no errors.
pub proof fn loaded_programs_parse(
    disk: Seq<(Text, ContentV)>,
    root: Text,
    entry: Text,
    fuel: nat,
)
    ensures
        match load_module(
            disk,
            root,
            Seq::empty(),
            entry,
            Seq::empty(),
            Seq::empty(),
            Seq::empty(),
            fuel,
        ) {
            LoadV::Done(files, _) => {
                &&& parsed_files(files, files.len()).1.len() == 0
                &&& parsed_files(files, files.len()).0.len() == files.len()
                &&& forall|i: int|
                    0 <= i < files.len() ==> (#[trigger] parsed_files(files, files.len()).0[i]).path
                        == files[i].path
            },
            _ => true,
        },
{
    let none = Seq::<Seq<Text>>::empty();
    files_that_parse(disk, root, Seq::empty(), entry, Seq::empty(), none, none, fuel);
    match load_module(disk, root, Seq::empty(), entry, Seq::empty(), none, none, fuel) {
        LoadV::Done(files, _) => {
            modules_of_files(files, files.len());
        },
        _ => {},
    }
}

proof fn modules_of_files(files: Seq<FileV>, n: nat)
    requires
        n <= files.len(),
        forall|i: int|
            0 <= i < files.len() ==> prelude::parse_result((#[trigger] files[i]).src) is Ok,
    ensures
        parsed_files(files, n).1.len() == 0,
        parsed_files(files, n).0.len() == n,
        forall|i: int|
            0 <= i < n ==> (#[trigger] parsed_files(files, n).0[i]).path == files[i].path,
    decreases n,
{
    if n > 0 {
        modules_of_files(files, (n - 1) as nat);
        assert(prelude::parse_result(files[n - 1].src) is Ok);
    }
}

} // verus!
