//! Program-wide registry of callable items.
//!
//! Three kinds of "callable" coexist in a Lake program: built-in runtime
//! functions, user machines, and foreign declarations.  A program is a list
//! of modules; each module owns its machines, constants, records, enums and
//! protos, and the bindings that its imports bring into scope.

use vstd::prelude::*;

use crate::api::ast::{Ident, Machine, Type, TypeV};
use crate::name_map;
use crate::name_map::NameMap;
use crate::span::{SimpleSpan, Spanned};
use crate::text;
use crate::text::{cat3, dup_texts, join_texts, stem_of, same, Text};

verus! {

// ── primitive types ─────────────────────────────────────────────────────────

/// A function-like signature: parameter types in order, plus a return type.
#[derive(Debug, Clone, PartialEq, Eq)]
pub struct Signature {
    pub params: Vec<String>,
    pub ret: String,
}

#[verifier::ext_equal]
pub struct SignatureV {
    pub params: Seq<Text>,
    pub ret: Text,
}

impl DeepView for Signature {
    type V = SignatureV;

    open spec fn deep_view(&self) -> SignatureV {
        SignatureV { params: self.params.deep_view(), ret: self.ret@ }
    }
}

/// Stable handle for a module within a single program, allocated in load
/// order.
#[derive(Debug, Clone, Copy, PartialEq, Eq, Hash, Structural)]
pub struct ModuleId(pub u32);

impl DeepView for ModuleId {
    type V = ModuleId;

    open spec fn deep_view(&self) -> ModuleId {
        *self
    }
}

impl ModuleId {
    /// Reserved id for the program entry module.
    pub fn root() -> (r: ModuleId)
        ensures
            r == ModuleId(0),
    {
        ModuleId(0)
    }
}

/// Dotted module path, e.g. `core.io` is `["core", "io"]`.
///
/// The empty path denotes the program root (the entry file's module).
#[derive(Debug, Clone, Default, PartialEq, Eq, Hash, PartialOrd, Ord)]
pub struct ModulePath(pub Vec<String>);

impl DeepView for ModulePath {
    type V = Seq<Text>;

    open spec fn deep_view(&self) -> Seq<Text> {
        self.0.deep_view()
    }
}

/// The file of a module: its segments as directories, with the extension
/// `lake` in place of one that the last segment has.  The root module has no
/// file of its own.
pub open spec fn file_path(path: Seq<Text>) -> Text {
    if path.len() == 0 {
        Seq::empty()
    } else {
        text::join(path.update(path.len() - 1, text::stem(path.last())), "/"@) + ".lake"@
    }
}

/// The entry file of a module that is laid out as a directory.
pub open spec fn mod_file_path(path: Seq<Text>) -> Text {
    if path.len() == 0 {
        "mod.lake"@
    } else {
        text::join(path, "/"@) + "/mod.lake"@
    }
}

/// How a module path is written in source; the root is `<root>`.
pub open spec fn path_text(path: Seq<Text>) -> Text {
    if path.len() == 0 {
        "<root>"@
    } else {
        text::join(path, "."@)
    }
}

/// The symbol of the machine `name` of a module: bare in the root, otherwise
/// prefixed with the module's segments.
pub open spec fn mangled(path: Seq<Text>, name: Text) -> Text {
    if path.len() == 0 {
        name
    } else {
        text::join(path, "_"@) + "__"@ + name
    }
}

impl ModulePath {
    /// The implicit module of the entry file.
    pub fn root() -> (r: ModulePath)
        ensures
            r.deep_view() == Seq::<Text>::empty(),
    {
        let r = ModulePath(Vec::new());
        proof {
            assert(r.deep_view() =~= Seq::<Text>::empty());
        }
        r
    }

    /// Append a single segment, returning a new path.
    pub fn join_segment(&self, seg: &str) -> (r: ModulePath)
        ensures
            r.deep_view() == self.deep_view().push(seg@),
    {
        let mut v = dup_texts(&self.0);
        v.push(seg.to_owned());
        proof {
            assert(v.deep_view() =~= self.deep_view().push(seg@));
        }
        ModulePath(v)
    }

    /// Render the path as a relative file path: `core.io` → `core/io.lake`.
    pub fn to_filesystem(&self) -> (r: String)
        ensures
            r@ == file_path(self.deep_view()),
    {
        if self.0.len() == 0 {
            String::new()
        } else {
            let n = self.0.len();
            let mut parts = dup_texts(&self.0);
            let last = stem_of(parts[n - 1].as_str());
            parts.set(n - 1, last);
            proof {
                let v = self.deep_view();
                assert(parts.deep_view() =~= v.update(n - 1, text::stem(v.last())));
            }
            let mut s = join_texts(&parts, "/");
            s.append(".lake");
            s
        }
    }

    /// Render as a directory-style module path: `core.io` → `core/io/mod.lake`.
    /// The fallback for a package that is laid out as a directory with
    /// `mod.lake` as its entry point.
    pub fn to_filesystem_mod(&self) -> (r: String)
        ensures
            r@ == mod_file_path(self.deep_view()),
    {
        if self.0.len() == 0 {
            "mod.lake".to_owned()
        } else {
            let mut s = join_texts(&self.0, "/");
            s.append("/mod.lake");
            s
        }
    }

    /// True for the root module.
    pub fn is_root(&self) -> (r: bool)
        ensures
            r == (self.deep_view().len() == 0),
    {
        self.0.len() == 0
    }

    /// Render in source form: `core.io`.  Empty path renders as `<root>`.
    pub fn display(&self) -> (r: String)
        ensures
            r@ == path_text(self.deep_view()),
    {
        if self.0.len() == 0 {
            "<root>".to_owned()
        } else {
            join_texts(&self.0, ".")
        }
    }

    /// Canonical mangled symbol for a machine defined in this module.
    /// Root → bare `name`; otherwise `mod_seg1_mod_seg2__name`.
    pub fn mangle(&self, name: &str) -> (r: String)
        ensures
            r@ == mangled(self.deep_view(), name@),
    {
        if self.0.len() == 0 {
            name.to_owned()
        } else {
            let prefix = join_texts(&self.0, "_");
            cat3(prefix.as_str(), "__", name)
        }
    }

    pub fn dup(&self) -> (r: ModulePath)
        ensures
            r.deep_view() == self.deep_view(),
    {
        ModulePath(dup_texts(&self.0))
    }

    /// Whether the two paths have the same segments.
    pub fn is_same(&self, other: &ModulePath) -> (r: bool)
        ensures
            r == (self.deep_view() == other.deep_view()),
    {
        same_texts(&self.0, &other.0)
    }
}

/// Whether two lists of texts are the same.
pub fn same_texts(a: &Vec<String>, b: &Vec<String>) -> (r: bool)
    ensures
        r == (a.deep_view() == b.deep_view()),
{
    if a.len() != b.len() {
        proof {
            assert(a.deep_view().len() != b.deep_view().len());
        }
        return false;
    }
    let mut i: usize = 0;
    while i < a.len()
        invariant
            a.len() == b.len(),
            i <= a.len(),
            forall|j: int| 0 <= j < i ==> #[trigger] a.deep_view()[j] == b.deep_view()[j],
        decreases a.len() - i,
    {
        if !same(a[i].as_str(), b[i].as_str()) {
            proof {
                assert(a.deep_view()[i as int] != b.deep_view()[i as int]);
            }
            return false;
        }
        i = i + 1;
    }
    proof {
        assert(a.deep_view() =~= b.deep_view());
    }
    true
}

// ── per-module entries ──────────────────────────────────────────────────────

/// A `name is { ... }` definition belonging to some module.
#[derive(Debug, Clone)]
pub struct MachineEntry {
    pub name: String,
    /// Module that owns this machine.
    pub module: ModuleId,
    /// `pub` makes this entry visible to other modules' imports.
    pub is_pub: bool,
    /// Declared type parameters.  Empty for non-generic machines.
    pub type_params: Vec<String>,
    /// Per-branch parameter signatures.
    pub branches: Vec<Signature>,
}

#[verifier::ext_equal]
pub struct MachineEntryV {
    pub name: Text,
    pub module: ModuleId,
    pub is_pub: bool,
    pub type_params: Seq<Text>,
    pub branches: Seq<SignatureV>,
}

impl DeepView for MachineEntry {
    type V = MachineEntryV;

    open spec fn deep_view(&self) -> MachineEntryV {
        MachineEntryV {
            name: self.name@,
            module: self.module,
            is_pub: self.is_pub,
            type_params: self.type_params.deep_view(),
            branches: self.branches.deep_view(),
        }
    }
}

impl MachineEntry {
    /// The spawn return type.
    pub fn spawn_ret(&self) -> (r: &'static str)
        ensures
            r@ == "pid"@,
    {
        "pid"
    }

    /// True when at least one branch matches the given parameter count.
    pub fn has_arity(&self, n: usize) -> (r: bool)
        ensures
            r == (exists|i: int|
                0 <= i < self.deep_view().branches.len() && #[trigger]
                self.deep_view().branches[i].params.len() == n),
    {
        let mut i: usize = 0;
        while i < self.branches.len()
            invariant
                i <= self.branches.len(),
                forall|j: int|
                    0 <= j < i ==> #[trigger] self.deep_view().branches[j].params.len() != n,
            decreases self.branches.len() - i,
        {
            if self.branches[i].params.len() == n {
                proof {
                    assert(self.deep_view().branches[i as int].params.len() == n);
                }
                return true;
            }
            i = i + 1;
        }
        false
    }
}

/// A `Name is { field Type ... }` record type declaration.
#[derive(Debug, Clone)]
pub struct RecordEntry {
    pub name: String,
    pub module: ModuleId,
    pub is_pub: bool,
    /// Declared type parameters.  Empty for non-generic records.
    pub type_params: Vec<String>,
    /// Declared fields in source order.
    pub fields: Vec<(Spanned<Ident>, Spanned<Type>)>,
}

#[verifier::ext_equal]
pub struct RecordEntryV {
    pub name: Text,
    pub module: ModuleId,
    pub is_pub: bool,
    pub type_params: Seq<Text>,
    pub fields: Seq<(Spanned<Text>, Spanned<TypeV>)>,
}

impl DeepView for RecordEntry {
    type V = RecordEntryV;

    open spec fn deep_view(&self) -> RecordEntryV {
        RecordEntryV {
            name: self.name@,
            module: self.module,
            is_pub: self.is_pub,
            type_params: self.type_params.deep_view(),
            fields: self.fields.deep_view(),
        }
    }
}

/// A `Name is enum { ... }` tagged-sum type declaration.
#[derive(Debug, Clone)]
pub struct EnumEntry {
    pub name: String,
    pub module: ModuleId,
    pub type_params: Vec<String>,
    /// Variants in declaration order; the index doubles as the runtime tag.
    pub variants: Vec<VariantEntry>,
}

/// One variant of an [`EnumEntry`].
#[derive(Debug, Clone)]
pub struct VariantEntry {
    pub name: String,
    /// Declaration-order index.
    pub tag: u64,
    pub payload: VariantPayloadEntry,
}

/// What a variant carries, without source positions.
#[derive(Debug, Clone)]
pub enum VariantPayloadEntry {
    NoPayload,
    Tuple(Vec<Type>),
    Record(Vec<(String, Type)>),
}

#[verifier::ext_equal]
pub struct EnumEntryV {
    pub name: Text,
    pub module: ModuleId,
    pub type_params: Seq<Text>,
    pub variants: Seq<VariantEntryV>,
}

#[verifier::ext_equal]
pub struct VariantEntryV {
    pub name: Text,
    pub tag: u64,
    pub payload: VariantPayloadEntryV,
}

#[verifier::ext_equal]
pub enum VariantPayloadEntryV {
    NoPayload,
    Tuple(Seq<TypeV>),
    Record(Seq<(Text, TypeV)>),
}

impl DeepView for EnumEntry {
    type V = EnumEntryV;

    open spec fn deep_view(&self) -> EnumEntryV {
        EnumEntryV {
            name: self.name@,
            module: self.module,
            type_params: self.type_params.deep_view(),
            variants: self.variants.deep_view(),
        }
    }
}

impl DeepView for VariantEntry {
    type V = VariantEntryV;

    open spec fn deep_view(&self) -> VariantEntryV {
        VariantEntryV { name: self.name@, tag: self.tag, payload: self.payload.deep_view() }
    }
}

impl DeepView for VariantPayloadEntry {
    type V = VariantPayloadEntryV;

    open spec fn deep_view(&self) -> VariantPayloadEntryV {
        match *self {
            VariantPayloadEntry::NoPayload => VariantPayloadEntryV::NoPayload,
            VariantPayloadEntry::Tuple(ts) => VariantPayloadEntryV::Tuple(ts.deep_view()),
            VariantPayloadEntry::Record(fs) => VariantPayloadEntryV::Record(fs.deep_view()),
        }
    }
}

/// A `Name is proto { ... }` declaration: each required method's name with
/// its parameter types and return type, `Self` left as the placeholder.
#[derive(Debug, Clone)]
pub struct ProtoEntry {
    pub name: String,
    pub module: ModuleId,
    /// Parent protos (`+Eq`) whose requirements are inherited transitively.
    pub parents: Vec<String>,
    /// `(method_name, param_types, ret_type)` per method.
    pub required: Vec<(String, Vec<String>, String)>,
}

#[verifier::ext_equal]
pub struct ProtoEntryV {
    pub name: Text,
    pub module: ModuleId,
    pub parents: Seq<Text>,
    pub required: Seq<(Text, Seq<Text>, Text)>,
}

impl DeepView for ProtoEntry {
    type V = ProtoEntryV;

    open spec fn deep_view(&self) -> ProtoEntryV {
        ProtoEntryV {
            name: self.name@,
            module: self.module,
            parents: self.parents.deep_view(),
            required: self.required.deep_view(),
        }
    }
}

/// An explicit `X is Eq Show` assertion.
#[derive(Debug, Clone)]
pub struct ImplEntry {
    pub ty: String,
    pub protos: Vec<String>,
    pub module: ModuleId,
    pub span: SimpleSpan,
}

#[verifier::ext_equal]
pub struct ImplEntryV {
    pub ty: Text,
    pub protos: Seq<Text>,
    pub module: ModuleId,
    pub span: SimpleSpan,
}

impl DeepView for ImplEntry {
    type V = ImplEntryV;

    open spec fn deep_view(&self) -> ImplEntryV {
        ImplEntryV {
            ty: self.ty@,
            protos: self.protos.deep_view(),
            module: self.module,
            span: self.span,
        }
    }
}

/// Reduced form of a `const` declaration.
#[derive(Debug, Clone)]
pub struct ConstEntry {
    pub vis: bool,
    pub ty: String,
    pub value: ConstValue,
}

#[derive(Debug, Clone)]
pub enum ConstValue {
    Int(i64),
    Str(String),
    Bool(bool),
    /// The atom's source name.
    Atom(String),
}

#[verifier::ext_equal]
pub struct ConstEntryV {
    pub vis: bool,
    pub ty: Text,
    pub value: ConstValueV,
}

#[verifier::ext_equal]
pub enum ConstValueV {
    Int(i64),
    Str(Text),
    Bool(bool),
    Atom(Text),
}

impl DeepView for ConstEntry {
    type V = ConstEntryV;

    open spec fn deep_view(&self) -> ConstEntryV {
        ConstEntryV { vis: self.vis, ty: self.ty@, value: self.value.deep_view() }
    }
}

impl DeepView for ConstValue {
    type V = ConstValueV;

    open spec fn deep_view(&self) -> ConstValueV {
        match *self {
            ConstValue::Int(n) => ConstValueV::Int(n),
            ConstValue::Str(s) => ConstValueV::Str(s@),
            ConstValue::Bool(b) => ConstValueV::Bool(b),
            ConstValue::Atom(s) => ConstValueV::Atom(s@),
        }
    }
}

/// One resolved row from a `+import` directive.
///
/// When `target_item` is `None` the binding points at the module itself — a
/// namespace import.
#[derive(Debug, Clone)]
pub struct ImportBinding {
    pub target_module: ModuleId,
    /// Item name in the *target* module's source.
    pub target_item: Option<String>,
}

#[verifier::ext_equal]
pub struct ImportBindingV {
    pub target_module: ModuleId,
    pub target_item: Option<Text>,
}

impl DeepView for ImportBinding {
    type V = ImportBindingV;

    open spec fn deep_view(&self) -> ImportBindingV {
        ImportBindingV {
            target_module: self.target_module,
            target_item: self.target_item.deep_view(),
        }
    }
}

/// All items declared in a single module, plus the local `+import` bindings
/// that bring foreign names into scope.
#[derive(Debug, Clone)]
pub struct ModuleScope {
    pub path: ModulePath,
    /// Path of the source file (for diagnostics).
    pub source_path: Option<String>,
    /// Machines defined in this module, keyed by source name.
    pub machines: NameMap<MachineEntry>,
    /// Foreign declarations defined in this module.
    pub ffi_fns: NameMap<Signature>,
    /// `const` declarations defined in this module, keyed by source name.
    pub consts: NameMap<ConstEntry>,
    /// Record types defined in this module, keyed by source name.
    pub records: NameMap<RecordEntry>,
    /// Enum types defined in this module, keyed by source name.
    pub enums: NameMap<EnumEntry>,
    /// Protos defined in this module, keyed by source name.
    pub protos: NameMap<ProtoEntry>,
    /// Explicit `X is Eq` assertions in this module.
    pub impls: Vec<ImplEntry>,
    /// Names brought into scope by `+import` lines.
    pub imports: NameMap<ImportBinding>,
}

#[verifier::ext_equal]
pub struct ScopeV {
    pub path: Seq<Text>,
    pub source_path: Option<Text>,
    pub machines: Map<Text, MachineEntryV>,
    pub ffi_fns: Map<Text, SignatureV>,
    pub consts: Map<Text, ConstEntryV>,
    pub records: Map<Text, RecordEntryV>,
    pub enums: Map<Text, EnumEntryV>,
    pub protos: Map<Text, ProtoEntryV>,
    pub impls: Seq<ImplEntryV>,
    pub imports: Map<Text, ImportBindingV>,
}

impl DeepView for ModuleScope {
    type V = ScopeV;

    open spec fn deep_view(&self) -> ScopeV {
        ScopeV {
            path: self.path.deep_view(),
            source_path: self.source_path.deep_view(),
            machines: self.machines.deep_view(),
            ffi_fns: self.ffi_fns.deep_view(),
            consts: self.consts.deep_view(),
            records: self.records.deep_view(),
            enums: self.enums.deep_view(),
            protos: self.protos.deep_view(),
            impls: self.impls.deep_view(),
            imports: self.imports.deep_view(),
        }
    }
}

/// A module that declares nothing.
pub open spec fn empty_scope(path: Seq<Text>, source_path: Option<Text>) -> ScopeV {
    ScopeV {
        path,
        source_path,
        machines: Map::empty(),
        ffi_fns: Map::empty(),
        consts: Map::empty(),
        records: Map::empty(),
        enums: Map::empty(),
        protos: Map::empty(),
        impls: Seq::empty(),
        imports: Map::empty(),
    }
}

impl ModuleScope {
    /// A module that declares nothing yet.
    pub fn new(path: ModulePath, source_path: Option<String>) -> (r: ModuleScope)
        ensures
            r.deep_view() == empty_scope(path.deep_view(), source_path.deep_view()),
    {
        let r = ModuleScope {
            path,
            source_path,
            machines: NameMap::new(),
            ffi_fns: NameMap::new(),
            consts: NameMap::new(),
            records: NameMap::new(),
            enums: NameMap::new(),
            protos: NameMap::new(),
            impls: Vec::new(),
            imports: NameMap::new(),
        };
        proof {
            let want = empty_scope(path.deep_view(), source_path.deep_view());
            assert(r.deep_view().machines =~= want.machines);
            assert(r.deep_view().ffi_fns =~= want.ffi_fns);
            assert(r.deep_view().consts =~= want.consts);
            assert(r.deep_view().records =~= want.records);
            assert(r.deep_view().enums =~= want.enums);
            assert(r.deep_view().protos =~= want.protos);
            assert(r.deep_view().impls =~= want.impls);
            assert(r.deep_view().imports =~= want.imports);
        }
        r
    }
}

// ── top-level registry ──────────────────────────────────────────────────────

/// Aggregate of every module that participates in the current compilation,
/// plus the global runtime-function table.
#[derive(Debug, Clone)]
pub struct ProgramRegistry {
    /// Built-in runtime functions.
    pub rt_fns: NameMap<Signature>,
    /// All loaded modules; a module's index is its id.
    pub modules: Vec<ModuleScope>,
    /// The module currently being worked on.
    pub current: ModuleId,
}

#[verifier::ext_equal]
pub struct RegistryV {
    pub rt_fns: Map<Text, SignatureV>,
    pub modules: Seq<ScopeV>,
    pub current: ModuleId,
}

impl DeepView for ProgramRegistry {
    type V = RegistryV;

    open spec fn deep_view(&self) -> RegistryV {
        RegistryV {
            rt_fns: self.rt_fns.deep_view(),
            modules: self.modules.deep_view(),
            current: self.current,
        }
    }
}

/// What a name denotes.
#[derive(Debug, Clone, Copy)]
pub enum Resolution<'a> {
    Rt(&'a Signature),
    Machine(&'a MachineEntry),
    Ffi(&'a Signature),
    /// Compile-time constant.
    Const(&'a ConstEntry),
    /// Nominal record type.
    Record(&'a RecordEntry),
}

#[verifier::ext_equal]
pub enum ResolutionV {
    Rt(SignatureV),
    Machine(MachineEntryV),
    Ffi(SignatureV),
    Const(ConstEntryV),
    Record(RecordEntryV),
}

impl<'a> DeepView for Resolution<'a> {
    type V = ResolutionV;

    open spec fn deep_view(&self) -> ResolutionV {
        match *self {
            Resolution::Rt(s) => ResolutionV::Rt(s.deep_view()),
            Resolution::Machine(m) => ResolutionV::Machine(m.deep_view()),
            Resolution::Ffi(s) => ResolutionV::Ffi(s.deep_view()),
            Resolution::Const(c) => ResolutionV::Const(c.deep_view()),
            Resolution::Record(r) => ResolutionV::Record(r.deep_view()),
        }
    }
}

/// The type that a caller sees.
pub open spec fn return_type_text(r: ResolutionV) -> Text {
    match r {
        ResolutionV::Rt(s) => s.ret,
        ResolutionV::Ffi(s) => s.ret,
        ResolutionV::Machine(m) => if m.branches.len() > 0 {
            m.branches[0].ret
        } else {
            "pid"@
        },
        ResolutionV::Const(c) => c.ty,
        ResolutionV::Record(r) => r.name,
    }
}

impl<'a> Resolution<'a> {
    /// The return type a caller would see from this callable.
    pub fn return_type(&self) -> (r: &str)
        ensures
            r@ == return_type_text(self.deep_view()),
    {
        match self {
            Resolution::Rt(sig) => sig.ret.as_str(),
            Resolution::Ffi(sig) => sig.ret.as_str(),
            Resolution::Machine(m) => {
                if m.branches.len() > 0 {
                    m.branches[0].ret.as_str()
                } else {
                    "pid"
                }
            },
            Resolution::Const(c) => c.ty.as_str(),
            Resolution::Record(r) => r.name.as_str(),
        }
    }
}

impl RegistryV {
    /// Ids stand for modules that exist.
    pub open spec fn wf(self) -> bool {
        &&& 1 <= self.modules.len() <= u32::MAX
        &&& self.current.0 < self.modules.len()
        &&& forall|i: int, k: Text|
            0 <= i < self.modules.len() && #[trigger] self.modules[i].imports.contains_key(k)
                ==> self.modules[i].imports[k].target_module.0 < self.modules.len()
        &&& forall|i: int, k: Text|
            0 <= i < self.modules.len() && #[trigger] self.modules[i].machines.contains_key(k)
                ==> self.modules[i].machines[k].module.0 < self.modules.len()
    }

    pub open spec fn has(self, id: ModuleId) -> bool {
        id.0 < self.modules.len()
    }

    pub open spec fn scope(self, id: ModuleId) -> ScopeV {
        self.modules[id.0 as int]
    }

    /// The first module from `from` on that has `path`.
    pub open spec fn index_of_path(self, path: Seq<Text>, from: int) -> int
        decreases self.modules.len() - from,
    {
        if from >= self.modules.len() || self.modules[from].path == path {
            from
        } else {
            self.index_of_path(path, from + 1)
        }
    }

    /// The module at `path`.
    pub open spec fn id_for_path(self, path: Seq<Text>) -> Option<ModuleId> {
        let i = self.index_of_path(path, 0);
        if i < self.modules.len() {
            Some(ModuleId(i as u32))
        } else {
            None
        }
    }

    /// What `name` denotes among the items that a module declares itself.
    pub open spec fn resolved_in_module(self, id: ModuleId, name: Text) -> Option<ResolutionV> {
        let s = self.scope(id);
        if s.machines.contains_key(name) {
            Some(ResolutionV::Machine(s.machines[name]))
        } else if s.ffi_fns.contains_key(name) {
            Some(ResolutionV::Ffi(s.ffi_fns[name]))
        } else if s.consts.contains_key(name) {
            Some(ResolutionV::Const(s.consts[name]))
        } else if s.records.contains_key(name) {
            Some(ResolutionV::Record(s.records[name]))
        } else {
            None
        }
    }

    /// The first public machine or constant called `name`, in the modules
    /// from `from` on.
    pub open spec fn resolved_publicly(self, name: Text, from: int) -> Option<ResolutionV>
        decreases self.modules.len() - from,
    {
        if from >= self.modules.len() {
            None
        } else {
            let s = self.modules[from];
            if s.machines.contains_key(name) && s.machines[name].is_pub {
                Some(ResolutionV::Machine(s.machines[name]))
            } else if s.consts.contains_key(name) && s.consts[name].vis {
                Some(ResolutionV::Const(s.consts[name]))
            } else {
                self.resolved_publicly(name, from + 1)
            }
        }
    }

    /// Whether module `id` may import what a name denotes in module `from`:
    /// a machine of another module has to be `pub`.
    pub open spec fn may_import(self, id: ModuleId, from: ModuleId, r: Option<ResolutionV>) -> bool {
        r matches Some(ResolutionV::Machine(m)) ==> m.is_pub || from == id
    }

    /// What the bare name `name` denotes in a module: a runtime function, an
    /// item of the module, an imported item, or a public item of any module.
    pub open spec fn resolved(self, id: ModuleId, name: Text) -> Option<ResolutionV> {
        let s = self.scope(id);
        if self.rt_fns.contains_key(name) {
            Some(ResolutionV::Rt(self.rt_fns[name]))
        } else if self.resolved_in_module(id, name) is Some {
            self.resolved_in_module(id, name)
        } else if s.imports.contains_key(name) && s.imports[name].target_item is Some {
            let from = s.imports[name].target_module;
            let r = self.resolved_in_module(from, s.imports[name].target_item->0);
            if self.may_import(id, from, r) {
                r
            } else {
                self.resolved_publicly(name, 0)
            }
        } else {
            self.resolved_publicly(name, 0)
        }
    }

    /// The module and item that a path of segments denotes in module `id`:
    /// all but the last segment name a module, directly or through a
    /// namespace alias of the first.
    pub open spec fn path_target(self, id: ModuleId, segs: Seq<Text>) -> Option<(ModuleId, Text)> {
        if segs.len() < 2 {
            None
        } else {
            let module = segs.drop_last();
            let imports = self.scope(id).imports;
            if self.id_for_path(module) is Some {
                Some((self.id_for_path(module)->0, segs.last()))
            } else if imports.contains_key(module[0]) && imports[module[0]].target_item is None {
                let full = self.scope(imports[module[0]].target_module).path + module.skip(1);
                match self.id_for_path(full) {
                    Some(t) => Some((t, segs.last())),
                    None => None,
                }
            } else {
                None
            }
        }
    }
}

impl ProgramRegistry {
    /// Mutable access to a specific module's scope.
    pub fn module_mut(&mut self, id: ModuleId) -> (r: &mut ModuleScope)
        requires
            old(self).deep_view().has(id),
        ensures
            *r == old(self).modules@[id.0 as int],
            final(self).modules@ == old(self).modules@.update(id.0 as int, *final(r)),
            final(self).rt_fns == old(self).rt_fns,
            final(self).current == old(self).current,
    {
        &mut self.modules[id.0 as usize]
    }

    /// Read access to a specific module's scope.
    pub fn module(&self, id: ModuleId) -> (r: &ModuleScope)
        requires
            self.deep_view().has(id),
        ensures
            *r == self.modules@[id.0 as int],
            r.deep_view() == self.deep_view().scope(id),
    {
        &self.modules[id.0 as usize]
    }

    /// Switch the "current module" used for bare-name resolution.
    pub fn set_current(&mut self, id: ModuleId)
        requires
            old(self).deep_view().has(id),
        ensures
            final(self).deep_view() == (RegistryV { current: id, ..old(self).deep_view() }),
    {
        self.current = id;
    }

    /// Resolve a dotted module path to its id (`core.io` → the module of
    /// `core/io.lake`).
    pub fn module_id_for_path(&self, path: &ModulePath) -> (r: Option<ModuleId>)
        requires
            self.modules@.len() <= u32::MAX,
        ensures
            r == self.deep_view().id_for_path(path.deep_view()),
    {
        let mut i: usize = 0;
        while i < self.modules.len()
            invariant
                i <= self.modules.len() <= u32::MAX,
                self.deep_view().index_of_path(path.deep_view(), 0)
                    == self.deep_view().index_of_path(path.deep_view(), i as int),
            decreases self.modules.len() - i,
        {
            if self.modules[i].path.is_same(path) {
                return Some(ModuleId(i as u32));
            }
            i = i + 1;
        }
        None
    }

    /// Resolve `name` in a specific module.  Skips imports of the target
    /// module — those are private to that module.
    pub fn resolve_in_module(&self, id: ModuleId, name: &str) -> (r: Option<Resolution<'_>>)
        requires
            self.deep_view().has(id),
        ensures
            r.deep_view() == self.deep_view().resolved_in_module(id, name@),
    {
        let scope = self.module(id);
        if let Some(m) = scope.machines.get(name) {
            return Some(Resolution::Machine(m));
        }
        if let Some(sig) = scope.ffi_fns.get(name) {
            return Some(Resolution::Ffi(sig));
        }
        if let Some(c) = scope.consts.get(name) {
            return Some(Resolution::Const(c));
        }
        if let Some(r) = scope.records.get(name) {
            return Some(Resolution::Record(r));
        }
        None
    }

    /// Resolve a bare identifier in the current module.
    pub fn resolve_bare(&self, name: &str) -> (r: Option<Resolution<'_>>)
        requires
            self.deep_view().wf(),
        ensures
            r.deep_view() == self.deep_view().resolved(self.current, name@),
    {
        self.resolve_bare_in(self.current, name)
    }

    /// Resolve a bare name against a specific module's scope: runtime
    /// functions first, then the module's machines, foreign functions,
    /// constants and records, then its imports, then any public machine or
    /// constant.
    pub fn resolve_bare_in(&self, current: ModuleId, name: &str) -> (r: Option<Resolution<'_>>)
        requires
            self.deep_view().wf(),
            self.deep_view().has(current),
        ensures
            r.deep_view() == self.deep_view().resolved(current, name@),
    {
        if let Some(sig) = self.rt_fns.get(name) {
            return Some(Resolution::Rt(sig));
        }
        if let Some(r) = self.resolve_in_module(current, name) {
            return Some(r);
        }
        let cur = self.module(current);
        if let Some(binding) = cur.imports.get(name) {
            proof {
                assert(cur.deep_view().imports.contains_key(name@));
                assert(self.deep_view().modules[current.0 as int].imports.contains_key(name@));
            }
            if let Some(item) = &binding.target_item {
                let r = self.resolve_in_module(binding.target_module, item.as_str());
                let visible = match &r {
                    Some(Resolution::Machine(m)) => m.is_pub || binding.target_module == current,
                    _ => true,
                };
                if visible {
                    return r;
                }
            }
        }
        self.resolve_public(name)
    }

    fn resolve_public(&self, name: &str) -> (r: Option<Resolution<'_>>)
        ensures
            r.deep_view() == self.deep_view().resolved_publicly(name@, 0),
    {
        let mut i: usize = 0;
        while i < self.modules.len()
            invariant
                i <= self.modules.len(),
                self.deep_view().resolved_publicly(name@, 0)
                    == self.deep_view().resolved_publicly(name@, i as int),
            decreases self.modules.len() - i,
        {
            if let Some(m) = self.modules[i].machines.get(name) {
                if m.is_pub {
                    return Some(Resolution::Machine(m));
                }
            }
            if let Some(c) = self.modules[i].consts.get(name) {
                if c.vis {
                    return Some(Resolution::Const(c));
                }
            }
            i = i + 1;
        }
        None
    }

    /// Resolve a multi-segment path like `bytes:at` or `std:bytes:at` in the
    /// context of `current`.  Returns the target module id and the item name
    /// within it.
    pub fn resolve_path(&self, current: ModuleId, segments: &Vec<Spanned<Ident>>) -> (r: Option<
        (ModuleId, String),
    >)
        requires
            self.deep_view().wf(),
            self.deep_view().has(current),
        ensures
            match r {
                Some((id, item)) => self.deep_view().path_target(
                    current,
                    segment_texts(segments.deep_view()),
                ) == Some((id, item@)),
                None => self.deep_view().path_target(
                    current,
                    segment_texts(segments.deep_view()),
                ) is None,
            },
    {
        let ghost segs = segment_texts(segments.deep_view());
        if segments.len() < 2 {
            return None;
        }
        let n = segments.len();
        let last = segments[n - 1].inner.0.clone();
        let module_segs = names_of(segments, 0, n - 1);
        proof {
            assert(module_segs.deep_view() =~= segs.drop_last());
        }
        let direct = ModulePath(module_segs);
        if let Some(id) = self.module_id_for_path(&direct) {
            return Some((id, last));
        }
        let scope = self.module(current);
        match scope.imports.get(segments[0].inner.0.as_str()) {
            None => None,
            Some(binding) => {
                proof {
                    assert(segs.drop_last()[0] == segments@[0].inner.0@);
                    assert(self.deep_view().modules[current.0 as int].imports.contains_key(
                        segs.drop_last()[0],
                    ));
                }
                if binding.target_item.is_some() {
                    return None;
                }
                let target = self.module(binding.target_module);
                let mut full = dup_texts(&target.path.0);
                let mut rest = names_of(segments, 1, n - 1);
                proof {
                    assert(rest.deep_view() =~= segs.drop_last().skip(1));
                }
                let ghost a = full.deep_view();
                let ghost b = rest.deep_view();
                full.append(&mut rest);
                proof {
                    assert(full.deep_view() =~= a + b);
                }
                let expanded = ModulePath(full);
                match self.module_id_for_path(&expanded) {
                    Some(id) => Some((id, last)),
                    None => None,
                }
            },
        }
    }
}

/// The names of a path's segments.
pub open spec fn segment_texts(segs: Seq<Spanned<Text>>) -> Seq<Text> {
    Seq::new(segs.len(), |i: int| segs[i].inner)
}

/// The names of the identifiers `ids[from..to]`.
pub fn names_of(ids: &Vec<Spanned<Ident>>, from: usize, to: usize) -> (r: Vec<String>)
    requires
        from <= to <= ids@.len(),
    ensures
        r.deep_view() == segment_texts(ids.deep_view()).subrange(from as int, to as int),
        r@.len() == to - from,
{
    let mut out: Vec<String> = Vec::new();
    let mut i: usize = from;
    while i < to
        invariant
            from <= i <= to <= ids@.len(),
            out@.len() == i - from,
            forall|j: int| 0 <= j < i - from ==> (#[trigger] out@[j])@ == ids@[from + j].inner.0@,
        decreases to - i,
    {
        out.push(ids[i].inner.0.clone());
        i = i + 1;
    }
    proof {
        assert(out.deep_view() =~= segment_texts(ids.deep_view()).subrange(
            from as int,
            to as int,
        ));
    }
    out
}

} // verus!

verus! {

// ── registering modules ────────────────────────────────────────────────────

impl RegistryV {
    /// The registry after registering a module: known modules keep their id
    /// and at most gain a source path, new ones come last.
    pub open spec fn registered(self, path: Seq<Text>, source: Option<Text>) -> RegistryV {
        match self.id_for_path(path) {
            Some(id) => {
                let s = self.scope(id);
                let source_path = if s.source_path is None {
                    source
                } else {
                    s.source_path
                };
                RegistryV {
                    modules: self.modules.update(id.0 as int, ScopeV { source_path, ..s }),
                    ..self
                }
            },
            None => RegistryV { modules: self.modules.push(empty_scope(path, source)), ..self },
        }
    }

    /// `self` with the scope of `id` replaced.
    pub open spec fn with_scope(self, id: ModuleId, s: ScopeV) -> RegistryV {
        RegistryV { modules: self.modules.update(id.0 as int, s), ..self }
    }
}

pub proof fn index_of_path_bounds(reg: RegistryV, path: Seq<Text>, from: int)
    requires
        0 <= from <= reg.modules.len(),
    ensures
        from <= reg.index_of_path(path, from) <= reg.modules.len(),
        reg.index_of_path(path, from) < reg.modules.len() ==> reg.modules[reg.index_of_path(
            path,
            from,
        )].path == path,
        forall|j: int|
            from <= j < reg.index_of_path(path, from) ==> (#[trigger] reg.modules[j]).path != path,
    decreases reg.modules.len() - from,
{
    if from < reg.modules.len() && reg.modules[from].path != path {
        index_of_path_bounds(reg, path, from + 1);
    }
}

pub proof fn index_of_path_found(reg: RegistryV, path: Seq<Text>, from: int, at: int)
    requires
        0 <= from <= at < reg.modules.len(),
        reg.modules[at].path == path,
        forall|j: int| from <= j < at ==> (#[trigger] reg.modules[j]).path != path,
    ensures
        reg.index_of_path(path, from) == at,
    decreases at - from,
{
    if from < at {
        index_of_path_found(reg, path, from + 1, at);
    }
}

/// A module that was registered can be looked up by its path, under an id
/// that any module registered before at that path keeps.
pub proof fn registered_module_is_found(reg: RegistryV, path: Seq<Text>, source: Option<Text>)
    requires
        reg.modules.len() < u32::MAX,
    ensures
        reg.registered(path, source).id_for_path(path) is Some,
        reg.id_for_path(path) is Some ==> reg.registered(path, source).id_for_path(path)
            == reg.id_for_path(path),
        reg.id_for_path(path) is None ==> reg.registered(path, source).id_for_path(path) == Some(
            ModuleId(reg.modules.len() as u32),
        ),
{
    let after = reg.registered(path, source);
    index_of_path_bounds(reg, path, 0);
    let i = reg.index_of_path(path, 0);
    if i < reg.modules.len() {
        index_of_path_found(after, path, 0, i);
    } else {
        assert(i == reg.modules.len());
        index_of_path_found(after, path, 0, i);
    }
}

/// Registering a path twice is registering it once.
pub proof fn registering_twice_is_registering_once(
    reg: RegistryV,
    path: Seq<Text>,
    a: Option<Text>,
    b: Option<Text>,
)
    requires
        reg.modules.len() < u32::MAX,
        a is Some,
    ensures
        reg.registered(path, a).registered(path, b) == reg.registered(path, a),
{
    registered_module_is_found(reg, path, a);
    let once = reg.registered(path, a);
    index_of_path_bounds(once, path, 0);
    let id = once.id_for_path(path)->0;
    index_of_path_bounds(reg, path, 0);
    assert(once.scope(id).source_path is Some);
    assert(once.modules.update(id.0 as int, once.scope(id)) =~= once.modules);
}

/// Registering keeps ids meaningful.
pub proof fn registered_keeps_wf(reg: RegistryV, path: Seq<Text>, source: Option<Text>)
    requires
        reg.wf(),
        reg.modules.len() < u32::MAX,
    ensures
        reg.registered(path, source).wf(),
        reg.registered(path, source).modules.len() >= reg.modules.len(),
        reg.registered(path, source).modules.len() <= reg.modules.len() + 1,
{
    let after = reg.registered(path, source);
    index_of_path_bounds(reg, path, 0);
    assert forall|i: int, k: Text|
        0 <= i < after.modules.len() && #[trigger] after.modules[i].imports.contains_key(
            k,
        ) implies after.modules[i].imports[k].target_module.0 < after.modules.len() by {
        if i < reg.modules.len() {
            assert(reg.modules[i].imports.contains_key(k));
        }
    }
    assert forall|i: int, k: Text|
        0 <= i < after.modules.len() && #[trigger] after.modules[i].machines.contains_key(
            k,
        ) implies after.modules[i].machines[k].module.0 < after.modules.len() by {
        if i < reg.modules.len() {
            assert(reg.modules[i].machines.contains_key(k));
        }
    }
}

/// The registry that knows the given runtime functions and an empty root
/// module.
pub open spec fn fresh_registry(rt_fns: Map<Text, SignatureV>) -> RegistryV {
    RegistryV {
        rt_fns,
        modules: seq![empty_scope(Seq::empty(), None)],
        current: ModuleId(0),
    }
}

pub proof fn scope_replaced(a: ProgramRegistry, b: ProgramRegistry, id: ModuleId, s: ModuleScope)
    requires
        id.0 < a.modules@.len(),
        b.modules@ == a.modules@.update(id.0 as int, s),
        b.rt_fns == a.rt_fns,
        b.current == a.current,
    ensures
        b.deep_view() == a.deep_view().with_scope(id, s.deep_view()),
{
    assert(b.deep_view().modules =~= a.deep_view().modules.update(id.0 as int, s.deep_view()));
}

impl ProgramRegistry {
    /// Construct a registry with the given runtime functions and an empty
    /// root module.
    pub fn with_rt_fns(rt_fns: NameMap<Signature>) -> (r: ProgramRegistry)
        ensures
            r.deep_view() == fresh_registry(rt_fns.deep_view()),
            r.deep_view().wf(),
    {
        let mut modules: Vec<ModuleScope> = Vec::new();
        modules.push(ModuleScope::new(ModulePath::root(), None));
        let r = ProgramRegistry { rt_fns, modules, current: ModuleId::root() };
        proof {
            assert(r.deep_view().modules =~= seq![empty_scope(Seq::<Text>::empty(), None)]);
        }
        r
    }

    /// Construct a registry pre-populated with the built-in runtime
    /// functions and an empty root module.
    pub fn with_rt() -> (r: ProgramRegistry)
        ensures
            r.deep_view() == fresh_registry(builtin_fns()),
            r.deep_view().wf(),
    {
        let mut rt: NameMap<Signature> = NameMap::new();
        let mut params: Vec<String> = Vec::new();
        params.push("i64".to_owned());
        let sig = Signature { params, ret: "i64".to_owned() };
        let ghost before = rt;
        rt.insert("rt_listen_tcp".to_owned(), sig);
        proof {
            name_map::insert_deep(before, rt, "rt_listen_tcp"@, sig);
            assert(before.deep_view() =~= Map::<Text, SignatureV>::empty());
            assert(sig.deep_view().params =~= seq!["i64"@]);
            assert(rt.deep_view() =~= builtin_fns());
        }
        ProgramRegistry::with_rt_fns(rt)
    }

    /// Register a fresh module and return its id.  If a module at this path
    /// is already known, returns the existing id (modules are uniqued by
    /// path) and only fills in a missing source path.
    pub fn register_module(&mut self, path: ModulePath, source_path: Option<String>) -> (r: ModuleId)
        requires
            old(self).modules@.len() < u32::MAX,
        ensures
            final(self).deep_view() == old(self).deep_view().registered(
                path.deep_view(),
                source_path.deep_view(),
            ),
            final(self).deep_view().id_for_path(path.deep_view()) == Some(r),
            final(self).modules@.len() <= old(self).modules@.len() + 1,
    {
        let ghost before = *self;
        proof {
            registered_module_is_found(
                before.deep_view(),
                path.deep_view(),
                source_path.deep_view(),
            );
            index_of_path_bounds(before.deep_view(), path.deep_view(), 0);
        }
        if let Some(id) = self.module_id_for_path(&path) {
            if self.modules[id.0 as usize].source_path.is_none() {
                let slot = self.module_mut(id);
                slot.source_path = source_path;
                proof {
                    scope_replaced(before, *self, id, self.modules@[id.0 as int]);
                }
            } else {
                proof {
                    let v = before.deep_view();
                    assert(v.modules.update(id.0 as int, v.scope(id)) =~= v.modules);
                }
            }
            return id;
        }
        let id = ModuleId(self.modules.len() as u32);
        self.modules.push(ModuleScope::new(path, source_path));
        proof {
            assert(self.deep_view().modules =~= before.deep_view().modules.push(
                empty_scope(path.deep_view(), source_path.deep_view()),
            ));
        }
        id
    }
}

/// The built-in runtime functions.
pub open spec fn builtin_fns() -> Map<Text, SignatureV> {
    Map::empty().insert(
        "rt_listen_tcp"@,
        SignatureV { params: seq!["i64"@], ret: "i64"@ },
    )
}

// ── lookups over all modules ───────────────────────────────────────────────

impl RegistryV {
    /// The first enum called `name` in the modules from `from` on.
    pub open spec fn enum_from(self, name: Text, from: int) -> Option<EnumEntryV>
        decreases self.modules.len() - from,
    {
        if from >= self.modules.len() {
            None
        } else if self.modules[from].enums.contains_key(name) {
            Some(self.modules[from].enums[name])
        } else {
            self.enum_from(name, from + 1)
        }
    }

    /// The enum called `name`: the one of module `id`, or else the first.
    pub open spec fn enum_in(self, id: ModuleId, name: Text) -> Option<EnumEntryV> {
        if self.scope(id).enums.contains_key(name) {
            Some(self.scope(id).enums[name])
        } else {
            self.enum_from(name, 0)
        }
    }

    /// The first proto called `name` in the modules from `from` on.
    pub open spec fn proto_from(self, name: Text, from: int) -> Option<ProtoEntryV>
        decreases self.modules.len() - from,
    {
        if from >= self.modules.len() {
            None
        } else if self.modules[from].protos.contains_key(name) {
            Some(self.modules[from].protos[name])
        } else {
            self.proto_from(name, from + 1)
        }
    }

    /// All impl assertions of the first `n` modules.
    pub open spec fn impls_of_first(self, n: nat) -> Seq<ImplEntryV>
        decreases n,
    {
        if n == 0 {
            Seq::empty()
        } else {
            self.impls_of_first((n - 1) as nat) + self.modules[n - 1].impls
        }
    }

    /// Whether some machine called `name` has a branch that fits the
    /// parameter types and the return type.
    pub open spec fn has_method(self, name: Text, params: Seq<Text>, ret: Text) -> bool {
        exists|i: int, b: int|
            0 <= i < self.modules.len() && self.modules[i].machines.contains_key(name) && 0 <= b
                < self.modules[i].machines[name].branches.len() && #[trigger] signature_fits(
                self.modules[i].machines[name].branches[b],
                params,
                ret,
            )
    }
}

/// Whether a branch signature fits required parameter and return types.
pub open spec fn signature_fits(sig: SignatureV, params: Seq<Text>, ret: Text) -> bool {
    loosely_match(params, sig.params) && (ret == "_"@ || base_of(sig.ret) == base_of(ret) || ret
        == "pid"@)
}

/// Whether required and actual parameter types agree: same number, and each
/// required one is `_`, equal, or equal up to generic arguments.
pub open spec fn loosely_match(required: Seq<Text>, got: Seq<Text>) -> bool {
    &&& required.len() == got.len()
    &&& forall|i: int|
        0 <= i < required.len() ==> required[i] == "_"@ || #[trigger] required[i] == got[i]
            || base_of(required[i]) == base_of(got[i])
}

/// The first position from `from` on that opens a generic argument list.
pub open spec fn args_start(s: Text, from: int) -> int
    decreases s.len() - from,
{
    if from >= s.len() || s[from] == '[' || s[from] == '<' {
        from
    } else {
        args_start(s, from + 1)
    }
}

/// A type's name without its generic arguments.
pub open spec fn base_of(s: Text) -> Text {
    let i = args_start(s, 0);
    if i < s.len() {
        text::trimmed_end(s.take(i))
    } else {
        s
    }
}

/// Base type name with any generic argument clause stripped:
/// `Vec[T]` → `Vec`, `i64` → `i64`.
pub fn ty_base(s: &str) -> (r: String)
    ensures
        r@ == base_of(s@),
{
    let cs = text::chars_of(s);
    let mut i: usize = 0;
    while i < cs.len() && cs[i] != '[' && cs[i] != '<'
        invariant
            i <= cs.len(),
            cs@ == s@,
            args_start(s@, 0) == args_start(s@, i as int),
        decreases cs.len() - i,
    {
        i = i + 1;
    }
    if i < cs.len() {
        text::trim_end(&cs, i)
    } else {
        s.to_owned()
    }
}

/// Proto-requirement parameter matcher: same arity, and each required
/// parameter equals the candidate either exactly, by base name (generic
/// arguments ignored), or via the `_` wildcard.
pub fn params_loosely_match(required: &Vec<String>, got: &Vec<String>) -> (r: bool)
    ensures
        r == loosely_match(required.deep_view(), got.deep_view()),
{
    if required.len() != got.len() {
        return false;
    }
    let mut i: usize = 0;
    while i < required.len()
        invariant
            i <= required.len(),
            required.len() == got.len(),
            forall|j: int|
                0 <= j < i ==> required.deep_view()[j] == "_"@ || #[trigger] required.deep_view()[j]
                    == got.deep_view()[j] || base_of(required.deep_view()[j]) == base_of(
                    got.deep_view()[j],
                ),
        decreases required.len() - i,
    {
        let a = required[i].as_str();
        let b = got[i].as_str();
        if !same(a, "_") && !same(a, b) {
            let x = ty_base(a);
            let y = ty_base(b);
            if !same(x.as_str(), y.as_str()) {
                proof {
                    let k = i as int;
                    assert(required.deep_view()[k] == a@);
                    assert(got.deep_view()[k] == b@);
                }
                return false;
            }
        }
        i = i + 1;
    }
    true
}

impl ProgramRegistry {
    /// Look up an enum by source name in the current module first, then in
    /// any other module.
    pub fn lookup_enum(&self, name: &str) -> (r: Option<&EnumEntry>)
        requires
            self.deep_view().has(self.current),
        ensures
            match r {
                Some(e) => self.deep_view().enum_in(self.current, name@) == Some(e.deep_view()),
                None => self.deep_view().enum_in(self.current, name@) is None,
            },
    {
        self.lookup_enum_in(self.current, name)
    }

    /// Same as [`Self::lookup_enum`] but pinned to a specific module.
    pub fn lookup_enum_in(&self, current: ModuleId, name: &str) -> (r: Option<&EnumEntry>)
        requires
            self.deep_view().has(current),
        ensures
            match r {
                Some(e) => self.deep_view().enum_in(current, name@) == Some(e.deep_view()),
                None => self.deep_view().enum_in(current, name@) is None,
            },
    {
        if let Some(e) = self.module(current).enums.get(name) {
            return Some(e);
        }
        self.any_enum(name)
    }

    fn any_enum(&self, name: &str) -> (r: Option<&EnumEntry>)
        ensures
            match r {
                Some(e) => self.deep_view().enum_from(name@, 0) == Some(e.deep_view()),
                None => self.deep_view().enum_from(name@, 0) is None,
            },
    {
        let mut i: usize = 0;
        while i < self.modules.len()
            invariant
                i <= self.modules.len(),
                self.deep_view().enum_from(name@, 0) == self.deep_view().enum_from(
                    name@,
                    i as int,
                ),
            decreases self.modules.len() - i,
        {
            if let Some(e) = self.modules[i].enums.get(name) {
                return Some(e);
            }
            i = i + 1;
        }
        None
    }

    /// Look up a proto by source name across all modules.
    pub fn lookup_proto(&self, name: &str) -> (r: Option<&ProtoEntry>)
        ensures
            match r {
                Some(e) => self.deep_view().proto_from(name@, 0) == Some(e.deep_view()),
                None => self.deep_view().proto_from(name@, 0) is None,
            },
    {
        let mut i: usize = 0;
        while i < self.modules.len()
            invariant
                i <= self.modules.len(),
                self.deep_view().proto_from(name@, 0) == self.deep_view().proto_from(
                    name@,
                    i as int,
                ),
            decreases self.modules.len() - i,
        {
            if let Some(e) = self.modules[i].protos.get(name) {
                return Some(e);
            }
            i = i + 1;
        }
        None
    }

    /// Every explicit `X is Eq` assertion across all modules.
    pub fn all_impls(&self) -> (r: Vec<&ImplEntry>)
        ensures
            Seq::new(r@.len(), |i: int| r@[i].deep_view()) == self.deep_view().impls_of_first(
                self.modules@.len(),
            ),
    {
        let mut out: Vec<&ImplEntry> = Vec::new();
        let mut i: usize = 0;
        proof {
            assert(Seq::new(out@.len(), |k: int| out@[k].deep_view()) =~= Seq::<
                ImplEntryV,
            >::empty());
        }
        while i < self.modules.len()
            invariant
                i <= self.modules.len(),
                Seq::new(out@.len(), |k: int| out@[k].deep_view())
                    == self.deep_view().impls_of_first(i as nat),
            decreases self.modules.len() - i,
        {
            let impls = &self.modules[i].impls;
            let ghost start = out@;
            let mut j: usize = 0;
            while j < impls.len()
                invariant
                    j <= impls.len(),
                    out@.len() == start.len() + j,
                    forall|k: int| 0 <= k < start.len() ==> out@[k] == start[k],
                    forall|k: int| 0 <= k < j ==> *#[trigger] out@[start.len() + k] == impls@[k],
                decreases impls.len() - j,
            {
                out.push(&impls[j]);
                j = j + 1;
            }
            proof {
                let whole = Seq::new(out@.len(), |k: int| out@[k].deep_view());
                let head = Seq::new(start.len(), |k: int| start[k].deep_view());
                assert forall|k: int| 0 <= k < whole.len() implies #[trigger] whole[k] == (head
                    + impls.deep_view())[k] by {
                    if k >= start.len() {
                        let m = k - start.len();
                        assert(*out@[start.len() + m] == impls@[m]);
                    }
                }
                assert(whole =~= head + impls.deep_view());
                assert(self.deep_view().modules[i as int].impls == impls.deep_view());
            }
            i = i + 1;
        }
        out
    }

    /// Whether a machine called `name` exists anywhere with a branch that
    /// fits the parameter types and the return type.
    pub fn has_method_with_sig(&self, name: &str, params: &Vec<String>, ret: &str) -> (r: bool)
        ensures
            r == self.deep_view().has_method(name@, params.deep_view(), ret@),
    {
        let ghost v = self.deep_view();
        let ret_base = ty_base(ret);
        let mut i: usize = 0;
        while i < self.modules.len()
            invariant
                i <= self.modules.len(),
                v == self.deep_view(),
                ret_base@ == base_of(ret@),
                forall|k: int, b: int|
                    0 <= k < i && v.modules[k].machines.contains_key(name@) && 0 <= b
                        < v.modules[k].machines[name@].branches.len() ==> !#[trigger]
                    signature_fits(
                        v.modules[k].machines[name@].branches[b],
                        params.deep_view(),
                        ret@,
                    ),
            decreases self.modules.len() - i,
        {
            if let Some(m) = self.modules[i].machines.get(name) {
                let mut b: usize = 0;
                while b < m.branches.len()
                    invariant
                        i < self.modules.len(),
                        v == self.deep_view(),
                        b <= m.branches.len(),
                        ret_base@ == base_of(ret@),
                        v.modules[i as int].machines.contains_key(name@),
                        v.modules[i as int].machines[name@] == m.deep_view(),
                        forall|c: int|
                            0 <= c < b ==> !#[trigger] signature_fits(
                                v.modules[i as int].machines[name@].branches[c],
                                params.deep_view(),
                                ret@,
                            ),
                    decreases m.branches.len() - b,
                {
                    let sig = &m.branches[b];
                    if params_loosely_match(params, &sig.params) {
                        let got = ty_base(sig.ret.as_str());
                        if same(ret, "_") || same(got.as_str(), ret_base.as_str()) || same(
                            ret,
                            "pid",
                        ) {
                            proof {
                                assert(signature_fits(
                                    v.modules[i as int].machines[name@].branches[b as int],
                                    params.deep_view(),
                                    ret@,
                                ));
                            }
                            return true;
                        }
                    }
                    b = b + 1;
                }
            }
            i = i + 1;
        }
        false
    }
}

} // verus!

verus! {

/// A machine that a name resolves to belongs to a module that exists.
pub proof fn resolved_machine_has_module(reg: RegistryV, id: ModuleId, name: Text)
    requires
        reg.wf(),
        reg.has(id),
    ensures
        reg.resolved(id, name) matches Some(ResolutionV::Machine(m)) ==> reg.has(m.module),
{
    let s = reg.scope(id);
    if reg.rt_fns.contains_key(name) {
    } else if reg.resolved_in_module(id, name) is Some {
        own_machine_has_module(reg, id, name);
    } else if s.imports.contains_key(name) && s.imports[name].target_item is Some {
        assert(reg.modules[id.0 as int].imports.contains_key(name));
        own_machine_has_module(reg, s.imports[name].target_module, s.imports[name].target_item->0);
        public_machine_has_module(reg, name, 0);
    } else {
        public_machine_has_module(reg, name, 0);
    }
}

proof fn own_machine_has_module(reg: RegistryV, id: ModuleId, name: Text)
    requires
        reg.wf(),
        reg.has(id),
    ensures
        reg.resolved_in_module(id, name) matches Some(ResolutionV::Machine(m)) ==> reg.has(
            m.module,
        ),
{
    if reg.scope(id).machines.contains_key(name) {
        assert(reg.modules[id.0 as int].machines.contains_key(name));
    }
}

proof fn public_machine_has_module(reg: RegistryV, name: Text, from: int)
    requires
        reg.wf(),
        0 <= from,
    ensures
        reg.resolved_publicly(name, from) matches Some(ResolutionV::Machine(m)) ==> reg.has(
            m.module,
        ),
    decreases reg.modules.len() - from,
{
    if from < reg.modules.len() {
        let s = reg.modules[from];
        if s.machines.contains_key(name) && s.machines[name].is_pub {
            assert(reg.modules[from].machines.contains_key(name));
        } else {
            public_machine_has_module(reg, name, from + 1);
        }
    }
}

} // verus!
