//! What the monomorphiser has found out so far.

use vstd::prelude::*;

use crate::api::ast;
use crate::api::ast::{
    EnumDecl, EnumDeclV, Ident, Machine, MachineV, RecordDecl, RecordDeclV, Type, TypeV,
};
use crate::error_handle::{ErrorV, LakeError};
use crate::mono::types;
use crate::mono::types::{bind_or_check, mangle_type, src_named};
use crate::name_map::NameMap;
use crate::registry::{same_texts, ModuleId, ProgramRegistry, RegistryV};
use crate::span;
use crate::span::{SimpleSpan, SpanWrap, Spanned};
use crate::text;
use crate::text::{cat3, join_texts, same, Text};

verus! {

/// A concrete copy: the template's name, the suffixes of its type arguments
/// and the copy's own name.
pub struct Inst {
    pub base: String,
    pub args: Vec<String>,
    pub name: String,
}

#[verifier::ext_equal]
pub struct InstV {
    pub base: Text,
    pub args: Seq<Text>,
    pub name: Text,
}

impl DeepView for Inst {
    type V = InstV;

    open spec fn deep_view(&self) -> InstV {
        InstV { base: self.base@, args: self.args.deep_view(), name: self.name@ }
    }
}

/// A concrete copy that has yet to be made.
pub struct MonoJob {
    pub kind: JobKind,
    pub base: String,
    pub args: Vec<Type>,
    pub name: String,
}

/// What a copy is made of.
#[derive(Clone, Copy, PartialEq, Eq, Structural)]
pub enum JobKind {
    Record,
    Machine(ModuleId),
    Enum,
}

#[verifier::ext_equal]
pub struct JobV {
    pub kind: JobKind,
    pub base: Text,
    pub args: Seq<TypeV>,
    pub name: Text,
}

impl DeepView for MonoJob {
    type V = JobV;

    open spec fn deep_view(&self) -> JobV {
        JobV {
            kind: self.kind,
            base: self.base@,
            args: self.args.deep_view(),
            name: self.name@,
        }
    }
}

/// The copies asked for so far, those still to be made, and the errors.
pub struct MonoState {
    pub records: Vec<Inst>,
    pub machines: Vec<Inst>,
    pub enums: Vec<Inst>,
    pub work: Vec<MonoJob>,
    pub errors: Vec<LakeError>,
}

#[verifier::ext_equal]
pub struct MonoV {
    pub records: Seq<InstV>,
    pub machines: Seq<InstV>,
    pub enums: Seq<InstV>,
    pub work: Seq<JobV>,
    pub errors: Seq<ErrorV>,
}

impl DeepView for MonoState {
    type V = MonoV;

    open spec fn deep_view(&self) -> MonoV {
        MonoV {
            records: self.records.deep_view(),
            machines: self.machines.deep_view(),
            enums: self.enums.deep_view(),
            work: self.work.deep_view(),
            errors: self.errors.deep_view(),
        }
    }
}

/// A generic machine and the module that declares it.
pub struct MachineTemplate {
    pub module: ModuleId,
    pub decl: Machine,
}

#[verifier::ext_equal]
pub struct MachineTemplateV {
    pub module: ModuleId,
    pub decl: MachineV,
}

impl DeepView for MachineTemplate {
    type V = MachineTemplateV;

    open spec fn deep_view(&self) -> MachineTemplateV {
        MachineTemplateV { module: self.module, decl: self.decl.deep_view() }
    }
}

/// The generic declarations of a program.  Machines of one name may be
/// declared in several modules.
pub struct Templates {
    pub records: NameMap<RecordDecl>,
    pub machines: Vec<MachineTemplate>,
    pub enums: NameMap<EnumDecl>,
    /// The module that declares a name last.
    pub owners: NameMap<ModuleId>,
}

#[verifier::ext_equal]
pub struct TemplatesV {
    pub records: Map<Text, RecordDeclV>,
    pub machines: Seq<MachineTemplateV>,
    pub enums: Map<Text, EnumDeclV>,
    pub owners: Map<Text, ModuleId>,
}

impl DeepView for Templates {
    type V = TemplatesV;

    open spec fn deep_view(&self) -> TemplatesV {
        TemplatesV {
            records: self.records.deep_view(),
            machines: self.machines.deep_view(),
            enums: self.enums.deep_view(),
            owners: self.owners@,
        }
    }
}

/// What stays the same while a program is monomorphised.
pub struct MonoCx<'a> {
    pub registry: &'a ProgramRegistry,
    pub templates: &'a Templates,
    /// What the type parameters stand for in the copy that is walked.
    pub subst: &'a NameMap<Type>,
}

#[verifier::ext_equal]
pub struct EnvV {
    pub reg: RegistryV,
    pub templates: TemplatesV,
    pub subst: Map<Text, TypeV>,
}

impl<'a> DeepView for MonoCx<'a> {
    type V = EnvV;

    open spec fn deep_view(&self) -> EnvV {
        EnvV {
            reg: self.registry.deep_view(),
            templates: self.templates.deep_view(),
            subst: self.subst.deep_view(),
        }
    }
}

// ── tables of copies ───────────────────────────────────────────────────────

/// The first copy from `from` on with this template and these arguments.
pub open spec fn inst_index(table: Seq<InstV>, base: Text, args: Seq<Text>, from: int) -> int
    decreases table.len() - from,
{
    if from >= table.len() || (table[from].base == base && table[from].args == args) {
        from
    } else {
        inst_index(table, base, args, from + 1)
    }
}

/// The first copy from `from` on with this name and template and this many
/// arguments.
pub open spec fn named_inst(table: Seq<InstV>, name: Text, base: Text, n: nat, from: int) -> int
    decreases table.len() - from,
{
    if from >= table.len() || (table[from].name == name && table[from].base == base
        && table[from].args.len() == n) {
        from
    } else {
        named_inst(table, name, base, n, from + 1)
    }
}

/// Whether a copy in the table has this name.
pub open spec fn has_inst(table: Seq<InstV>, name: Text) -> bool {
    exists|i: int| 0 <= i < table.len() && (#[trigger] table[i]).name == name
}

/// The name of the copy of `base` with these arguments.
pub open spec fn inst_name(base: Text, args: Seq<Text>) -> Text {
    base + "_"@ + text::join(args, "_"@)
}

/// The suffixes of type arguments.
pub open spec fn keys_of(args: Seq<TypeV>) -> Seq<Text> {
    Seq::new(args.len(), |i: int| types::type_key(args[i]))
}

/// The name of a copy of a record, and what is known after asking for it.
pub open spec fn record_asked(m: MonoV, base: Text, args: Seq<TypeV>) -> (Text, MonoV) {
    let keys = keys_of(args);
    let i = inst_index(m.records, base, keys, 0);
    if 0 <= i < m.records.len() {
        (m.records[i].name, m)
    } else {
        let name = inst_name(base, keys);
        (
            name,
            MonoV {
                records: m.records.push(InstV { base, args: keys, name }),
                work: m.work.push(JobV { kind: JobKind::Record, base, args, name }),
                ..m
            },
        )
    }
}

/// The name of a copy of an enum, and what is known after asking for it.
pub open spec fn enum_asked(m: MonoV, base: Text, args: Seq<TypeV>) -> (Text, MonoV) {
    let keys = keys_of(args);
    let i = inst_index(m.enums, base, keys, 0);
    if 0 <= i < m.enums.len() {
        (m.enums[i].name, m)
    } else {
        let name = inst_name(base, keys);
        (
            name,
            MonoV {
                enums: m.enums.push(InstV { base, args: keys, name }),
                work: m.work.push(JobV { kind: JobKind::Enum, base, args, name }),
                ..m
            },
        )
    }
}

/// Every copy in a table goes by the name that its template and arguments
/// give it, and no copy is in it twice.
pub open spec fn table_ok(table: Seq<InstV>) -> bool {
    &&& forall|i: int|
        0 <= i < table.len() ==> (#[trigger] table[i]).name == inst_name(
            table[i].base,
            table[i].args,
        )
    &&& forall|i: int, j: int|
        #![trigger table[i], table[j]]
        0 <= i < j < table.len() ==> !(table[i].base == table[j].base && table[i].args
            == table[j].args)
}

proof fn inst_index_bounds(table: Seq<InstV>, base: Text, args: Seq<Text>, from: int)
    requires
        0 <= from <= table.len(),
    ensures
        from <= inst_index(table, base, args, from) <= table.len(),
        forall|j: int|
            from <= j < inst_index(table, base, args, from) ==> !((#[trigger] table[j]).base == base
                && table[j].args == args),
        inst_index(table, base, args, from) < table.len() ==> {
            let e = table[inst_index(table, base, args, from)];
            e.base == base && e.args == args
        },
    decreases table.len() - from,
{
    if from < table.len() && !(table[from].base == base && table[from].args == args) {
        inst_index_bounds(table, base, args, from + 1);
    }
}

/// Asking for a copy of a record gives the name that template and arguments
/// make up, and asks for each copy once.
pub proof fn asking_for_a_record(m: MonoV, base: Text, args: Seq<TypeV>)
    requires
        table_ok(m.records),
    ensures
        record_asked(m, base, args).0 == inst_name(base, keys_of(args)),
        table_ok(record_asked(m, base, args).1.records),
        record_asked(record_asked(m, base, args).1, base, args) == record_asked(m, base, args),
{
    let keys = keys_of(args);
    inst_index_bounds(m.records, base, keys, 0);
    let i = inst_index(m.records, base, keys, 0);
    if i >= m.records.len() {
        let m2 = record_asked(m, base, args).1;
        inst_index_bounds(m2.records, base, keys, 0);
        let k = inst_index(m2.records, base, keys, 0);
        if k < m.records.len() {
            assert(m2.records[k] == m.records[k]);
        }
        if k == m2.records.len() {
            assert(m2.records[m.records.len() as int].base == base);
        }
    }
}

/// Asking for a copy of an enum gives the name that template and arguments
/// make up, and asks for each copy once.
pub proof fn asking_for_an_enum(m: MonoV, base: Text, args: Seq<TypeV>)
    requires
        table_ok(m.enums),
    ensures
        enum_asked(m, base, args).0 == inst_name(base, keys_of(args)),
        table_ok(enum_asked(m, base, args).1.enums),
        enum_asked(enum_asked(m, base, args).1, base, args) == enum_asked(m, base, args),
{
    let keys = keys_of(args);
    inst_index_bounds(m.enums, base, keys, 0);
    let m2 = enum_asked(m, base, args).1;
    added_inst_is_found(m.enums, base, keys);
}

/// A copy that is put into a table is found there.
pub proof fn added_inst_is_found(table: Seq<InstV>, base: Text, args: Seq<Text>)
    ensures
        ({
            let i = inst_index(table, base, args, 0);
            let new = InstV { base, args, name: inst_name(base, args) };
            let k = inst_index(table.push(new), base, args, 0);
            &&& 0 <= i <= table.len()
            &&& table_ok(table) && i < table.len() ==> table[i].name == inst_name(base, args)
            &&& i == table.len() ==> k == i && (table_ok(table) ==> table_ok(table.push(new)))
        }),
{
    let new = InstV { base, args, name: inst_name(base, args) };
    let after = table.push(new);
    inst_index_bounds(table, base, args, 0);
    inst_index_bounds(after, base, args, 0);
    let i = inst_index(table, base, args, 0);
    let k = inst_index(after, base, args, 0);
    if i == table.len() {
        assert(after[table.len() as int] == new);
        if k < table.len() {
            assert(after[k] == table[k]);
        }
    }
}

pub fn find_inst(table: &Vec<Inst>, base: &str, args: &Vec<String>) -> (r: usize)
    ensures
        r == inst_index(table.deep_view(), base@, args.deep_view(), 0),
        r <= table@.len(),
{
    let ghost tv = table.deep_view();
    let mut i: usize = 0;
    while i < table.len()
        invariant
            i <= table.len(),
            tv == table.deep_view(),
            inst_index(tv, base@, args.deep_view(), 0) == inst_index(
                tv,
                base@,
                args.deep_view(),
                i as int,
            ),
        decreases table.len() - i,
    {
        proof {
            assert(tv[i as int] == table@[i as int].deep_view());
        }
        if same(table[i].base.as_str(), base) && same_texts(&table[i].args, args) {
            return i;
        }
        i = i + 1;
    }
    i
}

/// The position of the copy with this name and template and this many
/// arguments.
pub fn find_named_inst(table: &Vec<Inst>, name: &str, base: &str, n: usize) -> (r: usize)
    ensures
        r == named_inst(table.deep_view(), name@, base@, n as nat, 0),
        r <= table@.len(),
{
    let ghost tv = table.deep_view();
    let mut i: usize = 0;
    while i < table.len()
        invariant
            i <= table.len(),
            tv == table.deep_view(),
            named_inst(tv, name@, base@, n as nat, 0) == named_inst(
                tv,
                name@,
                base@,
                n as nat,
                i as int,
            ),
        decreases table.len() - i,
    {
        proof {
            assert(tv[i as int] == table@[i as int].deep_view());
            assert(tv[i as int].args.len() == table@[i as int].args@.len());
        }
        if same(table[i].name.as_str(), name) && same(table[i].base.as_str(), base)
            && table[i].args.len() == n {
            return i;
        }
        i = i + 1;
    }
    i
}

/// Whether a copy in the table has this name.
pub fn any_inst(table: &Vec<Inst>, name: &str) -> (r: bool)
    ensures
        r == has_inst(table.deep_view(), name@),
{
    let ghost tv = table.deep_view();
    let mut i: usize = 0;
    while i < table.len()
        invariant
            i <= table.len(),
            tv == table.deep_view(),
            forall|j: int| 0 <= j < i ==> (#[trigger] tv[j]).name != name@,
        decreases table.len() - i,
    {
        proof {
            assert(tv[i as int] == table@[i as int].deep_view());
        }
        if same(table[i].name.as_str(), name) {
            return true;
        }
        i = i + 1;
    }
    false
}

/// The suffixes of type arguments.
pub fn keys_text(args: &Vec<Type>) -> (r: Vec<String>)
    ensures
        r.deep_view() == keys_of(args.deep_view()),
{
    let mut out: Vec<String> = Vec::new();
    let mut i: usize = 0;
    while i < args.len()
        invariant
            i <= args.len(),
            out@.len() == i,
            forall|j: int|
                0 <= j < i ==> (#[trigger] out@[j])@ == types::type_key(
                    ast::type_view(args@[j]),
                ),
        decreases args.len() - i,
    {
        out.push(mangle_type(&args[i]));
        i = i + 1;
    }
    proof {
        assert(out.deep_view() =~= keys_of(args.deep_view()));
    }
    out
}

/// The name of the copy of `base` with these arguments.
pub fn inst_name_text(base: &str, keys: &Vec<String>) -> (r: String)
    ensures
        r@ == inst_name(base@, keys.deep_view()),
{
    cat3(base, "_", join_texts(keys, "_").as_str())
}

/// Adds a copy to a table.
pub fn push_inst(table: &mut Vec<Inst>, inst: Inst)
    ensures
        final(table).deep_view() == old(table).deep_view().push(inst.deep_view()),
{
    let ghost before = table.deep_view();
    let ghost v = inst.deep_view();
    table.push(inst);
    proof {
        assert(table.deep_view() =~= before.push(v));
    }
}

/// Adds a copy to those still to be made.
pub fn push_job(work: &mut Vec<MonoJob>, job: MonoJob)
    ensures
        final(work).deep_view() == old(work).deep_view().push(job.deep_view()),
{
    let ghost before = work.deep_view();
    let ghost v = job.deep_view();
    work.push(job);
    proof {
        assert(work.deep_view() =~= before.push(v));
    }
}

impl MonoState {
    /// Ask for a concrete record; returns its name.
    pub fn intern_record_mono(&mut self, base: &str, args: Vec<Type>) -> (r: String)
        ensures
            (r@, final(self).deep_view()) == record_asked(
                old(self).deep_view(),
                base@,
                args.deep_view(),
            ),
    {
        let keys = keys_text(&args);
        let i = find_inst(&self.records, base, &keys);
        if i < self.records.len() {
            proof {
                assert(self.records.deep_view()[i as int] == self.records@[i as int].deep_view());
            }
            return self.records[i].name.clone();
        }
        let name = inst_name_text(base, &keys);
        push_inst(
            &mut self.records,
            Inst { base: base.to_owned(), args: keys, name: name.clone() },
        );
        push_job(
            &mut self.work,
            MonoJob { kind: JobKind::Record, base: base.to_owned(), args, name: name.clone() },
        );
        name
    }

    /// Ask for a concrete enum; returns its name.
    pub fn intern_enum_mono(&mut self, base: &str, args: Vec<Type>) -> (r: String)
        ensures
            (r@, final(self).deep_view()) == enum_asked(
                old(self).deep_view(),
                base@,
                args.deep_view(),
            ),
    {
        let keys = keys_text(&args);
        let i = find_inst(&self.enums, base, &keys);
        if i < self.enums.len() {
            proof {
                assert(self.enums.deep_view()[i as int] == self.enums@[i as int].deep_view());
            }
            return self.enums[i].name.clone();
        }
        let name = inst_name_text(base, &keys);
        push_inst(
            &mut self.enums,
            Inst { base: base.to_owned(), args: keys, name: name.clone() },
        );
        push_job(
            &mut self.work,
            MonoJob { kind: JobKind::Enum, base: base.to_owned(), args, name: name.clone() },
        );
        name
    }

    /// Adds an error.
    pub fn report(&mut self, e: LakeError)
        ensures
            final(self).deep_view() == (MonoV {
                errors: old(self).deep_view().errors.push(e.deep_view()),
                ..old(self).deep_view()
            }),
    {
        let ghost before = self.errors.deep_view();
        let ghost v = e.deep_view();
        self.errors.push(e);
        proof {
            assert(self.errors.deep_view() =~= before.push(v));
        }
    }
}

// ── unification ────────────────────────────────────────────────────────────

/// The arguments of a copy, as types.
pub open spec fn arg_types(args: Seq<Text>) -> Seq<Spanned<TypeV>> {
    Seq::new(
        args.len(),
        |i: int| Spanned { inner: types::plain_named(args[i]), span: span::zero_span() },
    )
}

/// The type parameter that a type is.
pub open spec fn param_of(t: TypeV, params: Seq<Text>) -> Option<Text> {
    match t {
        TypeV::Named(d) => if params.contains(d.inner) {
            Some(d.inner)
        } else {
            None
        },
        TypeV::TypeVar(d) => if params.contains(d.inner) {
            Some(d.inner)
        } else {
            None
        },
        _ => None,
    }
}

/// Fits a declared type to an actual one: what the type parameters stand
/// for, and whether there was no contradiction.
pub open spec fn unified(
    m: MonoV,
    declared: TypeV,
    actual: TypeV,
    params: Seq<Text>,
    subst: Map<Text, TypeV>,
) -> (bool, Map<Text, TypeV>)
    decreases declared, 0nat,
{
    if param_of(declared, params) is Some {
        types::bind(param_of(declared, params)->0, actual, subst)
    } else if actual is Unknown {
        (true, subst)
    } else {
        match (declared, actual) {
            (TypeV::NamedGeneric(n1, a1), TypeV::NamedGeneric(n2, a2)) => if n1.inner == n2.inner
                && a1.len() == a2.len() {
                unified_all(m, a1, a2, a1.len(), params, subst)
            } else {
                (false, subst)
            },
            (TypeV::Named(d), TypeV::Named(a)) => (d.inner == a.inner, subst),
            (TypeV::Struct(ds), TypeV::Struct(xs)) => if ds.len() == xs.len() {
                unified_all(m, ds, xs, ds.len(), params, subst)
            } else {
                (false, subst)
            },
            (TypeV::Unit, TypeV::Unit) => (true, subst),
            (TypeV::NamedGeneric(n1, a1), TypeV::Named(a)) => {
                let i = named_inst(m.records, a.inner, n1.inner, a1.len(), 0);
                let j = named_inst(m.enums, a.inner, n1.inner, a1.len(), 0);
                if 0 <= i < m.records.len() {
                    unified_all(m, a1, arg_types(m.records[i].args), a1.len(), params, subst)
                } else if 0 <= j < m.enums.len() {
                    unified_all(m, a1, arg_types(m.enums[j].args), a1.len(), params, subst)
                } else {
                    (false, subst)
                }
            },
            _ => (false, subst),
        }
    }
}

/// [`unified`] on the first `n` of two lists, up to a contradiction.
pub open spec fn unified_all(
    m: MonoV,
    declared: Seq<Spanned<TypeV>>,
    actual: Seq<Spanned<TypeV>>,
    n: nat,
    params: Seq<Text>,
    subst: Map<Text, TypeV>,
) -> (bool, Map<Text, TypeV>)
    decreases declared, n,
{
    if n == 0 || n > declared.len() {
        (true, subst)
    } else {
        let (ok, s) = unified_all(m, declared, actual, (n - 1) as nat, params, subst);
        if ok {
            unified(m, declared[n - 1].inner, actual[n - 1].inner, params, s)
        } else {
            (false, s)
        }
    }
}

fn named_types(args: &Vec<String>) -> (r: Vec<Spanned<Type>>)
    ensures
        ast::types_view(r@) == arg_types(args.deep_view()),
        r@.len() == args@.len(),
{
    let mut out: Vec<Spanned<Type>> = Vec::new();
    let mut i: usize = 0;
    while i < args.len()
        invariant
            i <= args.len(),
            out@.len() == i,
            forall|j: int|
                0 <= j < i ==> ast::type_view((#[trigger] out@[j]).inner) == types::plain_named(
                    args@[j]@,
                ) && out@[j].span == span::zero_span(),
        decreases args.len() - i,
    {
        out.push(src_named(args[i].as_str()).with_span(SimpleSpan { start: 0, end: 0 }));
        i = i + 1;
    }
    proof {
        assert(ast::types_view(out@) =~= arg_types(args.deep_view()));
    }
    out
}

/// Whether a list of parameters has this name.
pub fn is_param(params: &Vec<Spanned<Ident>>, name: &str) -> (r: bool)
    ensures
        r == param_texts(params.deep_view()).contains(name@),
{
    let ghost ps = param_texts(params.deep_view());
    let mut i: usize = 0;
    while i < params.len()
        invariant
            i <= params.len(),
            ps == param_texts(params.deep_view()),
            forall|j: int| 0 <= j < i ==> ps[j] != name@,
        decreases params.len() - i,
    {
        proof {
            assert(ps[i as int] == params@[i as int].inner.0@);
        }
        if same(params[i].inner.0.as_str(), name) {
            return true;
        }
        i = i + 1;
    }
    false
}

/// The names of type parameters.
pub open spec fn param_texts(params: Seq<Spanned<Text>>) -> Seq<Text> {
    Seq::new(params.len(), |i: int| params[i].inner)
}

impl MonoState {
    /// Core unification.  Records bindings in `subst` and returns false when
    /// the types contradict each other or an earlier binding.
    pub fn unify(
        &self,
        declared: &Type,
        actual: &Type,
        params: &Vec<Spanned<Ident>>,
        subst: &mut NameMap<Type>,
    ) -> (r: bool)
        ensures
            (r, final(subst).deep_view()) == unified(
                self.deep_view(),
                ast::type_view(*declared),
                ast::type_view(*actual),
                param_texts(params.deep_view()),
                old(subst).deep_view(),
            ),
        decreases *declared, 0nat,
    {
        let ghost m = self.deep_view();
        match declared {
            Type::Named(d) => {
                if is_param(params, d.inner.0.as_str()) {
                    return bind_or_check(d.inner.0.as_str(), actual, subst);
                }
            },
            Type::TypeVar(d) => {
                if is_param(params, d.inner.0.as_str()) {
                    return bind_or_check(d.inner.0.as_str(), actual, subst);
                }
            },
            _ => {},
        }
        if matches!(actual, Type::Unknown) {
            return true;
        }
        match (declared, actual) {
            (
                Type::NamedGeneric { name: n1, args: a1 },
                Type::NamedGeneric { name: n2, args: a2 },
            ) => {
                proof {
                    assert(ast::type_view(*declared) == TypeV::NamedGeneric(
                        n1.deep_view(),
                        ast::types_view(a1@),
                    ));
                    assert(ast::type_view(*actual) == TypeV::NamedGeneric(
                        n2.deep_view(),
                        ast::types_view(a2@),
                    ));
                }
                if same(n1.inner.0.as_str(), n2.inner.0.as_str()) && a1.len() == a2.len() {
                    self.unify_all(a1, a2, params, subst)
                } else {
                    false
                }
            },
            (Type::Named(d), Type::Named(a)) => same(d.inner.0.as_str(), a.inner.0.as_str()),
            (Type::Struct(ds), Type::Struct(xs)) => {
                proof {
                    assert(ast::type_view(*declared) == TypeV::Struct(ast::types_view(ds@)));
                    assert(ast::type_view(*actual) == TypeV::Struct(ast::types_view(xs@)));
                }
                if ds.len() == xs.len() {
                    self.unify_all(ds, xs, params, subst)
                } else {
                    false
                }
            },
            (Type::Unit, Type::Unit) => true,
            (Type::NamedGeneric { name: n1, args: a1 }, Type::Named(a)) => {
                proof {
                    assert(ast::type_view(*declared) == TypeV::NamedGeneric(
                        n1.deep_view(),
                        ast::types_view(a1@),
                    ));
                    named_inst_len(m.records, a.inner.0@, n1.inner.0@, a1@.len(), 0);
                    named_inst_len(m.enums, a.inner.0@, n1.inner.0@, a1@.len(), 0);
                }
                let i = find_named_inst(
                    &self.records,
                    a.inner.0.as_str(),
                    n1.inner.0.as_str(),
                    a1.len(),
                );
                let j = find_named_inst(
                    &self.enums,
                    a.inner.0.as_str(),
                    n1.inner.0.as_str(),
                    a1.len(),
                );
                if i < self.records.len() {
                    proof {
                        assert(m.records[i as int] == self.records@[i as int].deep_view());
                        assert(m.records[i as int].args.len() == self.records@[i as int].args@.len());
                    }
                    let concrete = named_types(&self.records[i].args);
                    self.unify_all(a1, &concrete, params, subst)
                } else if j < self.enums.len() {
                    proof {
                        assert(m.enums[j as int] == self.enums@[j as int].deep_view());
                        assert(m.enums[j as int].args.len() == self.enums@[j as int].args@.len());
                    }
                    let concrete = named_types(&self.enums[j].args);
                    self.unify_all(a1, &concrete, params, subst)
                } else {
                    false
                }
            },
            _ => false,
        }
    }

    fn unify_all(
        &self,
        declared: &Vec<Spanned<Type>>,
        actual: &Vec<Spanned<Type>>,
        params: &Vec<Spanned<Ident>>,
        subst: &mut NameMap<Type>,
    ) -> (r: bool)
        requires
            declared@.len() == actual@.len(),
        ensures
            (r, final(subst).deep_view()) == unified_all(
                self.deep_view(),
                ast::types_view(declared@),
                ast::types_view(actual@),
                declared@.len(),
                param_texts(params.deep_view()),
                old(subst).deep_view(),
            ),
        decreases *declared, 1nat,
    {
        let ghost m = self.deep_view();
        let ghost dv = ast::types_view(declared@);
        let ghost av = ast::types_view(actual@);
        let ghost ps = param_texts(params.deep_view());
        let ghost start = subst.deep_view();
        let mut ok = true;
        let mut i: usize = 0;
        while i < declared.len()
            invariant
                i <= declared.len(),
                declared@.len() == actual@.len(),
                m == self.deep_view(),
                dv == ast::types_view(declared@),
                av == ast::types_view(actual@),
                ps == param_texts(params.deep_view()),
                (ok, subst.deep_view()) == unified_all(m, dv, av, i as nat, ps, start),
            decreases declared.len() - i,
        {
            proof {
                assert(dv[i as int].inner == ast::type_view(declared@[i as int].inner));
                assert(av[i as int].inner == ast::type_view(actual@[i as int].inner));
            }
            if ok {
                ok = self.unify(&declared[i].inner, &actual[i].inner, params, subst);
            }
            i = i + 1;
        }
        ok
    }
}

proof fn named_inst_len(table: Seq<InstV>, name: Text, base: Text, n: nat, from: int)
    requires
        0 <= from,
    ensures
        named_inst(table, name, base, n, from) < table.len() ==> table[named_inst(
            table,
            name,
            base,
            n,
            from,
        )].args.len() == n,
    decreases table.len() - from,
{
    if from < table.len() && !(table[from].name == name && table[from].base == base
        && table[from].args.len() == n) {
        named_inst_len(table, name, base, n, from + 1);
    }
}

} // verus!
