//! Filling the registry from parsed modules.

use vstd::prelude::*;

use crate::api::ast;
use crate::api::ast::{
    dup_ident, dup_type, Branch, ConstDecl, ConstDeclV, Directive, DirectiveV, EnumDecl, EnumDeclV,
    Ident, ImplDecl, ImplDeclV, Import, ImportV, Item, ItemV, Machine, MachineItem, MachineItemV,
    MachineV, PatternV, ProtoDecl, ProtoDeclV, RecordDecl, RecordDeclV, Type, TypeV, VariantPayload,
    VariantPayloadV, VariantV,
};
use crate::api::expr;
use crate::api::expr::{parse_int_literal, Expr, HandlerV, Head};
use crate::error_handle;
use crate::error_handle::{ErrorV, LakeError, LakeErrors};
use crate::loader::{ModuleV, ParsedProgram};
use crate::name_map;
use crate::registry;
use crate::registry::{
    names_of, ConstEntry, ConstEntryV, ConstValue, ConstValueV, EnumEntry, EnumEntryV, ImplEntry,
    ImplEntryV, ImportBinding, ImportBindingV, MachineEntry, MachineEntryV, ModuleId, ModulePath,
    ProgramRegistry, ProtoEntry, ProtoEntryV, RecordEntry, RecordEntryV, RegistryV, ScopeV,
    Signature, SignatureV, VariantEntry, VariantEntryV, VariantPayloadEntry, VariantPayloadEntryV,
};
use crate::span::{SimpleSpan, Spanned};
use crate::text;
use crate::text::{cat3, decimal_text, dup_texts, same, Text};

verus! {

// ── entries ────────────────────────────────────────────────────────────────

/// The types of the first `n` parameters that are not wildcards.
pub open spec fn param_texts(ps: Seq<Spanned<PatternV>>, n: nat) -> Seq<Text>
    decreases n,
{
    if n == 0 {
        Seq::empty()
    } else {
        let rest = param_texts(ps, (n - 1) as nat);
        if ps[n - 1].inner.kind is Wildcard {
            rest
        } else {
            rest.push(ast::type_text(ps[n - 1].inner.ty.inner))
        }
    }
}

/// The rendered return type, or `pid` for a branch that has none.
pub open spec fn ret_text(ret: Option<Spanned<TypeV>>) -> Text {
    match ret {
        Some(t) => ast::type_text(t.inner),
        None => "pid"@,
    }
}

/// The signature of a branch.
pub open spec fn branch_sig(b: HandlerV) -> SignatureV {
    SignatureV { params: param_texts(b.patterns, b.patterns.len()), ret: ret_text(b.ret_ty) }
}

/// The signatures of the branches among the first `n` machine items.
pub open spec fn branch_sigs(items: Seq<Spanned<MachineItemV>>, n: nat) -> Seq<SignatureV>
    decreases n,
{
    if n == 0 {
        Seq::empty()
    } else {
        let rest = branch_sigs(items, (n - 1) as nat);
        match items[n - 1].inner {
            MachineItemV::Branch(b) => rest.push(branch_sig(b.head)),
            MachineItemV::Field(_) => rest,
        }
    }
}

pub open spec fn machine_entry(m: MachineV, id: ModuleId) -> MachineEntryV {
    MachineEntryV {
        name: m.ident.inner,
        module: id,
        is_pub: m.vis,
        type_params: registry::segment_texts(m.generics),
        branches: branch_sigs(m.items, m.items.len()),
    }
}

fn ret_string(ret: &Option<Spanned<Type>>) -> (r: String)
    ensures
        r@ == ret_text(ret.deep_view()),
{
    match ret {
        Some(t) => t.inner.to_string(),
        None => "pid".to_owned(),
    }
}

/// The signature of a branch: the types of its parameters (wildcards left
/// out) and its declared return type, `pid` without one.
pub fn branch_signature(branch: &Branch) -> (r: Signature)
    ensures
        r.deep_view() == branch_sig(expr::branch_head(*branch)),
{
    let mut params: Vec<String> = Vec::new();
    let mut i: usize = 0;
    let ghost ps = ast::patterns_view(branch.patterns@);
    proof {
        assert(params.deep_view() =~= Seq::<Text>::empty());
    }
    while i < branch.patterns.len()
        invariant
            i <= branch.patterns.len(),
            ps == ast::patterns_view(branch.patterns@),
            params.deep_view() == param_texts(ps, i as nat),
        decreases branch.patterns.len() - i,
    {
        proof {
            assert(ps[i as int].inner == ast::pattern_view(branch.patterns@[i as int].inner));
        }
        if !branch.patterns[i].inner.is_wildcard() {
            let ghost before = params.deep_view();
            let one = branch.patterns[i].inner.ty.inner.to_string();
            params.push(one);
            proof {
                assert(params.deep_view() =~= before.push(one@));
            }
        }
        i = i + 1;
    }
    Signature { params, ret: ret_string(&branch.ret_ty) }
}

/// The registry entry of a machine.
pub fn build_machine_entry(machine: &Machine, module: ModuleId) -> (r: MachineEntry)
    ensures
        r.deep_view() == machine_entry(machine.deep_view(), module),
{
    let mut branches: Vec<Signature> = Vec::new();
    let ghost items = machine.deep_view().items;
    let mut i: usize = 0;
    proof {
        assert(branches.deep_view() =~= Seq::<SignatureV>::empty());
    }
    while i < machine.items.len()
        invariant
            i <= machine.items.len(),
            items == machine.deep_view().items,
            branches.deep_view() == branch_sigs(items, i as nat),
        decreases machine.items.len() - i,
    {
        proof {
            assert(items[i as int] == machine.items@[i as int].deep_view());
        }
        if let MachineItem::Branch(b) = &machine.items[i].inner {
            let ghost before = branches.deep_view();
            let sig = branch_signature(b);
            branches.push(sig);
            proof {
                assert(branches.deep_view() =~= before.push(sig.deep_view()));
            }
        }
        i = i + 1;
    }
    let n = machine.generics.len();
    let type_params = names_of(&machine.generics, 0, n);
    proof {
        let g = registry::segment_texts(machine.generics.deep_view());
        assert(g.subrange(0, n as int) =~= g);
    }
    MachineEntry {
        name: machine.ident.inner.0.clone(),
        module,
        is_pub: machine.vis,
        type_params,
        branches,
    }
}

/// The name of the construct that a head stands for.
pub open spec fn kind_text(h: Head) -> Text {
    match h {
        Head::Num(_, _) => "Num"@,
        Head::Str(_, _) => "String"@,
        Head::Bool(_) => "Bool"@,
        Head::Unit => "Unit"@,
        Head::Var(_, _) => "Var"@,
        Head::Path(_) => "Path"@,
        Head::Let(_, _) => "Let"@,
        Head::LetTuple(_) => "LetTuple"@,
        Head::Jump => "Jump"@,
        Head::MethodCall(_) => "MethodCall"@,
        Head::AtAccess(_) => "AtAccess"@,
        Head::DotAccess(_) => "DotAccess"@,
        Head::StructInit => "StructInit"@,
        Head::RecordLiteral(_, _) => "RecordLiteral"@,
        Head::Tuple => "Tuple"@,
        Head::Atom(_) => "Atom"@,
        Head::TupleIndex(_) => "TupleIndex"@,
        Head::Index => "Index"@,
        Head::When | Head::Arm => "When"@,
        Head::Wait | Head::Filter | Head::Handler(_) => "Wait"@,
        Head::Ret => "Ret"@,
        Head::Pin => "Pin"@,
        Head::Neg => "Neg"@,
        Head::Bin(_) => "Binary"@,
    }
}

fn kind_name(e: &Expr) -> (r: &'static str)
    ensures
        forall|span: SimpleSpan| r@ == kind_text((#[trigger] expr::tree(*e, span)).head),
{
    match e {
        Expr::Num(_, _) => "Num",
        Expr::String(_, _) => "String",
        Expr::Bool(_) => "Bool",
        Expr::Unit => "Unit",
        Expr::Var(_, _) => "Var",
        Expr::Path(_) => "Path",
        Expr::Let { .. } => "Let",
        Expr::LetTuple { .. } => "LetTuple",
        Expr::Jump { .. } => "Jump",
        Expr::MethodCall { .. } => "MethodCall",
        Expr::AtAccess { .. } => "AtAccess",
        Expr::DotAccess { .. } => "DotAccess",
        Expr::StructInit { .. } => "StructInit",
        Expr::RecordLiteral { .. } => "RecordLiteral",
        Expr::Tuple(_) => "Tuple",
        Expr::Atom(_) => "Atom",
        Expr::TupleIndex { .. } => "TupleIndex",
        Expr::Index { .. } => "Index",
        Expr::When { .. } => "When",
        Expr::Wait { .. } => "Wait",
        Expr::Ret(_) => "Ret",
        Expr::Pin(_) => "Pin",
        Expr::Neg(_) => "Neg",
        _ => "Binary",
    }
}

/// The entry of a constant, or why its value is no literal.
pub open spec fn const_entry(c: ConstDeclV) -> Result<(Text, ConstEntryV), ErrorV> {
    let name = c.ident.inner;
    match c.value.head {
        Head::Num(s, _) => match expr::int_literal(s) {
            Some(n) => Ok(
                (name, ConstEntryV { vis: c.vis, ty: "i64"@, value: ConstValueV::Int(n) }),
            ),
            None => Err(
                error_handle::coded_error(
                    "invalid integer literal `"@ + s + "`"@,
                    c.value.span,
                    "E010"@,
                ),
            ),
        },
        Head::Str(s, _) => Ok(
            (name, ConstEntryV { vis: c.vis, ty: "str"@, value: ConstValueV::Str(s) }),
        ),
        Head::Bool(b) => Ok(
            (name, ConstEntryV { vis: c.vis, ty: "bool"@, value: ConstValueV::Bool(b) }),
        ),
        Head::Atom(s) => Ok(
            (name, ConstEntryV { vis: c.vis, ty: "atom"@, value: ConstValueV::Atom(s) }),
        ),
        h => Err(
            error_handle::coded_error(
                "const RHS must be a literal (int, str, bool, atom); got `"@ + kind_text(h) + "`"@,
                c.value.span,
                "E011"@,
            ),
        ),
    }
}

/// Read a constant's literal value.
pub fn build_const_entry(decl: &ConstDecl) -> (r: Result<(String, ConstEntry), LakeError>)
    ensures
        match r {
            Ok((name, entry)) => const_entry(decl.deep_view()) == Ok::<
                (Text, ConstEntryV),
                ErrorV,
            >((name@, entry.deep_view())),
            Err(e) => const_entry(decl.deep_view()) == Err::<(Text, ConstEntryV), ErrorV>(
                e.deep_view(),
            ),
        },
{
    let name = decl.ident.inner.0.clone();
    let span = decl.value.span;
    let (ty, value): (&str, ConstValue) = match &decl.value.inner {
        Expr::Num(s, _) => match parse_int_literal(s.as_str()) {
            Ok(v) => ("i64", ConstValue::Int(v)),
            Err(_) => {
                let msg = cat3("invalid integer literal `", s.as_str(), "`");
                return Err(LakeError::new(msg.as_str(), span).code("E010"));
            },
        },
        Expr::String(s, _) => ("str", ConstValue::Str(s.clone())),
        Expr::Bool(b) => ("bool", ConstValue::Bool(*b)),
        Expr::Atom(s) => ("atom", ConstValue::Atom(s.clone())),
        other => {
            let msg = cat3(
                "const RHS must be a literal (int, str, bool, atom); got `",
                kind_name(other),
                "`",
            );
            return Err(LakeError::new(msg.as_str(), span).code("E011"));
        },
    };
    Ok((name, ConstEntry { vis: decl.vis, ty: ty.to_owned(), value }))
}

pub open spec fn payload_entry(p: VariantPayloadV) -> VariantPayloadEntryV {
    match p {
        VariantPayloadV::NoPayload => VariantPayloadEntryV::NoPayload,
        VariantPayloadV::Tuple(ts) => VariantPayloadEntryV::Tuple(
            Seq::new(ts.len(), |i: int| ts[i].inner),
        ),
        VariantPayloadV::Record(fs) => VariantPayloadEntryV::Record(
            Seq::new(fs.len(), |i: int| (fs[i].0.inner, fs[i].1.inner)),
        ),
    }
}

/// Whether variant `i` is called like an earlier one.
pub open spec fn repeats(vs: Seq<Spanned<VariantV>>, i: int) -> bool {
    exists|j: int| 0 <= j < i && (#[trigger] vs[j]).inner.name.inner == vs[i].inner.name.inner
}

/// The first variant from `from` on that repeats an earlier name.
pub open spec fn first_repeat(vs: Seq<Spanned<VariantV>>, from: int) -> int
    decreases vs.len() - from,
{
    if from >= vs.len() || repeats(vs, from) {
        from
    } else {
        first_repeat(vs, from + 1)
    }
}

/// The entry of an enum, or its first repeated variant.
pub open spec fn enum_entry(d: EnumDeclV, id: ModuleId) -> Result<EnumEntryV, ErrorV> {
    let dup = first_repeat(d.variants, 0);
    if dup < d.variants.len() {
        let v = d.variants[dup].inner.name;
        Err(
            error_handle::coded_error(
                "duplicate variant `"@ + v.inner + "` in enum `"@ + d.name.inner + "`"@,
                v.span,
                "E029"@,
            ),
        )
    } else {
        Ok(
            EnumEntryV {
                name: d.name.inner,
                module: id,
                type_params: registry::segment_texts(d.type_params),
                variants: Seq::new(
                    d.variants.len(),
                    |i: int|
                        VariantEntryV {
                            name: d.variants[i].inner.name.inner,
                            tag: i as u64,
                            payload: payload_entry(d.variants[i].inner.payload),
                        },
                ),
            },
        )
    }
}

fn build_payload(p: &VariantPayload) -> (r: VariantPayloadEntry)
    ensures
        r.deep_view() == payload_entry(p.deep_view()),
{
    match p {
        VariantPayload::NoPayload => VariantPayloadEntry::NoPayload,
        VariantPayload::Tuple(ts) => {
            let mut out: Vec<Type> = Vec::new();
            let mut i: usize = 0;
            while i < ts.len()
                invariant
                    i <= ts.len(),
                    out@.len() == i,
                    forall|j: int|
                        0 <= j < i ==> (#[trigger] out@[j]).deep_view() == ts@[j].inner.deep_view(),
                decreases ts.len() - i,
            {
                out.push(ts[i].inner.dup());
                i = i + 1;
            }
            let r = VariantPayloadEntry::Tuple(out);
            proof {
                assert(out.deep_view() =~= payload_entry(p.deep_view())->Tuple_0);
            }
            r
        },
        VariantPayload::Record(fs) => {
            let mut out: Vec<(String, Type)> = Vec::new();
            let mut i: usize = 0;
            while i < fs.len()
                invariant
                    i <= fs.len(),
                    out@.len() == i,
                    forall|j: int|
                        0 <= j < i ==> (#[trigger] out@[j]).0@ == fs@[j].0.inner.0@
                            && out@[j].1.deep_view() == fs@[j].1.inner.deep_view(),
                decreases fs.len() - i,
            {
                out.push((fs[i].0.inner.0.clone(), fs[i].1.inner.dup()));
                i = i + 1;
            }
            let r = VariantPayloadEntry::Record(out);
            proof {
                assert(out.deep_view() =~= payload_entry(p.deep_view())->Record_0);
            }
            r
        },
    }
}

fn repeats_earlier(decl: &EnumDecl, i: usize) -> (r: bool)
    requires
        i < decl.variants@.len(),
    ensures
        r == repeats(decl.deep_view().variants, i as int),
{
    let ghost vs = decl.deep_view().variants;
    let mut j: usize = 0;
    while j < i
        invariant
            j <= i < decl.variants@.len(),
            vs == decl.deep_view().variants,
            forall|k: int|
                0 <= k < j ==> (#[trigger] vs[k]).inner.name.inner
                    != vs[i as int].inner.name.inner,
        decreases i - j,
    {
        proof {
            assert(vs[j as int] == decl.variants@[j as int].deep_view());
            assert(vs[i as int] == decl.variants@[i as int].deep_view());
        }
        if same(
            decl.variants[j].inner.name.inner.0.as_str(),
            decl.variants[i].inner.name.inner.0.as_str(),
        ) {
            return true;
        }
        j = j + 1;
    }
    false
}

/// The registry entry of an enum.  Rejects duplicate variant names within
/// the same enum.
pub fn build_enum_entry(decl: &EnumDecl, module: ModuleId) -> (r: Result<EnumEntry, LakeError>)
    ensures
        match r {
            Ok(e) => enum_entry(decl.deep_view(), module) == Ok::<EnumEntryV, ErrorV>(
                e.deep_view(),
            ),
            Err(e) => enum_entry(decl.deep_view(), module) == Err::<EnumEntryV, ErrorV>(
                e.deep_view(),
            ),
        },
{
    let ghost vs = decl.deep_view().variants;
    let mut variants: Vec<VariantEntry> = Vec::new();
    let mut i: usize = 0;
    while i < decl.variants.len()
        invariant
            i <= decl.variants.len(),
            vs == decl.deep_view().variants,
            variants@.len() == i,
            first_repeat(vs, 0) == first_repeat(vs, i as int),
            forall|j: int|
                0 <= j < i ==> (#[trigger] variants@[j]).deep_view() == (VariantEntryV {
                    name: vs[j].inner.name.inner,
                    tag: j as u64,
                    payload: payload_entry(vs[j].inner.payload),
                }),
        decreases decl.variants.len() - i,
    {
        proof {
            assert(vs[i as int] == decl.variants@[i as int].deep_view());
        }
        let v = &decl.variants[i].inner;
        if repeats_earlier(decl, i) {
            let mut msg = cat3("duplicate variant `", v.name.inner.0.as_str(), "` in enum `");
            msg.append(decl.name.inner.0.as_str());
            msg.append("`");
            return Err(LakeError::new(msg.as_str(), v.name.span).code("E029"));
        }
        variants.push(
            VariantEntry {
                name: v.name.inner.0.clone(),
                tag: i as u64,
                payload: build_payload(&v.payload),
            },
        );
        i = i + 1;
    }
    let n = decl.type_params.len();
    let type_params = names_of(&decl.type_params, 0, n);
    let r = EnumEntry { name: decl.name.inner.0.clone(), module, type_params, variants };
    proof {
        let g = registry::segment_texts(decl.type_params.deep_view());
        assert(g.subrange(0, n as int) =~= g);
        let want = enum_entry(decl.deep_view(), module)->Ok_0;
        assert(r.deep_view().variants =~= want.variants);
    }
    Ok(r)
}

/// The rendered types, in order.
pub open spec fn all_type_texts(ts: Seq<Spanned<TypeV>>) -> Seq<Text> {
    Seq::new(ts.len(), |i: int| ast::type_text(ts[i].inner))
}

fn type_strings(ts: &Vec<Spanned<Type>>) -> (r: Vec<String>)
    ensures
        r.deep_view() == all_type_texts(ts.deep_view()),
{
    let mut out: Vec<String> = Vec::new();
    let mut i: usize = 0;
    while i < ts.len()
        invariant
            i <= ts.len(),
            out@.len() == i,
            forall|j: int|
                0 <= j < i ==> (#[trigger] out@[j])@ == ast::type_text(ts@[j].inner.deep_view()),
        decreases ts.len() - i,
    {
        out.push(ts[i].inner.to_string());
        i = i + 1;
    }
    proof {
        assert(out.deep_view() =~= all_type_texts(ts.deep_view()));
    }
    out
}

pub open spec fn proto_entry(d: ProtoDeclV, id: ModuleId) -> ProtoEntryV {
    ProtoEntryV {
        name: d.name.inner,
        module: id,
        parents: registry::segment_texts(d.parents),
        required: Seq::new(
            d.methods.len(),
            |i: int|
                (
                    d.methods[i].inner.name.inner,
                    all_type_texts(d.methods[i].inner.params),
                    ret_text(d.methods[i].inner.ret),
                ),
        ),
    }
}

/// The registry entry of a proto.  `Self` is preserved verbatim in the types.
pub fn build_proto_entry(decl: &ProtoDecl, module: ModuleId) -> (r: ProtoEntry)
    ensures
        r.deep_view() == proto_entry(decl.deep_view(), module),
{
    let mut required: Vec<(String, Vec<String>, String)> = Vec::new();
    let mut i: usize = 0;
    let ghost ms = decl.deep_view().methods;
    while i < decl.methods.len()
        invariant
            i <= decl.methods.len(),
            ms == decl.deep_view().methods,
            required@.len() == i,
            forall|j: int|
                0 <= j < i ==> (#[trigger] required@[j]).deep_view() == (
                    ms[j].inner.name.inner,
                    all_type_texts(ms[j].inner.params),
                    ret_text(ms[j].inner.ret),
                ),
        decreases decl.methods.len() - i,
    {
        let m = &decl.methods[i].inner;
        proof {
            assert(ms[i as int] == decl.methods@[i as int].deep_view());
        }
        required.push((m.name.inner.0.clone(), type_strings(&m.params), ret_string(&m.ret)));
        i = i + 1;
    }
    let n = decl.parents.len();
    let parents = names_of(&decl.parents, 0, n);
    let r = ProtoEntry { name: decl.name.inner.0.clone(), module, parents, required };
    proof {
        let g = registry::segment_texts(decl.parents.deep_view());
        assert(g.subrange(0, n as int) =~= g);
        assert(r.deep_view().required =~= proto_entry(decl.deep_view(), module).required);
    }
    r
}

/// The name and signature of an `@ffi(name { params } { ret })` directive,
/// or what is wrong with its shape.
pub open spec fn ffi_signature(d: DirectiveV) -> Result<(Text, SignatureV), ErrorV> {
    if d.args.len() != 3 {
        Err(
            error_handle::coded_error(
                "@ffi expects `name { params } { ret }` (3 arguments), got "@ + text::decimal(
                    d.args.len(),
                ),
                d.name.span,
                "F001"@,
            ),
        )
    } else {
        match (d.args[0].inner, d.args[1].inner, d.args[2].inner) {
            (TypeV::Named(name), TypeV::Struct(params), TypeV::Struct(ret)) => Ok(
                (
                    name.inner,
                    SignatureV {
                        params: all_type_texts(params),
                        ret: if ret.len() > 0 {
                            ast::type_text(ret[0].inner)
                        } else {
                            "{}"@
                        },
                    },
                ),
            ),
            (TypeV::Named(name), TypeV::Struct(params), _) => Err(
                error_handle::coded_error(
                    "@ffi: third argument must be `{ ret_type }`"@,
                    d.args[2].span,
                    "F004"@,
                ),
            ),
            (TypeV::Named(name), _, _) => Err(
                error_handle::coded_error(
                    "@ffi: second argument must be `{ param_types ... }`"@,
                    d.args[1].span,
                    "F003"@,
                ),
            ),
            _ => Err(
                error_handle::coded_error(
                    "@ffi: first argument must be the function name"@,
                    d.args[0].span,
                    "F002"@,
                ),
            ),
        }
    }
}

/// Extract the name and signature of an `@ffi(name { params } { ret })`
/// directive.  Returns a diagnostic on malformed shape.
pub fn build_ffi_signature(directive: &Directive) -> (r: Result<(String, Signature), LakeError>)
    ensures
        match r {
            Ok((name, sig)) => ffi_signature(directive.deep_view()) == Ok::<
                (Text, SignatureV),
                ErrorV,
            >((name@, sig.deep_view())),
            Err(e) => ffi_signature(directive.deep_view()) == Err::<(Text, SignatureV), ErrorV>(
                e.deep_view(),
            ),
        },
{
    let args = &directive.args;
    let ghost av = directive.deep_view().args;
    if args.len() != 3 {
        let mut msg = "@ffi expects `name { params } { ret }` (3 arguments), got ".to_owned();
        msg.append(decimal_text(args.len() as u64).as_str());
        return Err(LakeError::new(msg.as_str(), directive.name.span).code("F001"));
    }
    proof {
        assert(av[0] == args@[0].deep_view());
        assert(av[1] == args@[1].deep_view());
        assert(av[2] == args@[2].deep_view());
    }
    match &args[0].inner {
        Type::Named(name) => match &args[1].inner {
            Type::Struct(params) => match &args[2].inner {
                Type::Struct(ret) => {
                    proof {
                        ast::types_view_is_deep_view(*params);
                        ast::types_view_is_deep_view(*ret);
                    }
                    let ret_text = if ret.len() > 0 {
                        ret[0].inner.to_string()
                    } else {
                        "{}".to_owned()
                    };
                    Ok(
                        (
                            name.inner.0.clone(),
                            Signature { params: type_strings(params), ret: ret_text },
                        ),
                    )
                },
                _ => Err(
                    LakeError::new(
                        "@ffi: third argument must be `{ ret_type }`",
                        args[2].span,
                    ).code("F004"),
                ),
            },
            _ => Err(
                LakeError::new(
                    "@ffi: second argument must be `{ param_types ... }`",
                    args[1].span,
                ).code("F003"),
            ),
        },
        _ => Err(
            LakeError::new(
                "@ffi: first argument must be the function name",
                args[0].span,
            ).code("F002"),
        ),
    }
}

} // verus!

verus! {

// ── items ──────────────────────────────────────────────────────────────────

/// Two declarations of one name in a module.
pub open spec fn duplicate_symbol(name: Spanned<Text>) -> ErrorV {
    error_handle::coded_error(
        "duplicate symbol `"@ + name.inner + "` in module"@,
        name.span,
        "E028"@,
    )
}

fn duplicate_symbol_error(name: &Spanned<Ident>) -> (r: LakeError)
    ensures
        r.deep_view() == duplicate_symbol(name.deep_view()),
{
    let msg = cat3("duplicate symbol `", name.inner.0.as_str(), "` in module");
    LakeError::new(msg.as_str(), name.span).code("E028")
}

/// A registry and the diagnostics that building it gave.
#[verifier::ext_equal]
pub struct Populated {
    pub reg: RegistryV,
    pub errors: Seq<ErrorV>,
}

pub open spec fn only(reg: RegistryV) -> Populated {
    Populated { reg, errors: Seq::empty() }
}

pub open spec fn failed(reg: RegistryV, e: ErrorV) -> Populated {
    Populated { reg, errors: seq![e] }
}

/// A machine collides with a record or an enum of its name.
pub open spec fn machine_added(reg: RegistryV, id: ModuleId, m: MachineV) -> Populated {
    let s = reg.scope(id);
    let name = m.ident.inner;
    if s.records.contains_key(name) || s.enums.contains_key(name) {
        failed(reg, duplicate_symbol(m.ident))
    } else {
        only(
            reg.with_scope(
                id,
                ScopeV { machines: s.machines.insert(name, machine_entry(m, id)), ..s },
            ),
        )
    }
}

/// A foreign function collides with a record or an enum of its name.
pub open spec fn ffi_added(reg: RegistryV, id: ModuleId, d: DirectiveV) -> Populated {
    let s = reg.scope(id);
    match ffi_signature(d) {
        Ok((name, sig)) => if s.records.contains_key(name) || s.enums.contains_key(name) {
            failed(reg, duplicate_symbol(Spanned { inner: name, span: d.args[0].span }))
        } else {
            only(reg.with_scope(id, ScopeV { ffi_fns: s.ffi_fns.insert(name, sig), ..s }))
        },
        Err(e) => failed(reg, e),
    }
}

/// A constant collides with a record or an enum of its name.
pub open spec fn const_added(reg: RegistryV, id: ModuleId, c: ConstDeclV) -> Populated {
    let s = reg.scope(id);
    match const_entry(c) {
        Ok((name, entry)) => if s.records.contains_key(name) || s.enums.contains_key(name) {
            failed(reg, duplicate_symbol(c.ident))
        } else {
            only(reg.with_scope(id, ScopeV { consts: s.consts.insert(name, entry), ..s }))
        },
        Err(e) => failed(reg, e),
    }
}

pub open spec fn record_fields(d: RecordDeclV) -> Seq<(Spanned<Text>, Spanned<TypeV>)> {
    Seq::new(d.fields.len(), |i: int| (d.fields[i].inner.name, d.fields[i].inner.ty))
}

/// Records collide with machines, foreign functions, constants and enums of
/// their name, and with a record of their name that has other fields.
pub open spec fn record_added(reg: RegistryV, id: ModuleId, d: RecordDeclV) -> Populated {
    let s = reg.scope(id);
    let name = d.ident.inner;
    if s.machines.contains_key(name) || s.ffi_fns.contains_key(name) || s.consts.contains_key(name)
        || s.enums.contains_key(name) {
        failed(reg, duplicate_symbol(d.ident))
    } else if s.records.contains_key(name) {
        if s.records[name].fields == record_fields(d) {
            only(reg)
        } else {
            failed(reg, duplicate_symbol(d.ident))
        }
    } else {
        only(
            reg.with_scope(
                id,
                ScopeV {
                    records: s.records.insert(
                        name,
                        RecordEntryV {
                            name,
                            module: id,
                            is_pub: d.vis,
                            type_params: registry::segment_texts(d.type_params),
                            fields: record_fields(d),
                        },
                    ),
                    ..s
                },
            ),
        )
    }
}

/// Whether two enums have variants of the same names, in the same order.
pub open spec fn same_variant_names(a: EnumEntryV, b: EnumEntryV) -> bool {
    &&& a.variants.len() == b.variants.len()
    &&& forall|i: int|
        0 <= i < a.variants.len() ==> (#[trigger] a.variants[i]).name == b.variants[i].name
}

pub open spec fn enum_added(reg: RegistryV, id: ModuleId, d: EnumDeclV) -> Populated {
    let s = reg.scope(id);
    let name = d.name.inner;
    if s.machines.contains_key(name) || s.ffi_fns.contains_key(name) || s.consts.contains_key(name)
        || s.records.contains_key(name) {
        failed(reg, duplicate_symbol(d.name))
    } else {
        match enum_entry(d, id) {
            Err(e) => failed(reg, e),
            Ok(entry) => if s.enums.contains_key(name) {
                if same_variant_names(s.enums[name], entry) {
                    only(reg)
                } else {
                    failed(reg, duplicate_symbol(d.name))
                }
            } else {
                only(reg.with_scope(id, ScopeV { enums: s.enums.insert(name, entry), ..s }))
            },
        }
    }
}

pub open spec fn proto_added(reg: RegistryV, id: ModuleId, d: ProtoDeclV) -> Populated {
    let s = reg.scope(id);
    only(
        reg.with_scope(
            id,
            ScopeV { protos: s.protos.insert(d.name.inner, proto_entry(d, id)), ..s },
        ),
    )
}

pub open spec fn impl_added(reg: RegistryV, id: ModuleId, d: ImplDeclV) -> Populated {
    let s = reg.scope(id);
    only(
        reg.with_scope(
            id,
            ScopeV {
                impls: s.impls.push(
                    ImplEntryV {
                        ty: d.ty.inner,
                        protos: registry::segment_texts(d.protos),
                        module: id,
                        span: d.ty.span,
                    },
                ),
                ..s
            },
        ),
    )
}

/// What one leaf of an import tree does: bind a namespace if `prefix.leaf`
/// is a module, otherwise an item of the module `prefix`.
pub open spec fn leaf_bound(
    reg: RegistryV,
    id: ModuleId,
    span: SimpleSpan,
    prefix: Seq<Text>,
    ident: Spanned<Text>,
    alias: Option<Spanned<Text>>,
) -> Populated {
    let s = reg.scope(id);
    let local = match alias {
        Some(a) => a.inner,
        None => ident.inner,
    };
    if prefix.len() == 0 {
        failed(
            reg,
            error_handle::coded_error(
                "import `+"@ + ident.inner
                    + "` is too short — at least `+module.item` is required"@,
                span,
                "M004"@,
            ),
        )
    } else if reg.id_for_path(prefix.push(ident.inner)) is Some {
        let target = reg.id_for_path(prefix.push(ident.inner))->0;
        only(
            reg.with_scope(
                id,
                ScopeV {
                    imports: s.imports.insert(
                        local,
                        ImportBindingV { target_module: target, target_item: None },
                    ),
                    ..s
                },
            ),
        )
    } else if reg.id_for_path(prefix) is Some {
        let target = reg.id_for_path(prefix)->0;
        only(
            reg.with_scope(
                id,
                ScopeV {
                    imports: s.imports.insert(
                        local,
                        ImportBindingV { target_module: target, target_item: Some(ident.inner) },
                    ),
                    ..s
                },
            ),
        )
    } else {
        failed(
            reg,
            error_handle::coded_error(
                "import target module `"@ + registry::path_text(prefix) + "` was not loaded"@,
                span,
                "M005"@,
            ),
        )
    }
}

/// What an import tree under `prefix` does.
pub open spec fn import_added(
    reg: RegistryV,
    id: ModuleId,
    node: Spanned<ImportV>,
    prefix: Seq<Text>,
) -> Populated
    decreases node.inner, 0nat,
{
    match node.inner {
        ImportV::Import(ident, Some(next), _) => import_added(
            reg,
            id,
            *next,
            prefix.push(ident.inner),
        ),
        ImportV::Import(ident, None, alias) => leaf_bound(
            reg,
            id,
            node.span,
            prefix,
            ident,
            alias,
        ),
        ImportV::MultiImport(entries) => imports_added(reg, id, entries, entries.len(), prefix),
    }
}

/// What the first `n` entries of a multi-import do, in order.
pub open spec fn imports_added(
    reg: RegistryV,
    id: ModuleId,
    entries: Seq<Spanned<ImportV>>,
    n: nat,
    prefix: Seq<Text>,
) -> Populated
    decreases entries, n,
{
    if n == 0 || n > entries.len() {
        only(reg)
    } else {
        let before = imports_added(reg, id, entries, (n - 1) as nat, prefix);
        let one = import_added(before.reg, id, entries[n - 1], prefix);
        Populated { reg: one.reg, errors: before.errors + one.errors }
    }
}

/// What one item of module `id` does.
pub open spec fn item_added(reg: RegistryV, id: ModuleId, item: ItemV) -> Populated {
    match item {
        ItemV::Machine(m) => machine_added(reg, id, m.inner),
        ItemV::Directive(d) => if d.inner.name.inner == "ffi"@ {
            ffi_added(reg, id, d.inner)
        } else {
            only(reg)
        },
        ItemV::Const(c) => const_added(reg, id, c.inner),
        ItemV::Import(i) => import_added(reg, id, i, Seq::empty()),
        ItemV::Record(d) => record_added(reg, id, d.inner),
        ItemV::Enum(d) => enum_added(reg, id, d.inner),
        ItemV::Proto(d) => proto_added(reg, id, d.inner),
        ItemV::Impl(d) => impl_added(reg, id, d.inner),
    }
}

/// What the first `n` items of a module do, in order; every diagnostic is
/// tagged with the module's source.
pub open spec fn items_added(reg: RegistryV, id: ModuleId, m: ModuleV, n: nat) -> Populated
    decreases n,
{
    if n == 0 {
        only(reg)
    } else {
        let before = items_added(reg, id, m, (n - 1) as nat);
        let one = item_added(before.reg, id, m.ast[n - 1].inner);
        Populated {
            reg: one.reg,
            errors: before.errors + error_handle::tagged_all(one.errors, m.source_path),
        }
    }
}

/// The registry with the first `n` modules registered.
pub open spec fn modules_registered(reg: RegistryV, ms: Seq<ModuleV>, n: nat) -> RegistryV
    decreases n,
{
    if n == 0 {
        reg
    } else {
        modules_registered(reg, ms, (n - 1) as nat).registered(
            ms[n - 1].path,
            Some(ms[n - 1].source_path),
        )
    }
}

/// What the items of the first `n` modules do, in order.
pub open spec fn modules_added(reg: RegistryV, ms: Seq<ModuleV>, n: nat) -> Populated
    decreases n,
{
    if n == 0 {
        only(reg)
    } else {
        let before = modules_added(reg, ms, (n - 1) as nat);
        let id = before.reg.id_for_path(ms[n - 1].path)->0;
        let one = items_added(before.reg, id, ms[n - 1], ms[n - 1].ast.len());
        Populated { reg: one.reg, errors: before.errors + one.errors }
    }
}

/// Populating a registry from a program: first every module gets an id, then
/// every item is entered.
pub open spec fn populated(reg: RegistryV, ms: Seq<ModuleV>) -> Populated {
    modules_added(modules_registered(reg, ms, ms.len()), ms, ms.len())
}

// ── the registry's shape is kept ───────────────────────────────────────────

/// `b` has the modules of `a`, under the same ids and paths.
pub open spec fn same_modules(a: RegistryV, b: RegistryV) -> bool {
    &&& a.modules.len() == b.modules.len()
    &&& a.current == b.current
    &&& a.rt_fns == b.rt_fns
    &&& forall|i: int|
        0 <= i < a.modules.len() ==> (#[trigger] b.modules[i]).path == a.modules[i].path
}

pub proof fn same_modules_same_index(a: RegistryV, b: RegistryV, path: Seq<Text>, from: int)
    requires
        same_modules(a, b),
        0 <= from,
    ensures
        a.index_of_path(path, from) == b.index_of_path(path, from),
    decreases a.modules.len() - from,
{
    if from < a.modules.len() && a.modules[from].path != path {
        same_modules_same_index(a, b, path, from + 1);
    }
}

proof fn scope_swap_keeps_wf(reg: RegistryV, id: ModuleId, s: ScopeV)
    requires
        reg.wf(),
        reg.has(id),
        s.path == reg.scope(id).path,
        forall|k: Text| #[trigger]
            s.imports.contains_key(k) ==> s.imports[k].target_module.0 < reg.modules.len(),
        forall|k: Text| #[trigger]
            s.machines.contains_key(k) ==> s.machines[k].module.0 < reg.modules.len(),
    ensures
        reg.with_scope(id, s).wf(),
        same_modules(reg, reg.with_scope(id, s)),
{
    let after = reg.with_scope(id, s);
    assert forall|i: int, k: Text|
        0 <= i < after.modules.len() && #[trigger] after.modules[i].imports.contains_key(
            k,
        ) implies after.modules[i].imports[k].target_module.0 < after.modules.len() by {
        if i != id.0 {
            assert(reg.modules[i].imports.contains_key(k));
        }
    }
    assert forall|i: int, k: Text|
        0 <= i < after.modules.len() && #[trigger] after.modules[i].machines.contains_key(
            k,
        ) implies after.modules[i].machines[k].module.0 < after.modules.len() by {
        if i != id.0 {
            assert(reg.modules[i].machines.contains_key(k));
        }
    }
}

/// The scope of a well-formed registry only holds ids that exist.
proof fn scope_is_wf(reg: RegistryV, id: ModuleId)
    requires
        reg.wf(),
        reg.has(id),
    ensures
        forall|k: Text| #[trigger]
            reg.scope(id).imports.contains_key(k) ==> reg.scope(id).imports[k].target_module.0
                < reg.modules.len(),
        forall|k: Text| #[trigger]
            reg.scope(id).machines.contains_key(k) ==> reg.scope(id).machines[k].module.0
                < reg.modules.len(),
{
    assert forall|k: Text| #[trigger] reg.scope(id).imports.contains_key(k) implies reg.scope(
        id,
    ).imports[k].target_module.0 < reg.modules.len() by {
        assert(reg.modules[id.0 as int].imports.contains_key(k));
    }
    assert forall|k: Text| #[trigger] reg.scope(id).machines.contains_key(k) implies reg.scope(
        id,
    ).machines[k].module.0 < reg.modules.len() by {
        assert(reg.modules[id.0 as int].machines.contains_key(k));
    }
}

pub(crate) proof fn id_for_path_exists(reg: RegistryV, path: Seq<Text>)
    requires
        reg.modules.len() <= u32::MAX,
        reg.id_for_path(path) is Some,
    ensures
        reg.has(reg.id_for_path(path)->0),
        (reg.id_for_path(path)->0).0 == reg.index_of_path(path, 0),
{
    index_nonneg(reg, path, 0);
}

proof fn index_nonneg(reg: RegistryV, path: Seq<Text>, from: int)
    requires
        0 <= from,
    ensures
        reg.index_of_path(path, from) >= from,
    decreases reg.modules.len() - from,
{
    if from < reg.modules.len() && reg.modules[from].path != path {
        index_nonneg(reg, path, from + 1);
    }
}

proof fn leaf_bound_keeps_wf(
    reg: RegistryV,
    id: ModuleId,
    span: SimpleSpan,
    prefix: Seq<Text>,
    ident: Spanned<Text>,
    alias: Option<Spanned<Text>>,
)
    requires
        reg.wf(),
        reg.has(id),
    ensures
        leaf_bound(reg, id, span, prefix, ident, alias).reg.wf(),
        same_modules(reg, leaf_bound(reg, id, span, prefix, ident, alias).reg),
{
    let after = leaf_bound(reg, id, span, prefix, ident, alias).reg;
    scope_is_wf(reg, id);
    if prefix.len() == 0 {
    } else if reg.id_for_path(prefix.push(ident.inner)) is Some {
        id_for_path_exists(reg, prefix.push(ident.inner));
        scope_swap_keeps_wf(reg, id, after.scope(id));
    } else if reg.id_for_path(prefix) is Some {
        id_for_path_exists(reg, prefix);
        scope_swap_keeps_wf(reg, id, after.scope(id));
    }
}

proof fn same_modules_chain(a: RegistryV, b: RegistryV, c: RegistryV)
    requires
        same_modules(a, b),
        same_modules(b, c),
    ensures
        same_modules(a, c),
{
    assert forall|i: int| 0 <= i < a.modules.len() implies (#[trigger] c.modules[i]).path
        == a.modules[i].path by {
        assert(b.modules[i].path == a.modules[i].path);
    }
}

proof fn import_added_keeps_wf(
    reg: RegistryV,
    id: ModuleId,
    node: Spanned<ImportV>,
    prefix: Seq<Text>,
)
    requires
        reg.wf(),
        reg.has(id),
    ensures
        import_added(reg, id, node, prefix).reg.wf(),
        same_modules(reg, import_added(reg, id, node, prefix).reg),
    decreases node.inner, 0nat,
{
    match node.inner {
        ImportV::Import(ident, Some(next), _) => {
            import_added_keeps_wf(reg, id, *next, prefix.push(ident.inner));
        },
        ImportV::Import(ident, None, alias) => {
            leaf_bound_keeps_wf(reg, id, node.span, prefix, ident, alias);
        },
        ImportV::MultiImport(entries) => {
            imports_added_keeps_wf(reg, id, entries, entries.len(), prefix);
        },
    }
}

pub(crate) proof fn imports_added_keeps_wf(
    reg: RegistryV,
    id: ModuleId,
    entries: Seq<Spanned<ImportV>>,
    n: nat,
    prefix: Seq<Text>,
)
    requires
        reg.wf(),
        reg.has(id),
    ensures
        imports_added(reg, id, entries, n, prefix).reg.wf(),
        same_modules(reg, imports_added(reg, id, entries, n, prefix).reg),
    decreases entries, n,
{
    if n == 0 || n > entries.len() {
    } else {
        imports_added_keeps_wf(reg, id, entries, (n - 1) as nat, prefix);
        let before = imports_added(reg, id, entries, (n - 1) as nat, prefix);
        import_added_keeps_wf(before.reg, id, entries[n - 1], prefix);
        same_modules_chain(
            reg,
            before.reg,
            imports_added(reg, id, entries, n, prefix).reg,
        );
    }
}

/// Entering an item keeps every id meaningful, and keeps every module's id
/// and path.
pub proof fn item_added_keeps_wf(reg: RegistryV, id: ModuleId, item: ItemV)
    requires
        reg.wf(),
        reg.has(id),
    ensures
        item_added(reg, id, item).reg.wf(),
        same_modules(reg, item_added(reg, id, item).reg),
{
    let after = item_added(reg, id, item).reg;
    scope_is_wf(reg, id);
    match item {
        ItemV::Import(i) => {
            import_added_keeps_wf(reg, id, i, Seq::empty());
        },
        _ => {
            if after != reg {
                scope_swap_keeps_wf(reg, id, after.scope(id));
                assert(after == reg.with_scope(id, after.scope(id)));
            }
        },
    }
}

} // verus!

verus! {

// ── entering items ─────────────────────────────────────────────────────────

fn push_error(errors: &mut Vec<LakeError>, e: LakeError)
    ensures
        final(errors).deep_view() == old(errors).deep_view() + seq![e.deep_view()],
{
    errors.push(e);
    proof {
        assert(errors.deep_view() =~= old(errors).deep_view() + seq![e.deep_view()]);
    }
}

fn copy_fields(decl: &RecordDecl) -> (r: Vec<(Spanned<Ident>, Spanned<Type>)>)
    ensures
        r.deep_view() == record_fields(decl.deep_view()),
{
    let mut out: Vec<(Spanned<Ident>, Spanned<Type>)> = Vec::new();
    let mut i: usize = 0;
    while i < decl.fields.len()
        invariant
            i <= decl.fields.len(),
            out@.len() == i,
            forall|j: int|
                0 <= j < i ==> (#[trigger] out@[j]).deep_view() == (
                    decl.fields@[j].inner.name.deep_view(),
                    decl.fields@[j].inner.ty.deep_view(),
                ),
        decreases decl.fields.len() - i,
    {
        let f = &decl.fields[i].inner;
        out.push((dup_ident(&f.name), dup_type(&f.ty)));
        i = i + 1;
    }
    proof {
        assert(out.deep_view() =~= record_fields(decl.deep_view()));
    }
    out
}

fn same_fields(
    a: &Vec<(Spanned<Ident>, Spanned<Type>)>,
    b: &Vec<(Spanned<Ident>, Spanned<Type>)>,
) -> (r: bool)
    ensures
        r == (a.deep_view() == b.deep_view()),
{
    if a.len() != b.len() {
        proof {
            assert(a.deep_view().len() != b.deep_view().len());
        }
        return false;
    }
    let mut i: usize = 0;
    while i < a.len()
        invariant
            a.len() == b.len(),
            i <= a.len(),
            forall|j: int| 0 <= j < i ==> (#[trigger] a@[j]).deep_view() == b@[j].deep_view(),
        decreases a.len() - i,
    {
        let x = &a[i];
        let y = &b[i];
        if !(ast::same_ident(&x.0, &y.0) && ast::same_type(&x.1.inner, &y.1.inner) && x.1.span
            == y.1.span) {
            proof {
                assert(a.deep_view()[i as int] != b.deep_view()[i as int]);
            }
            return false;
        }
        i = i + 1;
    }
    proof {
        assert(a.deep_view() =~= b.deep_view());
    }
    true
}

fn same_names(a: &EnumEntry, b: &EnumEntry) -> (r: bool)
    ensures
        r == same_variant_names(a.deep_view(), b.deep_view()),
{
    let ghost av = a.deep_view().variants;
    let ghost bv = b.deep_view().variants;
    if a.variants.len() != b.variants.len() {
        return false;
    }
    let mut i: usize = 0;
    while i < a.variants.len()
        invariant
            a.variants.len() == b.variants.len(),
            av == a.deep_view().variants,
            bv == b.deep_view().variants,
            i <= a.variants.len(),
            forall|j: int| 0 <= j < i ==> (#[trigger] av[j]).name == bv[j].name,
        decreases a.variants.len() - i,
    {
        proof {
            assert(av[i as int] == a.variants@[i as int].deep_view());
            assert(bv[i as int] == b.variants@[i as int].deep_view());
        }
        if !same(a.variants[i].name.as_str(), b.variants[i].name.as_str()) {
            return false;
        }
        i = i + 1;
    }
    true
}

impl ProgramRegistry {
    fn add_machine(&mut self, id: ModuleId, m: &Machine, errors: &mut Vec<LakeError>)
        requires
            old(self).deep_view().has(id),
        ensures
            final(self).deep_view() == machine_added(
                old(self).deep_view(),
                id,
                m.deep_view(),
            ).reg,
            final(errors).deep_view() == old(errors).deep_view() + machine_added(
                old(self).deep_view(),
                id,
                m.deep_view(),
            ).errors,
    {
        let ghost before = *self;
        let name = m.ident.inner.0.clone();
        let cur = self.module(id);
        if cur.records.contains_key(name.as_str()) || cur.enums.contains_key(name.as_str()) {
            push_error(errors, duplicate_symbol_error(&m.ident));
        } else {
            let entry = build_machine_entry(m, id);
            let ghost key = name@;
            let scope = self.module_mut(id);
            scope.machines.insert(name, entry);
            proof {
                let s = self.modules@[id.0 as int];
                registry::scope_replaced(before, *self, id, s);
                name_map::insert_deep(before.modules@[id.0 as int].machines, s.machines, key, entry);
                assert(errors.deep_view() =~= old(errors).deep_view() + Seq::<ErrorV>::empty());
            }
        }
    }

    fn add_ffi(&mut self, id: ModuleId, d: &Directive, errors: &mut Vec<LakeError>)
        requires
            old(self).deep_view().has(id),
        ensures
            final(self).deep_view() == ffi_added(old(self).deep_view(), id, d.deep_view()).reg,
            final(errors).deep_view() == old(errors).deep_view() + ffi_added(
                old(self).deep_view(),
                id,
                d.deep_view(),
            ).errors,
    {
        let ghost before = *self;
        match build_ffi_signature(d) {
            Ok((name, sig)) => {
                let ghost key = name@;
                let cur = self.module(id);
                if cur.records.contains_key(name.as_str()) || cur.enums.contains_key(
                    name.as_str(),
                ) {
                    let msg = cat3("duplicate symbol `", name.as_str(), "` in module");
                    proof {
                        assert(d.deep_view().args[0] == d.args@[0].deep_view());
                    }
                    push_error(
                        errors,
                        LakeError::new(msg.as_str(), d.args[0].span).code("E028"),
                    );
                    return;
                }
                let scope = self.module_mut(id);
                scope.ffi_fns.insert(name, sig);
                proof {
                    let s = self.modules@[id.0 as int];
                    registry::scope_replaced(before, *self, id, s);
                    name_map::insert_deep(before.modules@[id.0 as int].ffi_fns, s.ffi_fns, key, sig);
                    assert(errors.deep_view() =~= old(errors).deep_view() + Seq::<
                        ErrorV,
                    >::empty());
                }
            },
            Err(e) => {
                push_error(errors, e);
            },
        }
    }

    fn add_const(&mut self, id: ModuleId, c: &ConstDecl, errors: &mut Vec<LakeError>)
        requires
            old(self).deep_view().has(id),
        ensures
            final(self).deep_view() == const_added(old(self).deep_view(), id, c.deep_view()).reg,
            final(errors).deep_view() == old(errors).deep_view() + const_added(
                old(self).deep_view(),
                id,
                c.deep_view(),
            ).errors,
    {
        let ghost before = *self;
        match build_const_entry(c) {
            Ok((name, entry)) => {
                let ghost key = name@;
                let cur = self.module(id);
                if cur.records.contains_key(name.as_str()) || cur.enums.contains_key(
                    name.as_str(),
                ) {
                    push_error(errors, duplicate_symbol_error(&c.ident));
                    return;
                }
                let scope = self.module_mut(id);
                scope.consts.insert(name, entry);
                proof {
                    let s = self.modules@[id.0 as int];
                    registry::scope_replaced(before, *self, id, s);
                    name_map::insert_deep(before.modules@[id.0 as int].consts, s.consts, key, entry);
                    assert(errors.deep_view() =~= old(errors).deep_view() + Seq::<
                        ErrorV,
                    >::empty());
                }
            },
            Err(e) => {
                push_error(errors, e);
            },
        }
    }

    fn add_record(&mut self, id: ModuleId, d: &RecordDecl, errors: &mut Vec<LakeError>)
        requires
            old(self).deep_view().has(id),
        ensures
            final(self).deep_view() == record_added(old(self).deep_view(), id, d.deep_view()).reg,
            final(errors).deep_view() == old(errors).deep_view() + record_added(
                old(self).deep_view(),
                id,
                d.deep_view(),
            ).errors,
    {
        let ghost before = *self;
        let name = d.ident.inner.0.clone();
        let fields = copy_fields(d);
        let cur = self.module(id);
        if cur.machines.contains_key(name.as_str()) || cur.ffi_fns.contains_key(name.as_str())
            || cur.consts.contains_key(name.as_str()) || cur.enums.contains_key(name.as_str()) {
            push_error(errors, duplicate_symbol_error(&d.ident));
            return;
        }
        if let Some(existing) = cur.records.get(name.as_str()) {
            if !same_fields(&existing.fields, &fields) {
                push_error(errors, duplicate_symbol_error(&d.ident));
            } else {
                proof {
                    assert(errors.deep_view() =~= old(errors).deep_view() + Seq::<
                        ErrorV,
                    >::empty());
                }
            }
            return;
        }
        let n = d.type_params.len();
        let entry = RecordEntry {
            name: name.clone(),
            module: id,
            is_pub: d.vis,
            type_params: names_of(&d.type_params, 0, n),
            fields,
        };
        proof {
            let g = registry::segment_texts(d.type_params.deep_view());
            assert(g.subrange(0, n as int) =~= g);
        }
        let ghost key = name@;
        let scope = self.module_mut(id);
        scope.records.insert(name, entry);
        proof {
            let s = self.modules@[id.0 as int];
            registry::scope_replaced(before, *self, id, s);
            name_map::insert_deep(before.modules@[id.0 as int].records, s.records, key, entry);
            assert(errors.deep_view() =~= old(errors).deep_view() + Seq::<ErrorV>::empty());
        }
    }

    fn add_enum(&mut self, id: ModuleId, d: &EnumDecl, errors: &mut Vec<LakeError>)
        requires
            old(self).deep_view().has(id),
        ensures
            final(self).deep_view() == enum_added(old(self).deep_view(), id, d.deep_view()).reg,
            final(errors).deep_view() == old(errors).deep_view() + enum_added(
                old(self).deep_view(),
                id,
                d.deep_view(),
            ).errors,
    {
        let ghost before = *self;
        let name = d.name.inner.0.clone();
        let cur = self.module(id);
        if cur.machines.contains_key(name.as_str()) || cur.ffi_fns.contains_key(name.as_str())
            || cur.consts.contains_key(name.as_str()) || cur.records.contains_key(name.as_str()) {
            push_error(errors, duplicate_symbol_error(&d.name));
            return;
        }
        match build_enum_entry(d, id) {
            Err(e) => {
                push_error(errors, e);
            },
            Ok(entry) => {
                if let Some(existing) = cur.enums.get(name.as_str()) {
                    if !same_names(existing, &entry) {
                        push_error(errors, duplicate_symbol_error(&d.name));
                    } else {
                        proof {
                            assert(errors.deep_view() =~= old(errors).deep_view() + Seq::<
                                ErrorV,
                            >::empty());
                        }
                    }
                    return;
                }
                let ghost key = name@;
                let scope = self.module_mut(id);
                scope.enums.insert(name, entry);
                proof {
                    let s = self.modules@[id.0 as int];
                    registry::scope_replaced(before, *self, id, s);
                    name_map::insert_deep(before.modules@[id.0 as int].enums, s.enums, key, entry);
                    assert(errors.deep_view() =~= old(errors).deep_view() + Seq::<
                        ErrorV,
                    >::empty());
                }
            },
        }
    }

    fn add_proto(&mut self, id: ModuleId, d: &ProtoDecl)
        requires
            old(self).deep_view().has(id),
        ensures
            final(self).deep_view() == proto_added(old(self).deep_view(), id, d.deep_view()).reg,
    {
        let ghost before = *self;
        let name = d.name.inner.0.clone();
        let entry = build_proto_entry(d, id);
        let ghost key = name@;
        let scope = self.module_mut(id);
        scope.protos.insert(name, entry);
        proof {
            let s = self.modules@[id.0 as int];
            registry::scope_replaced(before, *self, id, s);
            name_map::insert_deep(before.modules@[id.0 as int].protos, s.protos, key, entry);
        }
    }

    fn add_impl(&mut self, id: ModuleId, d: &ImplDecl)
        requires
            old(self).deep_view().has(id),
        ensures
            final(self).deep_view() == impl_added(old(self).deep_view(), id, d.deep_view()).reg,
    {
        let ghost before = *self;
        let n = d.protos.len();
        let entry = ImplEntry {
            ty: d.ty.inner.0.clone(),
            protos: names_of(&d.protos, 0, n),
            module: id,
            span: d.ty.span,
        };
        proof {
            let g = registry::segment_texts(d.protos.deep_view());
            assert(g.subrange(0, n as int) =~= g);
        }
        let scope = self.module_mut(id);
        scope.impls.push(entry);
        proof {
            let s = self.modules@[id.0 as int];
            registry::scope_replaced(before, *self, id, s);
            assert(s.impls.deep_view() =~= before.modules@[id.0 as int].impls.deep_view().push(
                entry.deep_view(),
            ));
        }
    }

    fn bind_import(&mut self, id: ModuleId, local: String, binding: ImportBinding)
        requires
            old(self).deep_view().has(id),
        ensures
            final(self).deep_view() == old(self).deep_view().with_scope(
                id,
                ScopeV {
                    imports: old(self).deep_view().scope(id).imports.insert(
                        local@,
                        binding.deep_view(),
                    ),
                    ..old(self).deep_view().scope(id)
                },
            ),
    {
        let ghost before = *self;
        let ghost key = local@;
        let scope = self.module_mut(id);
        scope.imports.insert(local, binding);
        proof {
            let s = self.modules@[id.0 as int];
            registry::scope_replaced(before, *self, id, s);
            name_map::insert_deep(before.modules@[id.0 as int].imports, s.imports, key, binding);
        }
    }

    /// Walk an import tree and add bindings to the named module's imports.
    /// Each leaf produces one binding; the local name is the alias if
    /// present, otherwise the leaf segment.
    fn walk_import(
        &mut self,
        id: ModuleId,
        node: &Spanned<Import>,
        prefix: &Vec<String>,
        errors: &mut Vec<LakeError>,
    )
        requires
            old(self).deep_view().wf(),
            old(self).deep_view().has(id),
        ensures
            final(self).deep_view() == import_added(
                old(self).deep_view(),
                id,
                node.deep_view(),
                prefix.deep_view(),
            ).reg,
            final(errors).deep_view() == old(errors).deep_view() + import_added(
                old(self).deep_view(),
                id,
                node.deep_view(),
                prefix.deep_view(),
            ).errors,
        decreases node.inner,
    {
        match &node.inner {
            Import::Import(ident, Some(next), _) => {
                let mut longer = dup_texts(prefix);
                longer.push(ident.inner.0.clone());
                proof {
                    assert(longer.deep_view() =~= prefix.deep_view().push(ident.inner.0@));
                }
                self.walk_import(id, next, &longer, errors);
            },
            Import::Import(ident, None, alias) => {
                self.bind_leaf(id, node.span, prefix, ident, alias, errors);
            },
            Import::MultiImport(entries) => {
                self.walk_imports(id, entries, prefix, errors);
            },
        }
    }

    fn walk_imports(
        &mut self,
        id: ModuleId,
        entries: &Vec<Spanned<Import>>,
        prefix: &Vec<String>,
        errors: &mut Vec<LakeError>,
    )
        requires
            old(self).deep_view().wf(),
            old(self).deep_view().has(id),
        ensures
            final(self).deep_view() == imports_added(
                old(self).deep_view(),
                id,
                ast::imports_view(entries@),
                entries@.len(),
                prefix.deep_view(),
            ).reg,
            final(errors).deep_view() == old(errors).deep_view() + imports_added(
                old(self).deep_view(),
                id,
                ast::imports_view(entries@),
                entries@.len(),
                prefix.deep_view(),
            ).errors,
        decreases *entries,
    {
        let mut i: usize = 0;
        let ghost reg0 = self.deep_view();
        let ghost errs0 = errors.deep_view();
        let ghost es = ast::imports_view(entries@);
        proof {
            assert(errs0 + Seq::<ErrorV>::empty() =~= errs0);
        }
        while i < entries.len()
            invariant
                i <= entries.len(),
                        es == ast::imports_view(entries@),
                reg0.wf(),
                reg0.has(id),
                self.deep_view() == imports_added(
                    reg0,
                    id,
                    es,
                    i as nat,
                    prefix.deep_view(),
                ).reg,
                errors.deep_view() == errs0 + imports_added(
                    reg0,
                    id,
                    es,
                    i as nat,
                    prefix.deep_view(),
                ).errors,
            decreases entries.len() - i,
        {
            proof {
                imports_added_keeps_wf(reg0, id, es, i as nat, prefix.deep_view());
                assert(es[i as int] == entries@[i as int].deep_view());
                assert(decreases_to!(*entries => entries@[i as int].inner));
            }
            self.walk_import(id, &entries[i], prefix, errors);
            proof {
                let before = imports_added(reg0, id, es, i as nat, prefix.deep_view());
                let one = import_added(before.reg, id, es[i as int], prefix.deep_view());
                assert(errs0 + before.errors + one.errors =~= errs0 + (before.errors
                    + one.errors));
            }
            i = i + 1;
        }
    }

    fn bind_leaf(
        &mut self,
        id: ModuleId,
        span: SimpleSpan,
        prefix: &Vec<String>,
        ident: &Spanned<Ident>,
        alias: &Option<Spanned<Ident>>,
        errors: &mut Vec<LakeError>,
    )
        requires
            old(self).deep_view().wf(),
            old(self).deep_view().has(id),
        ensures
            final(self).deep_view() == leaf_bound(
                old(self).deep_view(),
                id,
                span,
                prefix.deep_view(),
                ident.deep_view(),
                alias.deep_view(),
            ).reg,
            final(errors).deep_view() == old(errors).deep_view() + leaf_bound(
                old(self).deep_view(),
                id,
                span,
                prefix.deep_view(),
                ident.deep_view(),
                alias.deep_view(),
            ).errors,
    {
        proof {
            assert(errors.deep_view() + Seq::<ErrorV>::empty() =~= errors.deep_view());
        }
        if prefix.len() == 0 {
            let msg = cat3(
                "import `+",
                ident.inner.0.as_str(),
                "` is too short — at least `+module.item` is required",
            );
            push_error(errors, LakeError::new(msg.as_str(), span).code("M004"));
            return;
        }
        let mut ns = dup_texts(prefix);
        ns.push(ident.inner.0.clone());
        proof {
            assert(ns.deep_view() =~= prefix.deep_view().push(ident.inner.0@));
        }
        let ns_path = ModulePath(ns);
        let local = match alias {
            Some(a) => a.inner.0.clone(),
            None => ident.inner.0.clone(),
        };
        if let Some(target) = self.module_id_for_path(&ns_path) {
            self.bind_import(
                id,
                local,
                ImportBinding { target_module: target, target_item: None },
            );
            return;
        }
        let module = ModulePath(dup_texts(prefix));
        match self.module_id_for_path(&module) {
            Some(target) => {
                self.bind_import(
                    id,
                    local,
                    ImportBinding {
                        target_module: target,
                        target_item: Some(ident.inner.0.clone()),
                    },
                );
            },
            None => {
                let shown = module.display();
                let msg = cat3("import target module `", shown.as_str(), "` was not loaded");
                push_error(errors, LakeError::new(msg.as_str(), span).code("M005"));
            },
        }
    }

    fn add_item(&mut self, id: ModuleId, item: &Item, errors: &mut Vec<LakeError>)
        requires
            old(self).deep_view().wf(),
            old(self).deep_view().has(id),
        ensures
            final(self).deep_view() == item_added(old(self).deep_view(), id, item.deep_view()).reg,
            final(errors).deep_view() == old(errors).deep_view() + item_added(
                old(self).deep_view(),
                id,
                item.deep_view(),
            ).errors,
    {
        proof {
            assert(errors.deep_view() + Seq::<ErrorV>::empty() =~= errors.deep_view());
        }
        match item {
            Item::Machine(m) => self.add_machine(id, &m.inner, errors),
            Item::Directive(d) => {
                if same(d.inner.name.inner.0.as_str(), "ffi") {
                    self.add_ffi(id, &d.inner, errors);
                }
            },
            Item::Const(c) => self.add_const(id, &c.inner, errors),
            Item::Import(i) => {
                let none: Vec<String> = Vec::new();
                proof {
                    assert(none.deep_view() =~= Seq::<Text>::empty());
                }
                self.walk_import(id, i, &none, errors);
            },
            Item::Record(d) => self.add_record(id, &d.inner, errors),
            Item::Enum(d) => self.add_enum(id, &d.inner, errors),
            Item::Proto(d) => self.add_proto(id, &d.inner),
            Item::Impl(d) => self.add_impl(id, &d.inner),
        }
    }

    fn add_items(
        &mut self,
        id: ModuleId,
        module: &crate::loader::ParsedModule,
        errors: &mut Vec<LakeError>,
    )
        requires
            old(self).deep_view().wf(),
            old(self).deep_view().has(id),
        ensures
            final(self).deep_view() == items_added(
                old(self).deep_view(),
                id,
                module.deep_view(),
                module.ast@.len(),
            ).reg,
            final(errors).deep_view() == old(errors).deep_view() + items_added(
                old(self).deep_view(),
                id,
                module.deep_view(),
                module.ast@.len(),
            ).errors,
    {
        let ghost reg0 = self.deep_view();
        let ghost errs0 = errors.deep_view();
        let ghost mv = module.deep_view();
        proof {
            assert(errs0 + Seq::<ErrorV>::empty() =~= errs0);
        }
        let mut i: usize = 0;
        while i < module.ast.len()
            invariant
                i <= module.ast.len(),
                mv == module.deep_view(),
                reg0.wf(),
                reg0.has(id),
                self.deep_view() == items_added(reg0, id, mv, i as nat).reg,
                errors.deep_view() == errs0 + items_added(reg0, id, mv, i as nat).errors,
            decreases module.ast.len() - i,
        {
            proof {
                items_added_keeps_wf(reg0, id, mv, i as nat);
                assert(mv.ast[i as int] == module.ast@[i as int].deep_view());
            }
            let mut fresh: Vec<LakeError> = Vec::new();
            proof {
                assert(fresh.deep_view() =~= Seq::<ErrorV>::empty());
            }
            self.add_item(id, &module.ast[i].inner, &mut fresh);
            let tagged = LakeErrors(fresh).tag_source_path(module.source_path.as_str());
            let mut list = tagged.0;
            let ghost lv = list.deep_view();
            let ghost ev = errors.deep_view();
            errors.append(&mut list);
            proof {
                let before = items_added(reg0, id, mv, i as nat);
                let one = item_added(before.reg, id, mv.ast[i as int].inner);
                assert(Seq::<ErrorV>::empty() + one.errors =~= one.errors);
                assert(errors.deep_view() =~= ev + lv);
                assert(errs0 + before.errors + lv =~= errs0 + (before.errors + lv));
            }
            i = i + 1;
        }
    }

    /// Populate the registry with every module's machines, foreign
    /// declarations, constants, types and import bindings.
    ///
    /// Two passes: first every module gets its id, then each module's items
    /// are entered.
    pub fn populate_from(&mut self, program: &ParsedProgram) -> (r: Result<(), LakeErrors>)
        requires
            old(self).deep_view().wf(),
            old(self).modules@.len() + program.modules@.len() < u32::MAX,
        ensures
            final(self).deep_view() == populated(
                old(self).deep_view(),
                program.deep_view(),
            ).reg,
            final(self).deep_view().wf(),
            match r {
                Ok(_) => populated(old(self).deep_view(), program.deep_view()).errors.len() == 0,
                Err(e) => e.deep_view() == populated(
                    old(self).deep_view(),
                    program.deep_view(),
                ).errors && e.deep_view().len() > 0,
            },
    {
        let ghost reg0 = self.deep_view();
        let ghost ms = program.deep_view();
        let n = program.modules.len();
        let mut i: usize = 0;
        while i < n
            invariant
                i <= n == program.modules@.len(),
                ms == program.deep_view(),
                reg0.wf(),
                reg0.modules.len() + n < u32::MAX,
                self.deep_view() == modules_registered(reg0, ms, i as nat),
            decreases n - i,
        {
            proof {
                modules_registered_facts(reg0, ms, i as nat);
                assert(ms[i as int] == program.modules@[i as int].deep_view());
            }
            let path = program.modules[i].path.dup();
            let source = program.modules[i].source_path.clone();
            let _ = self.register_module(path, Some(source));
            i = i + 1;
        }
        let ghost reg1 = self.deep_view();
        proof {
            modules_registered_facts(reg0, ms, n as nat);
        }
        let mut errors: Vec<LakeError> = Vec::new();
        proof {
            assert(errors.deep_view() =~= Seq::<ErrorV>::empty());
        }
        let mut k: usize = 0;
        while k < n
            invariant
                k <= n == program.modules@.len(),
                ms == program.deep_view(),
                reg1.wf(),
                forall|j: int| 0 <= j < n ==> reg1.id_for_path((#[trigger] ms[j]).path) is Some,
                self.deep_view() == modules_added(reg1, ms, k as nat).reg,
                errors.deep_view() == modules_added(reg1, ms, k as nat).errors,
            decreases n - k,
        {
            let ghost before = modules_added(reg1, ms, k as nat);
            proof {
                modules_added_keeps_wf(reg1, ms, k as nat);
                assert(ms[k as int] == program.modules@[k as int].deep_view());
                same_modules_same_index(reg1, before.reg, ms[k as int].path, 0);
                id_for_path_exists(before.reg, ms[k as int].path);
            }
            let id = self.module_id_for_path(&program.modules[k].path).unwrap();
            self.add_items(id, &program.modules[k], &mut errors);
            k = k + 1;
        }
        proof {
            modules_added_keeps_wf(reg1, ms, n as nat);
        }
        if errors.len() == 0 {
            Ok(())
        } else {
            Err(LakeErrors::new(errors))
        }
    }
}

pub proof fn items_added_keeps_wf(reg: RegistryV, id: ModuleId, m: ModuleV, n: nat)
    requires
        reg.wf(),
        reg.has(id),
    ensures
        items_added(reg, id, m, n).reg.wf(),
        same_modules(reg, items_added(reg, id, m, n).reg),
    decreases n,
{
    if n > 0 {
        items_added_keeps_wf(reg, id, m, (n - 1) as nat);
        let before = items_added(reg, id, m, (n - 1) as nat);
        item_added_keeps_wf(before.reg, id, m.ast[n - 1].inner);
        same_modules_chain(reg, before.reg, items_added(reg, id, m, n).reg);
    }
}

pub proof fn modules_added_keeps_wf(reg: RegistryV, ms: Seq<ModuleV>, n: nat)
    requires
        reg.wf(),
        n <= ms.len(),
        forall|j: int| 0 <= j < ms.len() ==> reg.id_for_path((#[trigger] ms[j]).path) is Some,
    ensures
        modules_added(reg, ms, n).reg.wf(),
        same_modules(reg, modules_added(reg, ms, n).reg),
    decreases n,
{
    if n > 0 {
        modules_added_keeps_wf(reg, ms, (n - 1) as nat);
        let before = modules_added(reg, ms, (n - 1) as nat);
        same_modules_same_index(reg, before.reg, ms[n - 1].path, 0);
        id_for_path_exists(before.reg, ms[n - 1].path);
        let id = before.reg.id_for_path(ms[n - 1].path)->0;
        items_added_keeps_wf(before.reg, id, ms[n - 1], ms[n - 1].ast.len());
        same_modules_chain(reg, before.reg, modules_added(reg, ms, n).reg);
    }
}

proof fn registered_keeps_known(
    reg: RegistryV,
    path: Seq<Text>,
    source: Option<Text>,
    other: Seq<Text>,
)
    requires
        reg.modules.len() < u32::MAX,
        reg.id_for_path(other) is Some,
    ensures
        reg.registered(path, source).id_for_path(other) is Some,
{
    registry::index_of_path_bounds(reg, other, 0);
    registry::index_of_path_bounds(reg, path, 0);
    let after = reg.registered(path, source);
    registry::index_of_path_found(after, other, 0, reg.index_of_path(other, 0));
}

pub proof fn modules_registered_facts(reg: RegistryV, ms: Seq<ModuleV>, n: nat)
    requires
        reg.wf(),
        n <= ms.len(),
        reg.modules.len() + ms.len() < u32::MAX,
    ensures
        modules_registered(reg, ms, n).wf(),
        modules_registered(reg, ms, n).modules.len() <= reg.modules.len() + n,
        forall|j: int|
            0 <= j < n ==> modules_registered(reg, ms, n).id_for_path(
                (#[trigger] ms[j]).path,
            ) is Some,
    decreases n,
{
    if n > 0 {
        modules_registered_facts(reg, ms, (n - 1) as nat);
        let before = modules_registered(reg, ms, (n - 1) as nat);
        let last = ms[n - 1];
        registry::registered_keeps_wf(before, last.path, Some(last.source_path));
        registry::registered_module_is_found(before, last.path, Some(last.source_path));
        assert forall|j: int| 0 <= j < n implies modules_registered(reg, ms, n).id_for_path(
            (#[trigger] ms[j]).path,
        ) is Some by {
            if j < n - 1 {
                registered_keeps_known(
                    before,
                    last.path,
                    Some(last.source_path),
                    ms[j].path,
                );
            }
        }
    }
}

/// Populating a registry gives every module of the program an id, and adds
/// no other modules.
pub proof fn populating_registers_every_module(reg: RegistryV, ms: Seq<ModuleV>)
    requires
        reg.wf(),
        reg.modules.len() + ms.len() < u32::MAX,
    ensures
        populated(reg, ms).reg.wf(),
        populated(reg, ms).reg.modules.len() <= reg.modules.len() + ms.len(),
        forall|j: int|
            0 <= j < ms.len() ==> populated(reg, ms).reg.id_for_path(
                (#[trigger] ms[j]).path,
            ) is Some,
{
    let named = modules_registered(reg, ms, ms.len());
    modules_registered_facts(reg, ms, ms.len());
    modules_added_keeps_wf(named, ms, ms.len());
    let after = populated(reg, ms).reg;
    assert forall|j: int| 0 <= j < ms.len() implies after.id_for_path(
        (#[trigger] ms[j]).path,
    ) is Some by {
        same_modules_same_index(named, after, ms[j].path, 0);
    }
}

/// A record, enum, machine or constant that was accepted is accepted again
/// as it stands, and nothing changes.
pub proof fn adding_again_changes_nothing(reg: RegistryV, id: ModuleId, item: ItemV)
    requires
        reg.has(id),
        item is Record || item is Enum || item is Machine || item is Const,
        item_added(reg, id, item).errors.len() == 0,
    ensures
        item_added(item_added(reg, id, item).reg, id, item) == only(
            item_added(reg, id, item).reg,
        ),
{
    let once = item_added(reg, id, item).reg;
    let s = reg.scope(id);
    let s1 = once.scope(id);
    match item {
        ItemV::Machine(m) => {
            assert(s1.machines.insert(m.inner.ident.inner, machine_entry(m.inner, id))
                =~= s1.machines);
            assert(once.with_scope(id, s1) =~= once);
        },
        ItemV::Const(c) => {
            if let Ok((name, entry)) = const_entry(c.inner) {
                assert(s1.consts.insert(name, entry) =~= s1.consts);
                assert(once.with_scope(id, s1) =~= once);
            }
        },
        _ => {},
    }
}

} // verus!
