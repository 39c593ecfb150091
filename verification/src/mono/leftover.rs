//! Generic types that no template accounts for.

use vstd::prelude::*;

use crate::api::ast;
use crate::api::ast::{
    Item, ItemV, Machine, MachineItem, MachineItemV, MachineV, MethodSigV, Pattern, PatternKind,
    PatternKindV, PatternV, ProtoDecl, ProtoDeclV, RecordFieldV, Type, TypeV, VariantPayload,
    VariantPayloadV,
};
use crate::api::expr;
use crate::api::expr::{Expr, HandlerV, Head, Tree};
use crate::error_handle;
use crate::error_handle::{ErrorV, LakeError};
use crate::inspect;
use crate::inspect::{check, check_all, Ask, Property};
use crate::loader::{ModuleV, ParsedProgram};
use crate::mono::concrete;
use crate::span::Spanned;
use crate::text::{cat3, Text};

verus! {

/// Whether the type of a pattern is concrete, and those of its elements.
pub open spec fn pattern_concrete(p: PatternV) -> bool
    decreases p,
{
    concrete::concrete(p.ty.inner) && match p.kind {
        PatternKindV::Tuple(elems) => patterns_concrete(elems),
        _ => true,
    }
}

pub open spec fn patterns_concrete(ps: Seq<Spanned<PatternV>>) -> bool
    decreases ps,
{
    forall|i: int| 0 <= i < ps.len() ==> pattern_concrete((#[trigger] ps[i]).inner)
}

/// Whether the parameter types and the return type of a branch are concrete.
pub open spec fn head_concrete(h: HandlerV) -> bool {
    patterns_concrete(h.patterns) && (h.ret_ty is Some ==> concrete::concrete(h.ret_ty->0.inner))
}

/// Whether the types in a node are concrete, those of the handlers of a
/// `wait` included.
pub open spec fn node_concrete(t: Tree) -> bool {
    match t.head {
        Head::Var(_, ty) => concrete::concrete(ty),
        Head::Num(_, ty) => concrete::concrete(ty),
        Head::Str(_, ty) => concrete::concrete(ty),
        Head::Let(_, ty) => concrete::concrete(ty.inner),
        Head::Wait => forall|k: int|
            1 <= k < t.kids.len() ==> ((#[trigger] t.kids[k]).head matches Head::Handler(h)
                ==> head_concrete(h)),
        _ => true,
    }
}

/// All types in an expression are concrete.
pub open spec fn concretely_typed() -> Ask {
    Ask { local: |t: Tree| node_concrete(t), covers: |head: Head, i: int| true }
}

/// Whether the types of an item of a machine are concrete.
pub open spec fn part_concrete(item: MachineItemV) -> bool {
    match item {
        MachineItemV::Field(f) => concrete::concrete(f.ty.inner),
        MachineItemV::Branch(b) => head_concrete(b.head) && inspect::all_hold(
            concretely_typed(),
            b.body,
        ),
    }
}

/// Whether the types of a machine are concrete.
pub open spec fn machine_concrete(m: MachineV) -> bool {
    &&& forall|k: int|
        0 <= k < m.attrs.len() ==> concrete::all_concrete((#[trigger] m.attrs[k]).inner.args)
    &&& forall|k: int| 0 <= k < m.items.len() ==> part_concrete((#[trigger] m.items[k]).inner)
}

/// Whether the types of a method that a proto asks for are concrete.
pub open spec fn method_concrete(m: MethodSigV) -> bool {
    concrete::all_concrete(m.params) && (m.ret is Some ==> concrete::concrete(m.ret->0.inner))
}

/// Whether the types of a proto are concrete.
pub open spec fn proto_concrete(d: ProtoDeclV) -> bool {
    forall|k: int| 0 <= k < d.methods.len() ==> method_concrete((#[trigger] d.methods[k]).inner)
}

/// Whether the types of a record's fields are concrete.
pub open spec fn fields_concrete(fields: Seq<Spanned<RecordFieldV>>) -> bool {
    forall|k: int| 0 <= k < fields.len() ==> concrete::concrete((#[trigger] fields[k]).inner.ty.inner)
}

/// Whether the types of a variant's labelled payload are concrete.
pub open spec fn labels_concrete(fields: Seq<(Spanned<Text>, Spanned<TypeV>)>) -> bool {
    forall|k: int| 0 <= k < fields.len() ==> concrete::concrete((#[trigger] fields[k]).1.inner)
}

/// Whether the types of a variant's payload are concrete.
pub open spec fn payload_concrete(p: VariantPayloadV) -> bool {
    match p {
        VariantPayloadV::NoPayload => true,
        VariantPayloadV::Tuple(ts) => concrete::all_concrete(ts),
        VariantPayloadV::Record(fs) => labels_concrete(fs),
    }
}

/// Whether all types of an item are concrete.
pub open spec fn item_concrete(item: ItemV) -> bool {
    match item {
        ItemV::Machine(m) => machine_concrete(m.inner),
        ItemV::Record(r) => fields_concrete(r.inner.fields),
        ItemV::Enum(e) => forall|k: int|
            0 <= k < e.inner.variants.len() ==> payload_concrete(
                (#[trigger] e.inner.variants[k]).inner.payload,
            ),
        ItemV::Const(c) => inspect::holds(concretely_typed(), c.inner.value),
        ItemV::Proto(d) => proto_concrete(d.inner),
        ItemV::Directive(d) => concrete::all_concrete(d.inner.args),
        ItemV::Import(_) | ItemV::Impl(_) => true,
    }
}

/// The name of an item.
pub open spec fn item_name(item: ItemV) -> Text {
    match item {
        ItemV::Machine(m) => m.inner.ident.inner,
        ItemV::Record(r) => r.inner.ident.inner,
        ItemV::Enum(e) => e.inner.name.inner,
        ItemV::Const(c) => c.inner.ident.inner,
        ItemV::Proto(d) => d.inner.name.inner,
        ItemV::Directive(d) => d.inner.name.inner,
        _ => ""@,
    }
}

/// The complaint about an item with a generic type that has no template.
pub open spec fn unresolved_error(item: Spanned<ItemV>) -> ErrorV {
    error_handle::coded_error(
        "cannot resolve a generic type in `"@ + item_name(item.inner) + "`"@,
        item.span,
        "E040"@,
    )
}

/// The complaints about the first `n` items.
pub open spec fn item_complaints(ast: Seq<Spanned<ItemV>>, n: nat) -> Seq<ErrorV>
    decreases n,
{
    if n == 0 {
        Seq::empty()
    } else {
        let before = item_complaints(ast, (n - 1) as nat);
        if item_concrete(ast[n - 1].inner) {
            before
        } else {
            before.push(unresolved_error(ast[n - 1]))
        }
    }
}

/// The complaints about the first `n` modules.
pub open spec fn complaints(ms: Seq<ModuleV>, n: nat) -> Seq<ErrorV>
    decreases n,
{
    if n == 0 {
        Seq::empty()
    } else {
        complaints(ms, (n - 1) as nat) + item_complaints(ms[n - 1].ast, ms[n - 1].ast.len())
    }
}

proof fn silence_about_items(ast: Seq<Spanned<ItemV>>, n: nat)
    requires
        n <= ast.len(),
        item_complaints(ast, n).len() == 0,
    ensures
        forall|j: int| 0 <= j < n ==> item_concrete((#[trigger] ast[j]).inner),
    decreases n,
{
    if n > 0 {
        silence_about_items(ast, (n - 1) as nat);
    }
}

/// Where nothing is complained about, every type is concrete.
pub proof fn silence_means_concrete(ms: Seq<ModuleV>, n: nat)
    requires
        n <= ms.len(),
        complaints(ms, n).len() == 0,
    ensures
        forall|i: int, j: int|
            0 <= i < n && 0 <= j < ms[i].ast.len() ==> item_concrete(
                (#[trigger] ms[i].ast[j]).inner,
            ),
    decreases n,
{
    if n > 0 {
        silence_means_concrete(ms, (n - 1) as nat);
        silence_about_items(ms[n - 1].ast, ms[n - 1].ast.len());
    }
}

// ── executable side ────────────────────────────────────────────────────────

fn is_concrete(t: &Type) -> (r: bool)
    ensures
        r == concrete::concrete(ast::type_view(*t)),
    decreases *t, 0nat,
{
    match t {
        Type::TypeVar(_) => false,
        Type::NamedGeneric { .. } => false,
        Type::Struct(ts) => {
            proof {
                assert(ast::type_view(*t) == TypeV::Struct(ast::types_view(ts@)));
            }
            are_concrete(ts)
        },
        Type::Generic(name, ts) => {
            proof {
                assert(ast::type_view(*t) == TypeV::Generic(
                    name.deep_view(),
                    ast::types_view(ts@),
                ));
            }
            are_concrete(ts)
        },
        Type::Path(_, rest) => is_concrete(&rest.inner),
        _ => true,
    }
}

fn are_concrete(ts: &Vec<Spanned<Type>>) -> (r: bool)
    ensures
        r == concrete::all_concrete(ast::types_view(ts@)),
    decreases ts@, 1nat,
{
    let ghost tv = ast::types_view(ts@);
    let mut i: usize = 0;
    while i < ts.len()
        invariant
            i <= ts.len(),
            tv == ast::types_view(ts@),
            forall|j: int| 0 <= j < i ==> concrete::concrete((#[trigger] tv[j]).inner),
        decreases ts.len() - i,
    {
        proof {
            assert(tv[i as int].inner == ast::type_view(ts@[i as int].inner));
            assert(decreases_to!(ts@ => ts@[i as int]));
        }
        if !is_concrete(&ts[i].inner) {
            proof {
                assert(!concrete::concrete(tv[i as int].inner));
            }
            return false;
        }
        i = i + 1;
    }
    true
}

fn is_pattern_concrete(p: &Pattern) -> (r: bool)
    ensures
        r == pattern_concrete(ast::pattern_view(*p)),
    decreases *p, 0nat,
{
    if !is_concrete(&p.ty.inner) {
        return false;
    }
    match &p.kind {
        PatternKind::Tuple(elems) => are_patterns_concrete(elems),
        _ => true,
    }
}

fn are_patterns_concrete(ps: &Vec<Spanned<Pattern>>) -> (r: bool)
    ensures
        r == patterns_concrete(ast::patterns_view(ps@)),
    decreases ps@, 1nat,
{
    let ghost pv = ast::patterns_view(ps@);
    let mut i: usize = 0;
    while i < ps.len()
        invariant
            i <= ps.len(),
            pv == ast::patterns_view(ps@),
            forall|j: int| 0 <= j < i ==> pattern_concrete((#[trigger] pv[j]).inner),
        decreases ps.len() - i,
    {
        proof {
            assert(pv[i as int].inner == ast::pattern_view(ps@[i as int].inner));
            assert(decreases_to!(ps@ => ps@[i as int]));
        }
        if !is_pattern_concrete(&ps[i].inner) {
            proof {
                assert(!pattern_concrete(pv[i as int].inner));
            }
            return false;
        }
        i = i + 1;
    }
    true
}

fn is_head_concrete(ps: &Vec<Spanned<Pattern>>, ret: &Option<Spanned<Type>>) -> (r: bool)
    ensures
        forall|h: HandlerV|
            h.patterns == ast::patterns_view(ps@) && h.ret_ty == ret.deep_view() ==> r
                == #[trigger] head_concrete(h),
{
    if !are_patterns_concrete(ps) {
        return false;
    }
    match ret {
        Some(t) => is_concrete(&t.inner),
        None => true,
    }
}

/// Checks that all types in an expression are concrete.
pub struct ConcretelyTyped {}

impl Property for ConcretelyTyped {
    open spec fn ready(&self) -> bool {
        true
    }

    open spec fn ask(&self) -> Ask {
        concretely_typed()
    }

    fn check_local(&self, e: &Spanned<Expr>) -> (r: bool) {
        let ghost t = expr::tree_of(*e);
        match &e.inner {
            Expr::Var(_, ty) => is_concrete(ty),
            Expr::Num(_, ty) => is_concrete(ty),
            Expr::String(_, ty) => is_concrete(ty),
            Expr::Let { ty, .. } => is_concrete(&ty.inner),
            Expr::Wait { handlers, filter } => {
                let ghost hv = expr::handlers_view(handlers@);
                proof {
                    assert(t.kids.len() == hv.len() + 1);
                    assert(t.kids.skip(1) =~= hv);
                }
                let mut i: usize = 0;
                while i < handlers.len()
                    invariant
                        i <= handlers.len(),
                        t == expr::tree_of(*e),
                        t.head is Wait,
                        hv == expr::handlers_view(handlers@),
                        t.kids.len() == hv.len() + 1,
                        t.kids.skip(1) == hv,
                        forall|k: int|
                            1 <= k <= i ==> ((#[trigger] t.kids[k]).head matches Head::Handler(h)
                                ==> head_concrete(h)),
                    decreases handlers.len() - i,
                {
                    let h = &handlers[i].inner;
                    let ghost head = expr::branch_head(*h);
                    let ok = is_head_concrete(&h.patterns, &h.ret_ty);
                    proof {
                        assert(ok == head_concrete(head));
                        assert(t.kids[i + 1] == t.kids.skip(1)[i as int]);
                        assert(t.kids[i + 1].head == Head::Handler(head));
                    }
                    if !ok {
                        proof {
                            assert(!node_concrete(t));
                        }
                        return false;
                    }
                    i = i + 1;
                }
                true
            },
            _ => true,
        }
    }

    fn check_covers(&self, e: &Expr, i: usize) -> (r: bool) {
        true
    }
}

fn is_machine_concrete(m: &Machine) -> (r: bool)
    ensures
        r == machine_concrete(m.deep_view()),
{
    let ghost iv = m.deep_view().items;
    let ghost dv = m.deep_view().attrs;
    let mut j: usize = 0;
    while j < m.attrs.len()
        invariant
            j <= m.attrs.len(),
            dv == m.deep_view().attrs,
            forall|k: int|
                0 <= k < j ==> concrete::all_concrete((#[trigger] dv[k]).inner.args),
        decreases m.attrs.len() - j,
    {
        proof {
            assert(dv[j as int] == m.attrs@[j as int].deep_view());
            ast::types_view_is_deep_view(m.attrs@[j as int].inner.args);
        }
        if !are_concrete(&m.attrs[j].inner.args) {
            proof {
                assert(!concrete::all_concrete(dv[j as int].inner.args));
            }
            return false;
        }
        j = j + 1;
    }
    let mut i: usize = 0;
    while i < m.items.len()
        invariant
            i <= m.items.len(),
            iv == m.deep_view().items,
            forall|k: int| 0 <= k < i ==> part_concrete((#[trigger] iv[k]).inner),
        decreases m.items.len() - i,
    {
        proof {
            assert(iv[i as int] == m.items@[i as int].deep_view());
        }
        let ok = match &m.items[i].inner {
            MachineItem::Field(f) => is_concrete(&f.ty.inner),
            MachineItem::Branch(b) => {
                let head = is_head_concrete(&b.patterns, &b.ret_ty);
                proof {
                    assert(head == head_concrete(expr::branch_head(*b)));
                }
                head && check_all(&ConcretelyTyped {  }, &b.body)
            },
        };
        if !ok {
            proof {
                assert(!part_concrete(iv[i as int].inner));
            }
            return false;
        }
        i = i + 1;
    }
    true
}

fn is_payload_concrete(p: &VariantPayload) -> (r: bool)
    ensures
        r == payload_concrete(p.deep_view()),
{
    match p {
        VariantPayload::NoPayload => true,
        VariantPayload::Tuple(ts) => {
            proof {
                ast::types_view_is_deep_view(*ts);
            }
            are_concrete(ts)
        },
        VariantPayload::Record(fs) => {
            let ghost fv = fs.deep_view();
            proof {
                assert(p.deep_view() == VariantPayloadV::Record(fv));
            }
            let mut i: usize = 0;
            while i < fs.len()
                invariant
                    i <= fs.len(),
                    fv == fs.deep_view(),
                    p.deep_view() == VariantPayloadV::Record(fv),
                    forall|k: int| 0 <= k < i ==> concrete::concrete((#[trigger] fv[k]).1.inner),
                decreases fs.len() - i,
            {
                proof {
                    assert(fv[i as int].1 == fs@[i as int].1.deep_view());
                }
                if !is_concrete(&fs[i].1.inner) {
                    proof {
                        assert(!labels_concrete(fv));
                    }
                    return false;
                }
                i = i + 1;
            }
            true
        },
    }
}

fn is_proto_concrete(d: &ProtoDecl) -> (r: bool)
    ensures
        r == proto_concrete(d.deep_view()),
{
    let ghost mv = d.deep_view().methods;
    let mut i: usize = 0;
    while i < d.methods.len()
        invariant
            i <= d.methods.len(),
            mv == d.deep_view().methods,
            forall|k: int| 0 <= k < i ==> method_concrete((#[trigger] mv[k]).inner),
        decreases d.methods.len() - i,
    {
        proof {
            assert(mv[i as int] == d.methods@[i as int].deep_view());
            ast::types_view_is_deep_view(d.methods@[i as int].inner.params);
        }
        let m = &d.methods[i].inner;
        let ok = are_concrete(&m.params) && match &m.ret {
            Some(t) => is_concrete(&t.inner),
            None => true,
        };
        if !ok {
            proof {
                assert(!method_concrete(mv[i as int].inner));
            }
            return false;
        }
        i = i + 1;
    }
    true
}

fn is_item_concrete(item: &Item) -> (r: bool)
    ensures
        r == item_concrete(item.deep_view()),
{
    match item {
        Item::Machine(m) => is_machine_concrete(&m.inner),
        Item::Record(d) => {
            let ghost fv = d.inner.deep_view().fields;
            let mut i: usize = 0;
            while i < d.inner.fields.len()
                invariant
                    i <= d.inner.fields.len(),
                    fv == d.inner.deep_view().fields,
                    item.deep_view() == ItemV::Record(d.deep_view()),
                    forall|k: int|
                        0 <= k < i ==> concrete::concrete((#[trigger] fv[k]).inner.ty.inner),
                decreases d.inner.fields.len() - i,
            {
                proof {
                    assert(fv[i as int] == d.inner.fields@[i as int].deep_view());
                }
                if !is_concrete(&d.inner.fields[i].inner.ty.inner) {
                    proof {
                        assert(!fields_concrete(fv));
                    }
                    return false;
                }
                i = i + 1;
            }
            true
        },
        Item::Enum(d) => {
            let ghost vv = d.inner.deep_view().variants;
            let mut i: usize = 0;
            while i < d.inner.variants.len()
                invariant
                    i <= d.inner.variants.len(),
                    vv == d.inner.deep_view().variants,
                    item.deep_view() == ItemV::Enum(d.deep_view()),
                    forall|k: int|
                        0 <= k < i ==> payload_concrete((#[trigger] vv[k]).inner.payload),
                decreases d.inner.variants.len() - i,
            {
                proof {
                    assert(vv[i as int] == d.inner.variants@[i as int].deep_view());
                }
                if !is_payload_concrete(&d.inner.variants[i].inner.payload) {
                    proof {
                        assert(!payload_concrete(vv[i as int].inner.payload));
                    }
                    return false;
                }
                i = i + 1;
            }
            true
        },
        Item::Const(c) => check(&ConcretelyTyped {  }, &c.inner.value),
        Item::Proto(d) => is_proto_concrete(&d.inner),
        Item::Directive(d) => {
            proof {
                ast::types_view_is_deep_view(d.inner.args);
            }
            are_concrete(&d.inner.args)
        },
        Item::Import(_) | Item::Impl(_) => true,
    }
}

fn name_of(item: &Item) -> (r: &str)
    ensures
        r@ == item_name(item.deep_view()),
{
    match item {
        Item::Machine(m) => m.inner.ident.inner.0.as_str(),
        Item::Record(d) => d.inner.ident.inner.0.as_str(),
        Item::Enum(d) => d.inner.name.inner.0.as_str(),
        Item::Const(c) => c.inner.ident.inner.0.as_str(),
        Item::Proto(d) => d.inner.name.inner.0.as_str(),
        Item::Directive(d) => d.inner.name.inner.0.as_str(),
        _ => "",
    }
}

/// Complains about every item in which a generic type is left.
pub fn complain(program: &ParsedProgram) -> (r: Vec<LakeError>)
    ensures
        r.deep_view() == complaints(program.deep_view(), program.deep_view().len()),
{
    let ghost ms = program.deep_view();
    let mut out: Vec<LakeError> = Vec::new();
    proof {
        assert(out.deep_view() =~= Seq::<ErrorV>::empty());
    }
    let mut i: usize = 0;
    while i < program.modules.len()
        invariant
            i <= program.modules.len(),
            ms == program.deep_view(),
            out.deep_view() == complaints(ms, i as nat),
        decreases program.modules.len() - i,
    {
        let m = &program.modules[i];
        let ghost start = out.deep_view();
        let ghost av = m.ast.deep_view();
        proof {
            assert(ms[i as int] == m.deep_view());
            assert(start + item_complaints(av, 0) =~= start);
        }
        let mut j: usize = 0;
        while j < m.ast.len()
            invariant
                j <= m.ast.len(),
                av == m.ast.deep_view(),
                out.deep_view() == start + item_complaints(av, j as nat),
            decreases m.ast.len() - j,
        {
            proof {
                assert(av[j as int] == m.ast@[j as int].deep_view());
            }
            if !is_item_concrete(&m.ast[j].inner) {
                let message = cat3(
                    "cannot resolve a generic type in `",
                    name_of(&m.ast[j].inner),
                    "`",
                );
                let e = LakeError::new(message.as_str(), m.ast[j].span).code("E040");
                let ghost before = out.deep_view();
                let ghost ev = e.deep_view();
                out.push(e);
                proof {
                    assert(ev == unresolved_error(av[j as int]));
                    assert(out.deep_view() =~= before.push(ev));
                    assert(before.push(ev) =~= start + item_complaints(av, j as nat).push(ev));
                }
            }
            j = j + 1;
        }
        i = i + 1;
    }
    out
}

} // verus!
