//! Protos: whether a concrete type has the machines that a proto requires.

use vstd::prelude::*;

use crate::api::ast;
use crate::api::ast::{Ident, MachineV, Type, TypeV};
use crate::error_handle;
use crate::error_handle::{ErrorV, LakeError};
use crate::mono::state;
use crate::mono::state::{
    inst_name_text, keys_text, push_inst, push_job, EnvV, Inst, InstV, JobKind, JobV, MachineTemplate,
    MachineTemplateV, MonoCx, MonoJob, MonoState, MonoV,
};
use crate::mono::types;
use crate::mono::types::mangle_type;
use crate::registry::{ModuleId, ProgramRegistry, RegistryV};
use crate::span::{SimpleSpan, Spanned};
use crate::text;
use crate::text::{cat3, contains_text, join_texts, same, Text};

verus! {

/// A required method, with the concrete type put for `Self`.
pub struct Req {
    pub proto: String,
    pub method: String,
    pub params: Vec<String>,
    pub ret: String,
}

#[verifier::ext_equal]
pub struct ReqV {
    pub proto: Text,
    pub method: Text,
    pub params: Seq<Text>,
    pub ret: Text,
}

impl DeepView for Req {
    type V = ReqV;

    open spec fn deep_view(&self) -> ReqV {
        ReqV {
            proto: self.proto@,
            method: self.method@,
            params: self.params.deep_view(),
            ret: self.ret@,
        }
    }
}

/// `t`, or the concrete type where `t` is `Self`.
pub open spec fn for_self(t: Text, cty: Text) -> Text {
    if t == "Self"@ {
        cty
    } else {
        t
    }
}

/// The first `n` methods that a proto requires of `cty`.
pub open spec fn reqs_of(
    proto: Text,
    required: Seq<(Text, Seq<Text>, Text)>,
    n: nat,
    cty: Text,
) -> Seq<ReqV>
    decreases n,
{
    if n == 0 {
        Seq::empty()
    } else {
        let (method, params, ret) = required[n - 1];
        reqs_of(proto, required, (n - 1) as nat, cty).push(
            ReqV {
                proto,
                method,
                params: params.map_values(|p: Text| for_self(p, cty)),
                ret: for_self(ret, cty),
            },
        )
    }
}

/// What the protos on the stack and all their ancestors require of `cty`,
/// in the order in which they are visited, and the protos that are unknown;
/// at most `fuel` steps are taken.
pub open spec fn required_of(
    reg: RegistryV,
    stack: Seq<Text>,
    seen: Seq<Text>,
    cty: Text,
    fuel: nat,
) -> (Seq<ReqV>, Seq<Text>)
    decreases fuel,
{
    if fuel == 0 || stack.len() == 0 {
        (Seq::empty(), Seq::empty())
    } else {
        let p = stack.last();
        let rest = stack.drop_last();
        if seen.contains(p) {
            required_of(reg, rest, seen, cty, (fuel - 1) as nat)
        } else {
            match reg.proto_from(p, 0) {
                None => {
                    let (rs, us) = required_of(reg, rest, seen.push(p), cty, (fuel - 1) as nat);
                    (rs, seq![p] + us)
                },
                Some(entry) => {
                    let (rs, us) = required_of(
                        reg,
                        rest + entry.parents,
                        seen.push(p),
                        cty,
                        (fuel - 1) as nat,
                    );
                    (reqs_of(p, entry.required, entry.required.len(), cty) + rs, us)
                },
            }
        }
    }
}

/// E042: a bound names a proto that does not exist.
pub open spec fn unknown_proto(name: Text, span: SimpleSpan) -> ErrorV {
    error_handle::coded_error("unknown proto `"@ + name + "` in bound"@, span, "E042"@)
}

/// E042: a required method is missing.
pub open spec fn missing_method(r: ReqV, cty: Text, span: SimpleSpan) -> ErrorV {
    error_handle::helped_error(
        "type `"@ + cty + "` does not implement proto `"@ + r.proto + "`: missing `"@ + r.method
            + "("@ + text::join(r.params, " "@) + ") -> "@ + r.ret + "`"@,
        span,
        "E042"@,
        "define a machine `"@ + r.method + "` with that signature for `"@ + cty + "`"@,
    )
}

/// The errors for the first `n` names of unknown protos.
pub open spec fn unknown_protos(names: Seq<Text>, n: nat, span: SimpleSpan) -> Seq<ErrorV>
    decreases n,
{
    if n == 0 {
        Seq::empty()
    } else {
        unknown_protos(names, (n - 1) as nat, span).push(unknown_proto(names[n - 1], span))
    }
}

/// The errors for those of the first `n` requirements that no machine meets.
pub open spec fn missing_methods(
    reg: RegistryV,
    reqs: Seq<ReqV>,
    n: nat,
    cty: Text,
    span: SimpleSpan,
) -> Seq<ErrorV>
    decreases n,
{
    if n == 0 {
        Seq::empty()
    } else {
        let before = missing_methods(reg, reqs, (n - 1) as nat, cty, span);
        let r = reqs[n - 1];
        if reg.has_method(r.method, r.params, r.ret) {
            before
        } else {
            before.push(missing_method(r, cty, span))
        }
    }
}

/// The errors of a type that is to satisfy a proto: unknown protos first,
/// then missing methods.
pub open spec fn proto_errors(reg: RegistryV, proto: Text, cty: Text, span: SimpleSpan) -> Seq<
    ErrorV,
> {
    let (reqs, unknown) = required_of(reg, seq![proto], Seq::empty(), cty, u64::MAX as nat);
    unknown_protos(unknown, unknown.len(), span) + missing_methods(
        reg,
        reqs,
        reqs.len(),
        cty,
        span,
    )
}

/// A type satisfies a proto without complaint exactly when every proto that
/// is visited exists and every method that is required is there.
pub proof fn no_proto_errors(reg: RegistryV, proto: Text, cty: Text, span: SimpleSpan)
    ensures
        ({
            let (reqs, unknown) = required_of(
                reg,
                seq![proto],
                Seq::empty(),
                cty,
                u64::MAX as nat,
            );
            proto_errors(reg, proto, cty, span).len() == 0 <==> (unknown.len() == 0 && forall|i: int|
                0 <= i < reqs.len() ==> reg.has_method(
                    (#[trigger] reqs[i]).method,
                    reqs[i].params,
                    reqs[i].ret,
                ))
        }),
{
    let (reqs, unknown) = required_of(reg, seq![proto], Seq::empty(), cty, u64::MAX as nat);
    unknown_protos_len(unknown, unknown.len(), span);
    no_missing_methods(reg, reqs, reqs.len(), cty, span);
}

proof fn unknown_protos_len(names: Seq<Text>, n: nat, span: SimpleSpan)
    ensures
        unknown_protos(names, n, span).len() == n,
    decreases n,
{
    if n > 0 {
        unknown_protos_len(names, (n - 1) as nat, span);
    }
}

proof fn no_missing_methods(reg: RegistryV, reqs: Seq<ReqV>, n: nat, cty: Text, span: SimpleSpan)
    requires
        n <= reqs.len(),
    ensures
        missing_methods(reg, reqs, n, cty, span).len() == 0 <==> (forall|i: int|
            0 <= i < n ==> reg.has_method(
                (#[trigger] reqs[i]).method,
                reqs[i].params,
                reqs[i].ret,
            )),
    decreases n,
{
    if n > 0 {
        no_missing_methods(reg, reqs, (n - 1) as nat, cty, span);
    }
}

fn for_self_text(t: &String, cty: &str) -> (r: String)
    ensures
        r@ == for_self(t@, cty@),
{
    if same(t.as_str(), "Self") {
        cty.to_owned()
    } else {
        t.clone()
    }
}

fn for_self_texts(ts: &Vec<String>, cty: &str) -> (r: Vec<String>)
    ensures
        r.deep_view() == ts.deep_view().map_values(|p: Text| for_self(p, cty@)),
{
    let mut out: Vec<String> = Vec::new();
    let mut i: usize = 0;
    while i < ts.len()
        invariant
            i <= ts.len(),
            out@.len() == i,
            forall|j: int| 0 <= j < i ==> (#[trigger] out@[j])@ == for_self(ts@[j]@, cty@),
        decreases ts.len() - i,
    {
        out.push(for_self_text(&ts[i], cty));
        i = i + 1;
    }
    proof {
        assert(out.deep_view() =~= ts.deep_view().map_values(|p: Text| for_self(p, cty@)));
    }
    out
}

fn push_reqs(
    out: &mut Vec<Req>,
    proto: &str,
    required: &Vec<(String, Vec<String>, String)>,
    cty: &str,
)
    ensures
        final(out).deep_view() == old(out).deep_view() + reqs_of(
            proto@,
            required.deep_view(),
            required@.len(),
            cty@,
        ),
{
    let ghost rv = required.deep_view();
    let ghost start = out.deep_view();
    let mut i: usize = 0;
    proof {
        assert(start + reqs_of(proto@, rv, 0, cty@) =~= start);
    }
    while i < required.len()
        invariant
            i <= required.len(),
            rv == required.deep_view(),
            out.deep_view() == start + reqs_of(proto@, rv, i as nat, cty@),
        decreases required.len() - i,
    {
        let ghost before = out.deep_view();
        proof {
            assert(rv[i as int] == (
                required@[i as int].0@,
                required@[i as int].1.deep_view(),
                required@[i as int].2@,
            ));
        }
        let one = Req {
            proto: proto.to_owned(),
            method: required[i].0.clone(),
            params: for_self_texts(&required[i].1, cty),
            ret: for_self_text(&required[i].2, cty),
        };
        let ghost v = one.deep_view();
        out.push(one);
        proof {
            assert(out.deep_view() =~= before.push(v));
            assert(out.deep_view() =~= start + reqs_of(proto@, rv, (i + 1) as nat, cty@));
        }
        i = i + 1;
    }
}

fn gather_reqs(registry: &ProgramRegistry, proto: &str, cty: &str) -> (r: (Vec<Req>, Vec<String>))
    ensures
        (r.0.deep_view(), r.1.deep_view()) == required_of(
            registry.deep_view(),
            seq![proto@],
            Seq::empty(),
            cty@,
            u64::MAX as nat,
        ),
{
    let ghost reg = registry.deep_view();
    let ghost whole = required_of(reg, seq![proto@], Seq::empty(), cty@, u64::MAX as nat);
    let mut reqs: Vec<Req> = Vec::new();
    let mut unknown: Vec<String> = Vec::new();
    let mut seen: Vec<String> = Vec::new();
    let mut stack: Vec<String> = Vec::new();
    stack.push(proto.to_owned());
    let mut fuel: u64 = u64::MAX;
    proof {
        assert(stack.deep_view() =~= seq![proto@]);
        assert(seen.deep_view() =~= Seq::<Text>::empty());
        assert(reqs.deep_view() + whole.0 =~= whole.0);
        assert(unknown.deep_view() + whole.1 =~= whole.1);
    }
    while fuel > 0 && stack.len() > 0
        invariant
            reg == registry.deep_view(),
            ({
                let (rs, us) = required_of(
                    reg,
                    stack.deep_view(),
                    seen.deep_view(),
                    cty@,
                    fuel as nat,
                );
                whole == (reqs.deep_view() + rs, unknown.deep_view() + us)
            }),
        decreases fuel,
    {
        let ghost st = stack.deep_view();
        let ghost se = seen.deep_view();
        let ghost f = fuel as nat;
        let ghost r0 = reqs.deep_view();
        let ghost u0 = unknown.deep_view();
        let p = stack.pop().unwrap();
        proof {
            assert(st.last() == p@);
            assert(stack.deep_view() =~= st.drop_last());
        }
        fuel = fuel - 1;
        if !contains_text(&seen, p.as_str()) {
            match registry.lookup_proto(p.as_str()) {
                None => {
                    unknown.push(p.clone());
                    proof {
                        let (rs, us) = required_of(
                            reg,
                            st.drop_last(),
                            se.push(p@),
                            cty@,
                            (f - 1) as nat,
                        );
                        assert(unknown.deep_view() =~= u0.push(p@));
                        assert(u0.push(p@) + us =~= u0 + (seq![p@] + us));
                    }
                },
                Some(entry) => {
                    let mut parents = text::dup_texts(&entry.parents);
                    let ghost pv = parents.deep_view();
                    stack.append(&mut parents);
                    push_reqs(&mut reqs, p.as_str(), &entry.required, cty);
                    proof {
                        assert(stack.deep_view() =~= st.drop_last() + pv);
                        let (rs, us) = required_of(
                            reg,
                            st.drop_last() + pv,
                            se.push(p@),
                            cty@,
                            (f - 1) as nat,
                        );
                        let these = reqs_of(
                            p@,
                            entry.deep_view().required,
                            entry.deep_view().required.len(),
                            cty@,
                        );
                        assert(r0 + these + rs =~= r0 + (these + rs));
                    }
                },
            }
            seen.push(p);
            proof {
                assert(seen.deep_view() =~= se.push(p@));
            }
        }
    }
    proof {
        assert(reqs.deep_view() + Seq::<ReqV>::empty() =~= reqs.deep_view());
        assert(unknown.deep_view() + Seq::<Text>::empty() =~= unknown.deep_view());
    }
    (reqs, unknown)
}

fn missing_method_error(r: &Req, cty: &str, span: SimpleSpan) -> (e: LakeError)
    ensures
        e.deep_view() == missing_method(r.deep_view(), cty@, span),
{
    let m = cat3("type `", cty, "` does not implement proto `");
    let m = cat3(m.as_str(), r.proto.as_str(), "`: missing `");
    let m = cat3(m.as_str(), r.method.as_str(), "(");
    let m = cat3(m.as_str(), join_texts(&r.params, " ").as_str(), ") -> ");
    let m = cat3(m.as_str(), r.ret.as_str(), "`");
    let h = cat3("define a machine `", r.method.as_str(), "` with that signature for `");
    let h = cat3(h.as_str(), cty, "`");
    LakeError::new(m.as_str(), span).code("E042").help(h.as_str())
}

impl<'a> MonoCx<'a> {
    /// Check that a type satisfies a proto: the proto's own methods and those
    /// of all its ancestors.  Reports E042 per missing method.
    pub fn check_proto_satisfied(
        &self,
        proto: &str,
        cty: &str,
        call_span: SimpleSpan,
        st: &mut MonoState,
    )
        ensures
            final(st).deep_view() == (MonoV {
                errors: old(st).deep_view().errors + proto_errors(
                    self.deep_view().reg,
                    proto@,
                    cty@,
                    call_span,
                ),
                ..old(st).deep_view()
            }),
    {
        let ghost reg = self.registry.deep_view();
        let ghost m0 = st.deep_view();
        let (reqs, unknown) = gather_reqs(self.registry, proto, cty);
        let ghost rv = reqs.deep_view();
        let ghost uv = unknown.deep_view();
        let mut i: usize = 0;
        proof {
            assert(m0.errors + unknown_protos(uv, 0, call_span) =~= m0.errors);
        }
        while i < unknown.len()
            invariant
                i <= unknown.len(),
                uv == unknown.deep_view(),
                st.deep_view() == (MonoV {
                    errors: m0.errors + unknown_protos(uv, i as nat, call_span),
                    ..m0
                }),
            decreases unknown.len() - i,
        {
            proof {
                assert(uv[i as int] == unknown@[i as int]@);
            }
            let msg = cat3("unknown proto `", unknown[i].as_str(), "` in bound");
            let ghost before = st.deep_view();
            st.report(LakeError::new(msg.as_str(), call_span).code("E042"));
            proof {
                assert(st.deep_view().errors =~= m0.errors + unknown_protos(
                    uv,
                    (i + 1) as nat,
                    call_span,
                ));
            }
            i = i + 1;
        }
        let ghost mid = st.deep_view();
        let mut j: usize = 0;
        proof {
            assert(mid.errors + missing_methods(reg, rv, 0, cty@, call_span) =~= mid.errors);
        }
        while j < reqs.len()
            invariant
                j <= reqs.len(),
                reg == self.registry.deep_view(),
                rv == reqs.deep_view(),
                st.deep_view() == (MonoV {
                    errors: mid.errors + missing_methods(reg, rv, j as nat, cty@, call_span),
                    ..mid
                }),
            decreases reqs.len() - j,
        {
            proof {
                assert(rv[j as int] == reqs@[j as int].deep_view());
            }
            if !self.registry.has_method_with_sig(
                reqs[j].method.as_str(),
                &reqs[j].params,
                reqs[j].ret.as_str(),
            ) {
                st.report(missing_method_error(&reqs[j], cty, call_span));
                proof {
                    assert(st.deep_view().errors =~= mid.errors + missing_methods(
                        reg,
                        rv,
                        (j + 1) as nat,
                        cty@,
                        call_span,
                    ));
                }
            }
            j = j + 1;
        }
        proof {
            assert(st.deep_view().errors =~= m0.errors + proto_errors(
                reg,
                proto@,
                cty@,
                call_span,
            ));
        }
    }
}

} // verus!

verus! {

// ── the templates of a name ────────────────────────────────────────────────

/// The first machine template from `from` on that is called `name`.
pub open spec fn template_index(ms: Seq<MachineTemplateV>, name: Text, from: int) -> int
    decreases ms.len() - from,
{
    if from >= ms.len() || ms[from].decl.ident.inner == name {
        from
    } else {
        template_index(ms, name, from + 1)
    }
}

/// The first machine template from `from` on that is called `name` and
/// declared in `module`.
pub open spec fn owned_index(
    ms: Seq<MachineTemplateV>,
    name: Text,
    module: ModuleId,
    from: int,
) -> int
    decreases ms.len() - from,
{
    if from >= ms.len() || (ms[from].decl.ident.inner == name && ms[from].module == module) {
        from
    } else {
        owned_index(ms, name, module, from + 1)
    }
}

/// The position of the template called `name`: the only one, or that of
/// `module`.
pub open spec fn chosen_index(ms: Seq<MachineTemplateV>, name: Text, module: ModuleId) -> int {
    let first = template_index(ms, name, 0);
    if first >= ms.len() {
        first
    } else if template_index(ms, name, first + 1) >= ms.len() {
        first
    } else {
        owned_index(ms, name, module, 0)
    }
}

/// The position of the first template called `name`, from `from` on.
pub fn find_template(ms: &Vec<MachineTemplate>, name: &str, from: usize) -> (r: usize)
    requires
        from <= ms@.len(),
    ensures
        r == template_index(ms.deep_view(), name@, from as int),
        from <= r <= ms@.len(),
        r < ms@.len() ==> ms.deep_view()[r as int].decl.ident.inner == name@,
{
    let ghost mv = ms.deep_view();
    let mut i: usize = from;
    while i < ms.len()
        invariant
            from <= i <= ms.len(),
            mv == ms.deep_view(),
            template_index(mv, name@, from as int) == template_index(mv, name@, i as int),
        decreases ms.len() - i,
    {
        proof {
            assert(mv[i as int] == ms@[i as int].deep_view());
        }
        if same(ms[i].decl.ident.inner.0.as_str(), name) {
            return i;
        }
        i = i + 1;
    }
    i
}

/// The position of the template called `name`: the only one, or that of
/// `module`.
pub fn choose_template(ms: &Vec<MachineTemplate>, name: &str, module: ModuleId) -> (r: usize)
    ensures
        r == chosen_index(ms.deep_view(), name@, module),
        r <= ms@.len(),
{
    let ghost mv = ms.deep_view();
    let first = find_template(ms, name, 0);
    if first >= ms.len() {
        return first;
    }
    if find_template(ms, name, first + 1) >= ms.len() {
        return first;
    }
    find_owned(ms, name, module)
}

fn find_owned(ms: &Vec<MachineTemplate>, name: &str, module: ModuleId) -> (r: usize)
    ensures
        r == owned_index(ms.deep_view(), name@, module, 0),
        r <= ms@.len(),
{
    let ghost mv = ms.deep_view();
    let mut i: usize = 0;
    while i < ms.len()
        invariant
            i <= ms.len(),
            mv == ms.deep_view(),
            owned_index(mv, name@, module, 0) == owned_index(mv, name@, module, i as int),
        decreases ms.len() - i,
    {
        proof {
            assert(mv[i as int] == ms@[i as int].deep_view());
        }
        if same(ms[i].decl.ident.inner.0.as_str(), name) && ms[i].module.0 == module.0 {
            return i;
        }
        i = i + 1;
    }
    i
}

// ── bounds ─────────────────────────────────────────────────────────────────

/// The suffix of the type that `param` stands for: that of the last of the
/// first `n` parameters with this name.
pub open spec fn concrete_key(
    generics: Seq<Spanned<Text>>,
    args: Seq<TypeV>,
    n: nat,
    param: Text,
) -> Option<Text>
    decreases n,
{
    if n == 0 {
        None
    } else if generics[n - 1].inner == param {
        Some(types::type_key(args[n - 1]))
    } else {
        concrete_key(generics, args, (n - 1) as nat, param)
    }
}

/// The errors of the first `n` protos that `cty` is to satisfy.
pub open spec fn protos_errors(
    reg: RegistryV,
    protos: Seq<Spanned<Text>>,
    n: nat,
    cty: Text,
    span: SimpleSpan,
) -> Seq<ErrorV>
    decreases n,
{
    if n == 0 {
        Seq::empty()
    } else {
        protos_errors(reg, protos, (n - 1) as nat, cty, span) + proto_errors(
            reg,
            protos[n - 1].inner,
            cty,
            span,
        )
    }
}

/// The smaller of two lengths.
pub open spec fn shorter(a: nat, b: nat) -> nat {
    if a <= b {
        a
    } else {
        b
    }
}

/// The errors of the first `n` bounds of a template.
pub open spec fn bounds_errors(
    reg: RegistryV,
    decl: MachineV,
    args: Seq<TypeV>,
    n: nat,
    span: SimpleSpan,
) -> Seq<ErrorV>
    decreases n,
{
    if n == 0 {
        Seq::empty()
    } else {
        let before = bounds_errors(reg, decl, args, (n - 1) as nat, span);
        let (param, protos) = decl.bounds[n - 1];
        match concrete_key(
            decl.generics,
            args,
            shorter(decl.generics.len(), args.len()),
            param.inner,
        ) {
            Some(cty) => before + protos_errors(reg, protos, protos.len(), cty, span),
            None => before,
        }
    }
}

/// The errors of the bounds of the template called `base`.
pub open spec fn bound_errors(
    env: EnvV,
    base: Text,
    args: Seq<TypeV>,
    owner: ModuleId,
    span: SimpleSpan,
) -> Seq<ErrorV> {
    let ms = env.templates.machines;
    let i = chosen_index(ms, base, owner);
    if 0 <= i < ms.len() {
        bounds_errors(env.reg, ms[i].decl, args, ms[i].decl.bounds.len(), span)
    } else {
        Seq::empty()
    }
}

/// The name of a copy of a machine, and what is known after asking for it.
pub open spec fn machine_asked(
    env: EnvV,
    m: MonoV,
    base: Text,
    args: Seq<TypeV>,
    owner: ModuleId,
    span: SimpleSpan,
) -> (Text, MonoV) {
    let keys = state::keys_of(args);
    let i = state::inst_index(m.machines, base, keys, 0);
    if 0 <= i < m.machines.len() {
        (m.machines[i].name, m)
    } else {
        let name = state::inst_name(base, keys);
        (
            name,
            MonoV {
                machines: m.machines.push(InstV { base, args: keys, name }),
                work: m.work.push(JobV { kind: JobKind::Machine(owner), base, args, name }),
                errors: m.errors + bound_errors(env, base, args, owner, span),
                ..m
            },
        )
    }
}

/// Asking for a copy of a machine gives the name that template and arguments
/// make up, and asks for each copy once.
pub proof fn asking_for_a_machine(
    env: EnvV,
    m: MonoV,
    base: Text,
    args: Seq<TypeV>,
    owner: ModuleId,
    span: SimpleSpan,
)
    requires
        state::table_ok(m.machines),
    ensures
        machine_asked(env, m, base, args, owner, span).0 == state::inst_name(
            base,
            state::keys_of(args),
        ),
        state::table_ok(machine_asked(env, m, base, args, owner, span).1.machines),
        machine_asked(
            env,
            machine_asked(env, m, base, args, owner, span).1,
            base,
            args,
            owner,
            span,
        ) == machine_asked(env, m, base, args, owner, span),
{
    state::added_inst_is_found(m.machines, base, state::keys_of(args));
}

fn key_of_param(
    generics: &Vec<Spanned<Ident>>,
    args: &Vec<Type>,
    param: &str,
) -> (r: Option<String>)
    ensures
        r.deep_view() == concrete_key(
            generics.deep_view(),
            args.deep_view(),
            shorter(generics@.len(), args@.len()),
            param@,
        ),
{
    let ghost gv = generics.deep_view();
    let ghost av = args.deep_view();
    let mut n: usize = if generics.len() <= args.len() {
        generics.len()
    } else {
        args.len()
    };
    let ghost whole = concrete_key(gv, av, n as nat, param@);
    while n > 0
        invariant
            n <= generics@.len(),
            n <= args@.len(),
            gv == generics.deep_view(),
            av == args.deep_view(),
            whole == concrete_key(gv, av, n as nat, param@),
            whole == concrete_key(gv, av, shorter(generics@.len(), args@.len()), param@),
        decreases n,
    {
        proof {
            assert(gv[n - 1].inner == generics@[n - 1].inner.0@);
            assert(av[n - 1] == ast::type_view(args@[n - 1]));
        }
        if same(generics[n - 1].inner.0.as_str(), param) {
            return Some(mangle_type(&args[n - 1]));
        }
        n = n - 1;
    }
    None
}

impl<'a> MonoCx<'a> {
    fn check_protos(
        &self,
        protos: &Vec<Spanned<Ident>>,
        cty: &str,
        call_span: SimpleSpan,
        st: &mut MonoState,
    )
        ensures
            final(st).deep_view() == (MonoV {
                errors: old(st).deep_view().errors + protos_errors(
                    self.deep_view().reg,
                    protos.deep_view(),
                    protos@.len(),
                    cty@,
                    call_span,
                ),
                ..old(st).deep_view()
            }),
    {
        let ghost reg = self.registry.deep_view();
        let ghost m0 = st.deep_view();
        let ghost pv = protos.deep_view();
        let mut i: usize = 0;
        proof {
            assert(m0.errors + protos_errors(reg, pv, 0, cty@, call_span) =~= m0.errors);
        }
        while i < protos.len()
            invariant
                i <= protos.len(),
                reg == self.registry.deep_view(),
                pv == protos.deep_view(),
                st.deep_view() == (MonoV {
                    errors: m0.errors + protos_errors(reg, pv, i as nat, cty@, call_span),
                    ..m0
                }),
            decreases protos.len() - i,
        {
            proof {
                assert(pv[i as int].inner == protos@[i as int].inner.0@);
            }
            self.check_proto_satisfied(protos[i].inner.0.as_str(), cty, call_span, st);
            proof {
                assert(st.deep_view().errors =~= m0.errors + protos_errors(
                    reg,
                    pv,
                    (i + 1) as nat,
                    cty@,
                    call_span,
                ));
            }
            i = i + 1;
        }
    }

    /// Verify the proto bounds of a generic machine against the concrete
    /// types put for its parameters.
    pub fn verify_bounds(
        &self,
        base: &str,
        args: &Vec<Type>,
        owner: ModuleId,
        call_span: SimpleSpan,
        st: &mut MonoState,
    )
        ensures
            final(st).deep_view() == (MonoV {
                errors: old(st).deep_view().errors + bound_errors(
                    self.deep_view(),
                    base@,
                    args.deep_view(),
                    owner,
                    call_span,
                ),
                ..old(st).deep_view()
            }),
    {
        let ghost env = self.deep_view();
        let ghost m0 = st.deep_view();
        let ms = &self.templates.machines;
        let at = choose_template(ms, base, owner);
        if at >= ms.len() {
            proof {
                assert(m0.errors + Seq::<ErrorV>::empty() =~= m0.errors);
            }
            return;
        }
        proof {
            assert(env.templates.machines[at as int] == ms@[at as int].deep_view());
        }
        let decl = &ms[at].decl;
        let ghost dv = decl.deep_view();
        let mut i: usize = 0;
        proof {
            assert(m0.errors + bounds_errors(env.reg, dv, args.deep_view(), 0, call_span)
                =~= m0.errors);
        }
        while i < decl.bounds.len()
            invariant
                i <= decl.bounds.len(),
                env == self.deep_view(),
                dv == decl.deep_view(),
                st.deep_view() == (MonoV {
                    errors: m0.errors + bounds_errors(
                        env.reg,
                        dv,
                        args.deep_view(),
                        i as nat,
                        call_span,
                    ),
                    ..m0
                }),
            decreases decl.bounds.len() - i,
        {
            proof {
                assert(dv.bounds[i as int] == (
                    decl.bounds@[i as int].0.deep_view(),
                    decl.bounds@[i as int].1.deep_view(),
                ));
            }
            let bound = &decl.bounds[i];
            match key_of_param(&decl.generics, args, bound.0.inner.0.as_str()) {
                Some(cty) => {
                    self.check_protos(&bound.1, cty.as_str(), call_span, st);
                    proof {
                        assert(st.deep_view().errors =~= m0.errors + bounds_errors(
                            env.reg,
                            dv,
                            args.deep_view(),
                            (i + 1) as nat,
                            call_span,
                        ));
                    }
                },
                None => {},
            }
            i = i + 1;
        }
    }

    /// Ask for a concrete machine; returns its name.  Its bounds are checked
    /// the first time.
    pub fn intern_machine_mono(
        &self,
        base: &str,
        args: Vec<Type>,
        owner: ModuleId,
        call_span: SimpleSpan,
        st: &mut MonoState,
    ) -> (r: String)
        ensures
            (r@, final(st).deep_view()) == machine_asked(
                self.deep_view(),
                old(st).deep_view(),
                base@,
                args.deep_view(),
                owner,
                call_span,
            ),
    {
        let keys = keys_text(&args);
        let i = state::find_inst(&st.machines, base, &keys);
        if i < st.machines.len() {
            proof {
                assert(st.machines.deep_view()[i as int] == st.machines@[i as int].deep_view());
            }
            return st.machines[i].name.clone();
        }
        self.verify_bounds(base, &args, owner, call_span, st);
        let name = inst_name_text(base, &keys);
        push_inst(
            &mut st.machines,
            Inst { base: base.to_owned(), args: keys, name: name.clone() },
        );
        push_job(
            &mut st.work,
            MonoJob {
                kind: JobKind::Machine(owner),
                base: base.to_owned(),
                args,
                name: name.clone(),
            },
        );
        name
    }
}

} // verus!
