use lake_frontend::api::ast::{
    Branch, ConstDecl, Ident, Item, Machine, MachineItem, Pattern, Type,
};
use lake_frontend::api::expr::Expr;
use lake_frontend::lexer::lexer;
use lake_frontend::loader::{ParsedModule, ParsedProgram};
use lake_frontend::lowering::expand::LowerCx;
use lake_frontend::lowering::program::lower_program;
use lake_frontend::lowering::pure::{
    canonicalise_let_ret, collect_pure_bodies, collect_pure_ret_machines, collect_ret_machines,
    is_simple_pure_body, KeyTable, PureBodyTemplate, RetKey,
};
use lake_frontend::lowering::synth::build_caller_send;
use lake_frontend::lowering::tail::wrap_body_tail_in_caller_send;
use lake_frontend::parser::program;
use lake_frontend::registry::{ModuleId, ModulePath, ProgramRegistry};
use lake_frontend::span::{SimpleSpan, SpanWrap, Spanned};

fn sp() -> SimpleSpan {
    SimpleSpan::new(0, 0)
}

fn num(s: &str) -> Spanned<Expr> {
    Expr::Num(s.to_string(), Type::Unknown).with_span(sp())
}

fn var(name: &str) -> Spanned<Expr> {
    Expr::Var(name.to_string(), Type::Unknown).with_span(sp())
}

fn when_const_arms(
    cond_var: &str,
    arms: Vec<(&str, &str)>,
) -> Spanned<Expr> {
    let branches = arms
        .into_iter()
        .map(|(pat, body)| (num(pat), vec![num(body)]))
        .collect();
    Expr::When {
        cond: Box::new(var(cond_var)),
        branches,
    }
    .with_span(sp())
}

fn let_stmt(name: &str, value: Spanned<Expr>) -> Spanned<Expr> {
    Expr::Let {
        ident: Ident::new(name).with_span(sp()),
        ty: Type::Named(Ident::new("i64").with_span(sp())).with_span(sp()),
        default: Some(Box::new(value)),
    }
    .with_span(sp())
}

fn ret_var(name: &str) -> Spanned<Expr> {
    Expr::Ret(Box::new(var(name))).with_span(sp())
}

/// `let v = when ...; ret v` must be detected as
/// an inlineable simple-pure body.  The canonicaliser rewrites it
/// to `ret when` so `is_simple_pure_body` accepts it.
#[test]
fn canonicalise_let_when_ret() {
    let body = vec![
        let_stmt(
            "v",
            when_const_arms("i", vec![("0", "0x42"), ("1", "0x43")]),
        ),
        ret_var("v"),
    ];
    assert_eq!(body.len(), 2);
    let canon = canonicalise_let_ret(body);
    assert_eq!(canon.len(), 1, "canon body should collapse to 1 stmt");
    match &canon[0].inner {
        Expr::Ret(inner) => {
            assert!(
                matches!(inner.inner, Expr::When { .. }),
                "ret inner should be the original `when` rhs, got {:?}",
                inner.inner,
            );
        }
        other => panic!("expected Ret, got {:?}", other),
    }
    assert!(is_simple_pure_body(&canon), "must qualify as simple-pure");
}

/// Sugar form holds for any pure expression — not just `when`.
#[test]
fn canonicalise_let_num_ret() {
    let body = vec![let_stmt("x", num("42")), ret_var("x")];
    let canon = canonicalise_let_ret(body);
    assert_eq!(canon.len(), 1);
    assert!(matches!(canon[0].inner, Expr::Ret(_)));
    assert!(is_simple_pure_body(&canon));
}

/// Negative: the `Var` in `ret` must reference the immediately
/// preceding `Let`.  Name mismatch leaves the body untouched.
#[test]
fn canonicalise_skips_name_mismatch() {
    let body = vec![let_stmt("a", num("1")), ret_var("b")];
    let len_before = body.len();
    let canon = canonicalise_let_ret(body);
    assert_eq!(canon.len(), len_before);
}

/// Negative: a body that already ends in `ret <expr>` (no let) is
/// returned as-is.
#[test]
fn canonicalise_passthrough_when_no_let() {
    let body = vec![Expr::Ret(Box::new(num("7"))).with_span(sp())];
    let canon = canonicalise_let_ret(body);
    assert_eq!(canon.len(), 1);
    assert!(matches!(canon[0].inner, Expr::Ret(_)));
}

fn lower(src: &str) -> ParsedProgram {
    let tokens = lexer(src).expect("lex error");
    let ast = program(&tokens).expect("parse error");
    let parsed = ParsedProgram {
        modules: vec![ParsedModule {
            path: ModulePath::root(),
            source_path: "<inline>".to_string(),
            ast,
        }],
    };
    let mut reg: ProgramRegistry = ProgramRegistry::with_rt();
    reg.populate_from(&parsed).expect("populate");
    lower_program(parsed, &reg, true)
}

/// The discriminant rewrite: top-level `when r { { :ok v } ->
/// {...} { :err m } -> {...} }` becomes `let __wtp_<id> = r`
/// followed by `when __wtp_<id>.0 { :ok -> { let v =
/// __wtp_<id>.1; ... } ... }`.
#[test]
fn lower_when_tuple_pattern_rewrites_to_field_dispatch() {
    let src = r#"
        make is { _ -> ret { atom i64 } { ret { :ok 1 } } }
        main is { _ -> {
          let r = make()
          when r {
            { :ok  v } -> { v }
            { :err _ } -> { 0 }
          }
        } }
    "#;
    let lowered = lower(src);
    let module = &lowered.modules[0];
    let mut saw_wtp_let = false;
    let mut saw_field_when = false;
    let mut found = false;
    for item in &module.ast {
        if let Item::Machine(m) = &item.inner {
            if m.inner.ident.inner.0 != "main" {
                continue;
            }
            let MachineItem::Branch(b) =
                &m.inner.items[0].inner
            else {
                continue;
            };
            walk_for_wtp(&b.body, &mut saw_wtp_let, &mut saw_field_when);
            found = true;
        }
    }
    assert!(found, "main machine missing");
    assert!(saw_wtp_let, "expected synthetic __wtp_<id> let");
    assert!(saw_field_when, "expected when on __wtp_<id>.0");
}

fn walk_for_wtp(
    body: &[Spanned<Expr>],
    saw_let: &mut bool,
    saw_when: &mut bool,
) {
    for stmt in body {
        walk_for_wtp_in_expr(&stmt.inner, saw_let, saw_when);
    }
}

fn walk_for_wtp_in_expr(
    expr: &Expr,
    saw_let: &mut bool,
    saw_when: &mut bool,
) {
    match expr {
        Expr::Let { ident, default, .. } => {
            if ident.inner.0.starts_with("__wtp_") {
                *saw_let = true;
            }
            if let Some(d) = default {
                walk_for_wtp_in_expr(&d.inner, saw_let, saw_when);
            }
        }
        Expr::When { cond, branches } => {
            if let Expr::TupleIndex { receiver, index } = &cond.inner {
                if *index == 0
                    && matches!(
                        &receiver.inner,
                        Expr::Var(name, _) if name.starts_with("__wtp_")
                    )
                {
                    *saw_when = true;
                }
            }
            walk_for_wtp_in_expr(&cond.inner, saw_let, saw_when);
            for (_, body) in branches {
                walk_for_wtp(body, saw_let, saw_when);
            }
        }
        Expr::Wait { handlers, .. } => {
            for h in handlers {
                walk_for_wtp(&h.inner.body, saw_let, saw_when);
            }
        }
        _ => {}
    }
}

/// Tuple-pattern `when` arm bodies must contain the synth-let
/// for each binding sub-pattern.
#[test]
fn lower_when_tuple_pattern_arm_body_has_binding_let() {
    let src = r#"
        make is { _ -> ret { atom i64 } { ret { :ok 1 } } }
        main is { _ -> {
          let r = make()
          when r {
            { :ok  x } -> { x }
            { :err _ } -> { 0 }
          }
        } }
    "#;
    let lowered = lower(src);
    let module = &lowered.modules[0];
    let mut saw_x_let = false;
    for item in &module.ast {
        if let Item::Machine(m) = &item.inner {
            if m.inner.ident.inner.0 != "main" {
                continue;
            }
            let MachineItem::Branch(b) =
                &m.inner.items[0].inner
            else {
                continue;
            };
            walk_for_named_let(&b.body, "x", &mut saw_x_let);
        }
    }
    assert!(saw_x_let, "expected `let x = ...` inside :ok arm body");
}

fn walk_for_named_let(
    body: &[Spanned<Expr>],
    target: &str,
    saw: &mut bool,
) {
    for stmt in body {
        walk_for_named_let_in_expr(&stmt.inner, target, saw);
    }
}

fn walk_for_named_let_in_expr(
    expr: &Expr,
    target: &str,
    saw: &mut bool,
) {
    match expr {
        Expr::Let { ident, default, .. } => {
            if ident.inner.0 == target {
                *saw = true;
            }
            if let Some(d) = default {
                walk_for_named_let_in_expr(&d.inner, target, saw);
            }
        }
        Expr::When { cond, branches } => {
            walk_for_named_let_in_expr(&cond.inner, target, saw);
            for (_, body) in branches {
                walk_for_named_let(body, target, saw);
            }
        }
        Expr::Wait { handlers, .. } => {
            for h in handlers {
                walk_for_named_let(&h.inner.body, target, saw);
            }
        }
        _ => {}
    }
}

/// `let { a b } = pair` is already lowered to `let __dst_<id> = pair;
/// let a = __dst_<id>.0; let b = __dst_<id>.1`.  This test pins
/// that behaviour so the tuple-pattern feature can rely on it.
#[test]
fn lower_let_destructure_expands_into_field_lets() {
    let src = r#"
        make is { _ -> ret { i64 i64 } { ret { 1 2 } } }
        main is { _ -> {
          let p = make()
          let { a b } = p
        } }
    "#;
    let lowered = lower(src);
    let module = &lowered.modules[0];
    let mut saw_dst_let = false;
    for item in &module.ast {
        if let Item::Machine(m) = &item.inner {
            if m.inner.ident.inner.0 != "main" {
                continue;
            }
            let MachineItem::Branch(b) =
                &m.inner.items[0].inner
            else {
                continue;
            };
            walk_for_dst(&b.body, &mut saw_dst_let);
        }
    }
    assert!(saw_dst_let, "expected synthetic __dst_<id> let");
}

/// Recursively scan a body for a `let __dst_*` binding — needed
/// because the let-with-ret-target wait wrap nests the post-call
/// body inside the wait handler.
fn walk_for_dst(body: &[Spanned<Expr>], saw: &mut bool) {
    for stmt in body {
        if let Expr::Let { ident, .. } = &stmt.inner {
            if ident.inner.0.starts_with("__dst_") {
                *saw = true;
            }
        }
        walk_for_dst_in_expr(&stmt.inner, saw);
    }
}

fn walk_for_dst_in_expr(expr: &Expr, saw: &mut bool) {
    match expr {
        Expr::Let { default: Some(d), .. } => walk_for_dst_in_expr(&d.inner, saw),
        Expr::When { branches, .. } => {
            for (_, body) in branches {
                walk_for_dst(body, saw);
            }
        }
        Expr::Wait { handlers, .. } => {
            for h in handlers {
                walk_for_dst(&h.inner.body, saw);
            }
        }
        _ => {}
    }
}

// ── module-local consts in pure-body templates ──────────────

/// Build a single-branch pure ret-machine: `name is { param i64 -> ret i64 { <body> } }`
fn pure_machine(
    name: &str,
    param: &str,
    body: Vec<Spanned<Expr>>,
) -> Spanned<Item> {
    let i64_ty = || Type::Named(Ident::new("i64").with_span(sp())).with_span(sp());
    let pat = Pattern::new(Ident::new(param).with_span(sp()), i64_ty()).with_span(sp());
    let branch = Branch::new(None, vec![pat], Some(i64_ty()), body);
    let mi = MachineItem::Branch(branch).with_span(sp());
    let m = Machine::new(
        vec![],
        true,
        Ident::new(name).with_span(sp()),
        vec![],
        vec![mi],
    );
    Item::Machine(m.with_span(sp())).with_span(sp())
}

fn const_item(name: &str, value: Spanned<Expr>) -> Spanned<Item> {
    let decl = ConstDecl::new(false, Ident::new(name).with_span(sp()), value);
    Item::Const(decl.with_span(sp())).with_span(sp())
}

/// `Var(name)` references resolving to a module-local `const` get
/// substituted with the literal value before the template is cached.
#[test]
fn inline_pure_substitutes_module_const() {
    // module a: const MAX_FOO = 1024; pub helper is { x i64 -> ret i64 { ret x * MAX_FOO } }
    let body = vec![
        Expr::Ret(Box::new(
            Expr::Mul(Box::new(var("x")), Box::new(var("MAX_FOO"))).with_span(sp()),
        ))
        .with_span(sp()),
    ];
    let mod_a = ParsedModule {
        path: ModulePath(vec!["a".to_string()]),
        source_path: "a.lake".to_string(),
        ast: vec![
            const_item("MAX_FOO", num("1024")),
            pure_machine("helper", "x", body),
        ],
    };
    // module b: empty (helper would be imported in real code).
    let mod_b = ParsedModule {
        path: ModulePath(vec!["b".to_string()]),
        source_path: "b.lake".to_string(),
        ast: vec![],
    };
    let program = ParsedProgram {
        modules: vec![mod_a, mod_b],
    };
    let ret_machines = collect_ret_machines(&program);
    let pure_set = collect_pure_ret_machines(&program, &ret_machines);
    let mut registry = ProgramRegistry::with_rt();
    registry.populate_from(&program).expect("registry populate");
    let bodies = collect_pure_bodies(&program, &pure_set, &registry);

    let key = RetKey {
        module: ModulePath(vec!["a".to_string()]),
        name: "helper".to_string(),
    };
    let tmpl = bodies.get(&key).expect("helper must be in pure-body table");
    // The single statement is `Ret(Mul(Var("x"), Num("1024")))` — the
    // `Var("MAX_FOO")` should have been substituted.
    assert_eq!(tmpl.body.len(), 1);
    let Expr::Ret(inner) = &tmpl.body[0].inner else {
        panic!("expected Ret, got {:?}", tmpl.body[0].inner);
    };
    let Expr::Mul(l, r) = &inner.inner else {
        panic!("expected Mul, got {:?}", inner.inner);
    };
    assert!(matches!(l.inner, Expr::Var(ref s, _) if s == "x"));
    match &r.inner {
        Expr::Num(s, _) => assert_eq!(s, "1024"),
        other => panic!("expected Num(1024) after const sub, got {:?}", other),
    }
    // Walk to be sure no Var("MAX_FOO") survived.
    let mut leaked = false;
    walk_for_var(&tmpl.body, "MAX_FOO", &mut leaked);
    assert!(!leaked, "Var(MAX_FOO) must not survive in cached template");
}

/// Sanity: a pure body without any const refs is cached unchanged.
#[test]
fn inline_pure_unchanged_when_no_consts() {
    // module a: pub helper is { x i64 -> ret i64 { ret x } } — no consts.
    let body = vec![Expr::Ret(Box::new(var("x"))).with_span(sp())];
    let mod_a = ParsedModule {
        path: ModulePath(vec!["a".to_string()]),
        source_path: "a.lake".to_string(),
        ast: vec![pure_machine("helper", "x", body)],
    };
    let program = ParsedProgram {
        modules: vec![mod_a],
    };
    let ret_machines = collect_ret_machines(&program);
    let pure_set = collect_pure_ret_machines(&program, &ret_machines);
    let mut registry = ProgramRegistry::with_rt();
    registry.populate_from(&program).expect("registry populate");
    let bodies = collect_pure_bodies(&program, &pure_set, &registry);

    let key = RetKey {
        module: ModulePath(vec!["a".to_string()]),
        name: "helper".to_string(),
    };
    let tmpl = bodies.get(&key).expect("helper must be in pure-body table");
    assert_eq!(tmpl.body.len(), 1);
    let Expr::Ret(inner) = &tmpl.body[0].inner else {
        panic!("expected Ret");
    };
    assert!(
        matches!(inner.inner, Expr::Var(ref s, _) if s == "x"),
        "Var(x) param ref should pass through unchanged"
    );
}

fn walk_for_var(
    body: &[Spanned<Expr>],
    target: &str,
    saw: &mut bool,
) {
    for stmt in body {
        walk_for_var_in_expr(&stmt.inner, target, saw);
    }
}

fn walk_for_var_in_expr(expr: &Expr, target: &str, saw: &mut bool) {
    match expr {
        Expr::Var(name, _) => {
            if name == target {
                *saw = true;
            }
        }
        Expr::Ret(inner) | Expr::Pin(inner) | Expr::Neg(inner) => {
            walk_for_var_in_expr(&inner.inner, target, saw)
        }
        Expr::Let { default: Some(d), .. } => walk_for_var_in_expr(&d.inner, target, saw),
        Expr::Add(l, r)
        | Expr::Sub(l, r)
        | Expr::Mul(l, r)
        | Expr::Div(l, r)
        | Expr::Eq(l, r)
        | Expr::Le(l, r)
        | Expr::Ge(l, r)
        | Expr::Lt(l, r)
        | Expr::Gt(l, r)
        | Expr::BAnd(l, r)
        | Expr::BOr(l, r)
        | Expr::BXor(l, r)
        | Expr::Shl(l, r)
        | Expr::Shr(l, r) => {
            walk_for_var_in_expr(&l.inner, target, saw);
            walk_for_var_in_expr(&r.inner, target, saw);
        }
        Expr::Jump { args, .. } => {
            for a in args {
                walk_for_var_in_expr(&a.inner, target, saw);
            }
        }
        Expr::When { cond, branches } => {
            walk_for_var_in_expr(&cond.inner, target, saw);
            for (_, body) in branches {
                walk_for_var(body, target, saw);
            }
        }
        _ => {}
    }
}

// ── wrap_body_tail_in_caller_send recursion ────────────────

fn pin_call(name: &str) -> Spanned<Expr> {
    let callee = Expr::Var(name.to_string(), Type::Unknown).with_span(sp());
    let jump = Expr::Jump {
        ident: Box::new(callee),
        args: vec![],
    }
    .with_span(sp());
    Expr::Pin(Box::new(jump)).with_span(sp())
}

fn is_caller_send_to_zero(e: &Expr) -> bool {
    let Expr::Jump { ident, args } = e else {
        return false;
    };
    if !matches!(&ident.inner, Expr::Var(ref s, _) if s == "__caller") {
        return false;
    }
    // args = [self, 0]
    args.len() == 2
        && matches!(&args[0].inner, Expr::Var(ref s, _) if s == "self")
        && matches!(&args[1].inner, Expr::Num(ref s, _) if s == "0")
}

fn is_caller_send_any(e: &Expr) -> bool {
    matches!(e, Expr::Jump { ident, .. }
        if matches!(&ident.inner, Expr::Var(ref s, _) if s == "__caller"))
}

/// Body = `[ when c { 1 -> [pin call_a()]   2 -> [pin call_b()] } ]`.
/// After wrap, each arm body must end in `__caller(self 0)`.
#[test]
fn wrap_recurses_into_when_arms() {
    let when = Expr::When {
        cond: Box::new(var("c")),
        branches: vec![
            (num("1"), vec![pin_call("call_a")]),
            (num("2"), vec![pin_call("call_b")]),
        ],
    }
    .with_span(sp());
    let body = wrap_body_tail_in_caller_send(vec![when]);
    assert_eq!(body.len(), 1, "outer body keeps a single When tail");
    let Expr::When { branches, .. } = &body[0].inner else {
        panic!("expected When at tail, got {:?}", body[0].inner);
    };
    for (i, (_pat, arm_body)) in branches.iter().enumerate() {
        assert_eq!(arm_body.len(), 2, "arm {i}: pin + sentinel send");
        assert!(
            matches!(&arm_body[0].inner, Expr::Pin(_)),
            "arm {i} first stmt should still be Pin",
        );
        assert!(
            is_caller_send_to_zero(&arm_body[1].inner),
            "arm {i} second stmt should be __caller(self 0), got {:?}",
            arm_body[1].inner,
        );
    }
}

/// Body = `[pin call()]`.  After wrap, body = `[pin call(), __caller(self 0)]`.
#[test]
fn wrap_seq_after_pin_tail() {
    let body = wrap_body_tail_in_caller_send(vec![pin_call("call")]);
    assert_eq!(body.len(), 2, "pin tail expands to pin + sentinel send");
    assert!(matches!(&body[0].inner, Expr::Pin(_)));
    assert!(
        is_caller_send_to_zero(&body[1].inner),
        "trailing stmt must be __caller(self 0), got {:?}",
        body[1].inner,
    );
}

/// Body whose tail is an unknown value-less shape (we use
/// `LetTuple` as the stand-in — see `tail_has_no_value`).  Wrap
/// must return the body unchanged instead of producing
/// `__caller(self LetTuple{...})`.
#[test]
fn wrap_diagnostic_when_unknown_terminal() {
    let lt = Expr::LetTuple {
        fields: vec![Ident::new("a").with_span(sp())],
        default: Box::new(num("0")),
    }
    .with_span(sp());
    let body = wrap_body_tail_in_caller_send(vec![lt]);
    assert_eq!(body.len(), 1, "body unchanged on unknown terminal");
    assert!(
        matches!(&body[0].inner, Expr::LetTuple { .. }),
        "tail must be the original LetTuple, got {:?}",
        body[0].inner,
    );
    assert!(
        !is_caller_send_any(&body[0].inner),
        "must NOT have been wrapped in __caller send",
    );
}

/// Body ending in `ret 42` (already an explicit return).  After
/// `rewrite_ret_in_expr` this is a `__caller(self 42)` jump, so
/// the wrap must leave it alone — no double-wrap.
#[test]
fn wrap_leaves_explicit_ret_unchanged() {
    let already = build_caller_send(sp(), num("42")).with_span(sp());
    let body = wrap_body_tail_in_caller_send(vec![already]);
    assert_eq!(body.len(), 1);
    let Expr::Jump { ident, args } = &body[0].inner else {
        panic!("expected Jump tail, got {:?}", body[0].inner);
    };
    assert!(
        matches!(&ident.inner, Expr::Var(ref s, _) if s == "__caller"),
        "ident must remain __caller",
    );
    assert_eq!(args.len(), 2, "args = [self, 42]");
    assert!(matches!(&args[1].inner, Expr::Num(ref s, _) if s == "42"));
}

/// Nobody waits for a bare call of a ret-machine: its caller is the null pid.
#[test]
fn a_bare_call_of_a_ret_machine_has_no_caller() {
    let tokens = lexer("g is { x i64 -> ret i64 { ret x } }\nh is { x i64 -> { x } }").unwrap();
    let parsed = ParsedProgram {
        modules: vec![ParsedModule {
            path: ModulePath::root(),
            source_path: "main.lake".to_string(),
            ast: program(&tokens).unwrap(),
        }],
    };
    let mut reg: ProgramRegistry = ProgramRegistry::with_rt();
    reg.populate_from(&parsed).expect("populate");
    let ret_machines = collect_ret_machines(&parsed);
    let pure_bodies: KeyTable<PureBodyTemplate> = KeyTable::new();
    let cx = LowerCx {
        registry: &reg,
        module_id: ModuleId::root(),
        ret_machines: &ret_machines,
        pure_bodies: &pure_bodies,
    };
    let call = |callee: &str| {
        Expr::Jump { ident: Box::new(var(callee)), args: vec![num("7")] }.with_span(sp())
    };
    let rewritten = cx.try_rewrite_bare_ret_call(&call("g")).expect("g returns");
    let Expr::Jump { args, .. } = &rewritten.inner else { panic!() };
    assert_eq!(args.len(), 2);
    assert!(matches!(&args[0].inner, Expr::Num(s, _) if s == "0"));
    assert!(matches!(&args[1].inner, Expr::Num(s, _) if s == "7"));
    assert!(cx.try_rewrite_bare_ret_call(&rewritten).is_none());
    assert!(cx.try_rewrite_bare_ret_call(&call("h")).is_none());
}

#[test]
fn recursive_machines_are_not_pure() {
    let tokens = lexer(
        "f is { x i64 -> ret i64 { let r = f(x)\n ret r } }\n\
         g is { x i64 -> ret i64 { ret x } }",
    )
    .expect("lex error");
    let parsed = ParsedProgram {
        modules: vec![ParsedModule {
            path: ModulePath::root(),
            source_path: "<inline>".to_string(),
            ast: program(&tokens).expect("parse error"),
        }],
    };
    let ret_machines = collect_ret_machines(&parsed);
    let keys = collect_pure_ret_machines(&parsed, &ret_machines);
    assert_eq!(keys.len(), 1);
    assert_eq!(keys[0].name, "g");
}
