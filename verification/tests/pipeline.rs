use lake_frontend::api::ast::{Item, Machine, MachineItem, Type};
use lake_frontend::api::expr::Expr;
use lake_frontend::error_handle::{LakeError, LakeErrors};
use lake_frontend::loader::{Content, DiskFile, Loading, ParsedModule, ParsedProgram, ProgramSources};
use lake_frontend::lowering::program::{lower_program, mangle_program};
use lake_frontend::mono::program::monomorphise_program;
use lake_frontend::mono::state::{MonoCx, MonoState, Templates};
use lake_frontend::mono::types::mangle_type;
use lake_frontend::lowering::pure::{
    collect_pure_bodies, collect_pure_ret_machines, collect_ret_machines,
};
use lake_frontend::prelude::{
    build_program_for_target, load_and_build, parse, prepare_program, LakeProgram,
};
use lake_frontend::name_map::NameMap;
use lake_frontend::registry::{ModulePath, ProgramRegistry};
use lake_frontend::span::Spanned;

fn path(text: &str) -> ModulePath {
    ModulePath(text.split('.').filter(|s| !s.is_empty()).map(|s| s.to_string()).collect())
}

fn parsed(files: &[(&str, &str)]) -> ParsedProgram {
    ParsedProgram {
        modules: files
            .iter()
            .map(|(name, src)| ParsedModule {
                path: path(name),
                source_path: format!("{name}.lake"),
                ast: parse(name, src).ok().expect("parses"),
            })
            .collect(),
    }
}

fn registered(p: &ParsedProgram) -> ProgramRegistry {
    let mut reg = ProgramRegistry::with_rt();
    reg.populate_from(p).ok().expect("populates");
    reg
}

fn populate_errors(files: &[(&str, &str)]) -> Vec<LakeError> {
    let mut reg = ProgramRegistry::with_rt();
    reg.populate_from(&parsed(files)).err().expect("fails").into_vec()
}

fn codes(errs: &[LakeError]) -> Vec<&str> {
    errs.iter().map(|e| e.code.as_deref().unwrap_or("")).collect()
}

fn machines(m: &ParsedModule) -> Vec<&Machine> {
    m.ast
        .iter()
        .filter_map(|i| match &i.inner {
            Item::Machine(m) => Some(&m.inner),
            _ => None,
        })
        .collect()
}

fn machine<'a>(m: &'a ParsedModule, name: &str) -> &'a Machine {
    machines(m)
        .into_iter()
        .find(|m| m.ident.inner.0 == name)
        .expect("there is such a machine")
}

fn body(m: &Machine) -> &Vec<Spanned<Expr>> {
    let MachineItem::Branch(b) = &m.items[0].inner else { panic!() };
    &b.body
}

fn callee(e: &Expr) -> &str {
    let Expr::Jump { ident, .. } = e else { panic!("no call: {e:?}") };
    let Expr::Var(name, _) = &ident.inner else { panic!() };
    name
}

// ── registration ───────────────────────────────────────────────────────────

#[test]
fn constants_are_literals() {
    let reg = registered(&parsed(&[("", "const N = 0x1f\nconst S = \"a\"\nconst B = true\nconst A = :ok")]));
    let root = reg.module(lake_frontend::registry::ModuleId::root());
    assert_eq!(root.consts.get("N").expect("N").ty, "i64");
    assert_eq!(root.consts.get("S").expect("S").ty, "str");
    assert_eq!(root.consts.get("B").expect("B").ty, "bool");
    assert_eq!(root.consts.get("A").expect("A").ty, "atom");
}

#[test]
fn integers_have_to_fit() {
    let errs = populate_errors(&[("", "const N = 99999999999999999999")]);
    assert_eq!(codes(&errs), vec!["E010"]);
    assert_eq!(errs[0].message, "invalid integer literal `99999999999999999999`");
    assert_eq!(errs[0].source_path.as_deref(), Some(".lake"));
}

#[test]
fn imports_name_a_module_and_an_item() {
    let errs = populate_errors(&[("", "+thing\nmain is { _ -> { 1 } }")]);
    assert_eq!(codes(&errs), vec!["M004"]);
    let errs = populate_errors(&[("", "+not.there\nmain is { _ -> { 1 } }")]);
    assert_eq!(codes(&errs), vec!["M005"]);
    assert_eq!(errs[0].message, "import target module `not` was not loaded");
}

#[test]
fn foreign_functions_have_three_parts() {
    let errs = populate_errors(&[("", "@ffi(f {i64})")]);
    assert_eq!(codes(&errs), vec!["F001"]);
    let errs = populate_errors(&[("", "@ffi({i64} {i64} {i64})")]);
    assert_eq!(codes(&errs), vec!["F002"]);
    let errs = populate_errors(&[("", "@ffi(f i64 {i64})")]);
    assert_eq!(codes(&errs), vec!["F003"]);
    let errs = populate_errors(&[("", "@ffi(f {i64} i64)")]);
    assert_eq!(codes(&errs), vec!["F004"]);
    let reg = registered(&parsed(&[("", "@ffi(syscall {i64 str} {i64})")]));
    let sig = reg.resolve_bare("syscall").expect("found");
    assert_eq!(sig.return_type(), "i64");
}

#[test]
fn a_program_can_be_registered_twice() {
    let p = parsed(&[("", "R is { a i64 }\nE is enum { A B }\nconst N = 1\nf is { _ -> { 1 } }")]);
    let mut reg = registered(&p);
    reg.populate_from(&p).ok().expect("populates again");
    assert_eq!(reg.modules.len(), 1);
}

#[test]
fn modules_share_symbols_with_nobody() {
    assert_eq!(path("").mangle("size"), "size");
    assert_eq!(path("core.io").mangle("size"), "core_io__size");
    assert_ne!(path("a").mangle("size"), path("b").mangle("size"));
    // Underscores in a segment hide where it ends.
    assert_eq!(path("a_b").mangle("size"), path("a.b").mangle("size"));
}

// ── monomorphisation ───────────────────────────────────────────────────────

#[test]
fn copies_are_named_after_their_arguments() {
    let p = parsed(&[(
        "",
        "Box[T] is { v T }\nunbox[T] is { b Box[T] -> ret T { ret b.v } }\n\
         main is { _ -> { let b = Box(1) let n = unbox(b) let m = unbox(b) } }",
    )]);
    let reg = registered(&p);
    let (out, errs) = monomorphise_program(p, &reg);
    assert!(errs.is_empty(), "{errs:?}");
    let names: Vec<String> = out.modules[0]
        .ast
        .iter()
        .map(|i| match &i.inner {
            Item::Machine(m) => m.inner.ident.inner.0.clone(),
            Item::Record(r) => {
                assert!(r.inner.type_params.is_empty());
                r.inner.ident.inner.0.clone()
            }
            other => panic!("{other:?}"),
        })
        .collect();
    assert_eq!(names.iter().filter(|n| *n == "Box_i64").count(), 1, "{names:?}");
    assert_eq!(names.iter().filter(|n| *n == "unbox_i64").count(), 1, "{names:?}");
    assert!(!names.contains(&"Box".to_string()));
    let stmts = body(machine(&out.modules[0], "main"));
    let Expr::Let { default: Some(d), .. } = &stmts[0].inner else { panic!() };
    assert_eq!(callee(&d.inner), "Box_i64");
    let Expr::Let { default: Some(d), .. } = &stmts[1].inner else { panic!() };
    assert_eq!(callee(&d.inner), "unbox_i64");
}

#[test]
fn type_suffixes() {
    let ty = |src: &str| -> Type {
        let p = parsed(&[("", &format!("f is {{ x {src} -> {{ x }} }}"))]);
        let m = machine(&p.modules[0], "f");
        let MachineItem::Branch(b) = &m.items[0].inner else { panic!() };
        b.patterns[0].inner.ty.inner.clone()
    };
    assert_eq!(mangle_type(&ty("i64")), "i64");
    assert_eq!(mangle_type(&ty("Pair[i64 str]")), "Pair_i64_str");
    assert_eq!(mangle_type(&ty("{ i64 str }")), "struct_i64_str");
    assert_eq!(mangle_type(&ty("{}")), "unit");
}

#[test]
fn arguments_have_to_fix_type_parameters() {
    let p = parsed(&[("", "empty[T] is { _ -> ret i64 { ret 0 } }\nmain is { _ -> { let x = empty() } }")]);
    let reg = registered(&p);
    let (_, errs) = monomorphise_program(p, &reg);
    assert_eq!(codes(&errs), vec!["E040"]);
    assert_eq!(errs[0].message, "cannot infer type parameter `T` for `empty`");
}

#[test]
fn assertions_of_protos_are_checked() {
    let p = parsed(&[("", "Eq is proto { eq is { Self Self -> bool } }\nX is { a i64 }\nX is Eq")]);
    let reg = registered(&p);
    let (_, errs) = monomorphise_program(p, &reg);
    assert_eq!(codes(&errs), vec!["E042"]);
    assert!(errs[0].message.contains("missing `eq(X X) -> bool`"), "{}", errs[0].message);
    let p = parsed(&[("", "X is { a i64 }\nX is Missing")]);
    let reg = registered(&p);
    let (_, errs) = monomorphise_program(p, &reg);
    assert_eq!(codes(&errs), vec!["E042"]);
    assert_eq!(errs[0].message, "unknown proto `Missing` in bound");
}

// ── lowering ───────────────────────────────────────────────────────────────

fn lowered(src: &str, inline_pure: bool) -> ParsedProgram {
    let p = parsed(&[("", src)]);
    let reg = registered(&p);
    lower_program(p, &reg, inline_pure)
}

const RET: &str = "inc is { n i64 -> ret i64 { ret n + 1 } }\nmain is { _ -> { let r = inc(1) r } }";

#[test]
fn a_ret_branch_sends_to_its_caller() {
    let out = lowered(RET, false);
    let inc = machine(&out.modules[0], "inc");
    let MachineItem::Branch(b) = &inc.items[0].inner else { panic!() };
    assert_eq!(b.patterns.len(), 2);
    assert_eq!(b.patterns[0].inner.ident.inner.0, "__caller");
    assert_eq!(b.body.len(), 1);
    assert_eq!(callee(&b.body[0].inner), "__caller");
    let Expr::Jump { args, .. } = &b.body[0].inner else { panic!() };
    assert!(matches!(&args[0].inner, Expr::Var(s, _) if s == "self"));
    assert!(matches!(args[1].inner, Expr::Add(_, _)));
}

#[test]
fn a_caller_waits_for_the_reply() {
    let out = lowered(RET, false);
    let stmts = body(machine(&out.modules[0], "main"));
    assert_eq!(stmts.len(), 2);
    let Expr::Let { ident, ty, default: Some(d) } = &stmts[0].inner else { panic!() };
    assert_eq!(ident.inner.0, "__ret_0_pid");
    assert_eq!(ty.inner.to_string(), "pid");
    let Expr::Jump { args, .. } = &d.inner else { panic!() };
    assert!(matches!(&args[0].inner, Expr::Var(s, _) if s == "self"));
    let Expr::Wait { handlers, filter } = &stmts[1].inner else { panic!() };
    assert!(matches!(&filter[0].inner, Expr::Var(s, _) if s == "__ret_0_pid"));
    let h = &handlers[0].inner;
    let names: Vec<&str> = h.patterns.iter().map(|p| p.inner.ident.inner.0.as_str()).collect();
    assert_eq!(names, vec!["__ret_0_sender", "r"]);
    assert_eq!(h.patterns[1].inner.ty.inner.to_string(), "i64");
    assert_eq!(h.body.len(), 1);
}

#[test]
fn pure_machines_are_expanded_in_place() {
    let out = lowered(RET, true);
    let names: Vec<&str> = machines(&out.modules[0])
        .iter()
        .map(|m| m.ident.inner.0.as_str())
        .collect();
    assert_eq!(names, vec!["main"]);
    let stmts = body(machine(&out.modules[0], "main"));
    let lets: Vec<&str> = stmts
        .iter()
        .filter_map(|s| match &s.inner {
            Expr::Let { ident, .. } => Some(ident.inner.0.as_str()),
            _ => None,
        })
        .collect();
    assert_eq!(lets.last(), Some(&"r"));
    assert!(!stmts.iter().any(|s| matches!(s.inner, Expr::Wait { .. })));
}

#[test]
fn constants_are_inlined() {
    let out = lowered("const N = 7\nmain is { _ -> { let x = N + 1 } }", true);
    let stmts = body(machine(&out.modules[0], "main"));
    let Expr::Let { default: Some(d), .. } = &stmts[0].inner else { panic!() };
    let Expr::Add(l, _) = &d.inner else { panic!() };
    assert!(matches!(&l.inner, Expr::Num(s, _) if s == "7"));
}

/// What is destructured is inlined before it is taken apart.
#[test]
fn constants_are_inlined_in_every_construct() {
    let out = lowered("const N = 7\nmain is { _ -> { let { a b } = N  x[N]  P { f = N } } }", true);
    let stmts = body(machine(&out.modules[0], "main"));
    let is_seven = |e: &Expr| matches!(e, Expr::Num(s, _) if s == "7");
    let Expr::Let { ident, default: Some(d), .. } = &stmts[0].inner else { panic!() };
    assert_eq!(ident.inner.0, "__dst_0");
    assert!(is_seven(&d.inner));
    let Expr::Index { index, .. } = &stmts[3].inner else { panic!() };
    assert!(is_seven(&index.inner));
    let Expr::RecordLiteral { fields, .. } = &stmts[4].inner else { panic!() };
    assert!(is_seven(&fields[0].1.inner));
}

#[test]
fn paths_are_flattened_in_every_construct() {
    let p = parsed(&[
        ("", "main is { _ -> { P { f = core:io:size } } }"),
        ("core.io", "pub size is { n i64 -> { n } }"),
    ]);
    let reg = registered(&p);
    let out = lower_program(p, &reg, false);
    let stmts = body(machine(&out.modules[0], "main"));
    let Expr::RecordLiteral { fields, .. } = &stmts[0].inner else { panic!() };
    assert!(matches!(&fields[0].1.inner, Expr::Var(s, _) if s == "size"));
}

#[test]
fn every_call_of_self_takes_the_caller() {
    let out = lowered("m is { n i64 -> ret i64 { let x = p.q(1 + self(n)) x } }", false);
    let text = format!("{:?}", out.modules[0].ast);
    let plain = lowered("m is { n i64 -> { let x = p.q(1 + self(n)) x } }", false);
    let caller = "\"__caller\"";
    assert!(text.matches(caller).count() >= 3);
    assert!(!format!("{:?}", plain.modules[0].ast).contains(caller));
}

#[test]
fn no_return_is_left_in_a_tuple() {
    let out = lowered("m is { n i64 -> ret i64 { let x = { n ret n } x } }", false);
    assert!(!format!("{:?}", out.modules[0].ast).contains("Ret("));
}

#[test]
fn nested_calls_are_lifted_in_order() {
    let out = lowered("f is { a i64 -> { a } }\nmain is { _ -> { f(f(1) f(2)) } }", true);
    let stmts = body(machine(&out.modules[0], "main"));
    let names: Vec<&str> = stmts
        .iter()
        .filter_map(|s| match &s.inner {
            Expr::Let { ident, .. } => Some(ident.inner.0.as_str()),
            _ => None,
        })
        .collect();
    assert_eq!(names, vec!["__lift_0", "__lift_1"]);
    assert_eq!(callee(&stmts[2].inner), "f");
}

#[test]
fn lowering_again_changes_nothing() {
    let p = parsed(&[("", RET)]);
    let mut reg = registered(&p);
    let once = lower_program(p, &reg, false);
    reg.populate_from(&once).ok().expect("populates");
    let ast = format!("{:?}", once.modules[0].ast);
    let twice = lower_program(once, &reg, false);
    assert_eq!(format!("{:?}", twice.modules[0].ast), ast);
}

// ── symbols ────────────────────────────────────────────────────────────────

#[test]
fn machines_and_calls_get_their_symbols() {
    let p = parsed(&[
        ("", "+core.io.print as p\nmain is { _ -> { p(1) main() } }"),
        ("core.io", "pub print is { n i64 -> { print(n) } }"),
    ]);
    let reg = registered(&p);
    let out = mangle_program(p, &reg);
    let main = machine(&out.modules[0], "main");
    assert_eq!(callee(&body(main)[0].inner), "core_io__print");
    assert_eq!(callee(&body(main)[1].inner), "main");
    let print = machine(&out.modules[1], "core_io__print");
    assert_eq!(callee(&body(print)[0].inner), "core_io__print");
}

// ── whole programs ─────────────────────────────────────────────────────────

fn load(files: &[(&str, &str)]) -> ProgramSources {
    let mut disk: Vec<DiskFile> = Vec::new();
    loop {
        match ProgramSources::load("main.lake", "", &disk) {
            Loading::Done(sources) => return sources,
            Loading::Failed(errs, _) => panic!("{}", errs.to_string()),
            Loading::Needs(path) => {
                let content = files
                    .iter()
                    .find(|(name, _)| *name == path)
                    .map(|(_, text)| Content::Text(text.to_string()))
                    .unwrap_or(Content::Absent("no such file".to_string()));
                disk.push(DiskFile { path, content });
            }
        }
    }
}

fn build(files: &[(&str, &str)], arch: &str) -> Result<LakeProgram, LakeErrors> {
    build_program_for_target(&load(files), arch, true)
}

#[test]
fn a_program_is_built_from_its_files() {
    let out = build(
        &[
            ("main.lake", "+core.io.print\nmain is { _ -> { print(1)\n panic(\"no\") } }"),
            ("core/io.lake", "pub print is { n i64 -> { n } }"),
        ],
        "x86_64",
    )
    .ok()
    .expect("builds");
    assert_eq!(out.program.modules.len(), 2);
    assert_eq!(out.registry.modules.len(), 2);
    let stmts = body(machine(&out.program.modules[0], "main"));
    assert_eq!(callee(&stmts[0].inner), "core_io__print");
    let Expr::Jump { args, .. } = &stmts[1].inner else { panic!() };
    assert!(matches!(&args[1].inner, Expr::String(s, _) if s == "main.lake"));
    assert!(matches!(&args[2].inner, Expr::Num(s, _) if s == "3"));
}

#[test]
fn items_are_chosen_by_architecture() {
    let src = "@cfg(arch=\"x86_64\")\nconst N = 1\n@cfg(arch=\"aarch64\")\nconst N = 2\n\
               main is { _ -> { let x = N + N } }";
    for (arch, want) in [("x86_64", "1"), ("aarch64", "2")] {
        let out = build(&[("main.lake", src)], arch).ok().expect("builds");
        let stmts = body(machine(&out.program.modules[0], "main"));
        let Expr::Let { default: Some(d), .. } = &stmts[0].inner else { panic!() };
        let Expr::Add(l, _) = &d.inner else { panic!() };
        assert!(matches!(&l.inner, Expr::Num(s, _) if s == want));
    }
}

#[test]
fn each_stage_can_stop_the_build() {
    let stop = |src: &str| -> Vec<String> {
        let errs = build(&[("main.lake", src)], "x86_64").err().expect("fails").into_vec();
        errs.iter().map(|e| e.code.clone().unwrap_or_default()).collect()
    };
    assert_eq!(stop("@cfg(os=\"linux\")\nconst N = 1"), vec!["E041"]);
    assert_eq!(stop("Foo is { x i64 }\nFoo is { _ -> { 0 } }"), vec!["E028"]);
    assert_eq!(stop("X is { a i64 }\nX is Missing"), vec!["E042"]);
}

fn relowered(files: &[(&str, &str)], inline_pure: bool) -> (String, String) {
    let p = parsed(files);
    let reg = registered(&p);
    let once = lower_program(p, &reg, inline_pure);
    let text = format!("{:?}", once.modules.iter().map(|m| &m.ast).collect::<Vec<_>>());
    let again = registered(&once);
    let twice = lower_program(once, &again, inline_pure);
    (text, format!("{:?}", twice.modules.iter().map(|m| &m.ast).collect::<Vec<_>>()))
}

#[test]
fn a_returned_call_is_lowered_once() {
    let src = "g is { x i64 -> { x } }\nm is { x i64 -> ret i64 { g(x) } }";
    let (once, twice) = relowered(&[("", src)], false);
    assert_eq!(once, twice);
    assert!(once.contains("__lift_"));
}

#[test]
fn a_program_with_every_construct_is_lowered_once() {
    let src = "const N = 3\n\
               pair is { x i64 -> ret i64 { let { a b } = { x N }\n a + b } }\n\
               f is { x i64 -> ret i64 { when { x N } { { 1 y } -> { pair(y) } _ -> { ret N } } } }\n\
               g is { x i64 -> ret i64 { let r = f(x)\n pin pair(r)\n self(r + 1) } }\n\
               main is { _ -> { let q = g(f(2) + N)\n f(q) } }";
    for inline_pure in [false, true] {
        let (once, twice) = relowered(&[("", src)], inline_pure);
        assert_eq!(once, twice);
    }
}

#[test]
fn tuple_patterns_of_several_lengths_are_split_where_they_fit() {
    let src = "m is { x i64 -> { when x { { 1 a } -> { a } { 2 b c } -> { b } } } }";
    let (once, twice) = relowered(&[("", src)], false);
    assert_eq!(once, twice);
    assert!(once.contains("__wtp_"));
    let out = lowered(src, false);
    let text = format!("{:?}", body(machine(&out.modules[0], "m")));
    // The arm of three parts is still there as it was written.
    assert!(text.contains("Var(\"c\""), "{text}");
}

#[test]
fn a_private_machine_cannot_be_imported() {
    let p = parsed(&[
        ("main", "+util.p\n+util.q\nmain is { _ -> { p(1) } }"),
        ("util", "p is { x i64 -> { x } }\npub q is { x i64 -> { x } }"),
    ]);
    let reg = registered(&p);
    let main = reg.module_id_for_path(&path("main")).unwrap();
    let util = reg.module_id_for_path(&path("util")).unwrap();
    assert!(reg.resolve_bare_in(main, "p").is_none());
    assert!(reg.resolve_bare_in(main, "q").is_some());
    assert!(reg.resolve_bare_in(util, "p").is_some());
}

fn loaded(files: &[(&str, &str)]) -> Loading {
    let mut disk: Vec<DiskFile> = Vec::new();
    loop {
        match load_and_build("main.lake", "", &disk, "x86_64", true) {
            Loading::Needs(path) => {
                let content = files
                    .iter()
                    .find(|(name, _)| *name == path)
                    .map(|(_, text)| Content::Text(text.to_string()))
                    .unwrap_or(Content::Absent("no such file".to_string()));
                disk.push(DiskFile { path, content });
            }
            other => return other,
        }
    }
}

#[test]
fn loading_and_building_reports_every_stage() {
    let good = loaded(&[("main.lake", "main is { _ -> { 1 } }")]);
    assert!(matches!(good, Loading::Done(_)));
    let bad = loaded(&[("main.lake", "Foo is { x i64 }\nFoo is { _ -> ret i64 { ret 0 } }")]);
    let Loading::Failed(errs, _) = bad else { panic!() };
    assert_eq!(codes(&errs.into_vec()), ["E028"]);
}

#[test]
fn a_module_may_lie_in_a_directory() {
    let out = loaded(&[
        ("main.lake", "+core.io.print\nmain is { _ -> { print(1) } }"),
        ("core/io/mod.lake", "pub print is { n i64 -> { n } }"),
    ]);
    assert!(matches!(out, Loading::Done(_)));
    let none = loaded(&[("main.lake", "+core.io.print\nmain is { _ -> { print(1) } }")]);
    let Loading::Failed(errs, _) = none else { panic!() };
    assert_eq!(codes(&errs.into_vec()), ["M002"]);
}

#[test]
fn plain_records_and_enums_lose_their_generic_types() {
    let p = parsed(&[(
        "",
        "Vec[T] is { data buf  len i64 }\nHolder is { v Vec[i64] }\nmain is { _ -> { 1 } }",
    )]);
    let reg = registered(&p);
    let (out, errs) = monomorphise_program(p, &reg);
    assert!(errs.is_empty());
    let text = format!("{:?}", out.modules[0].ast);
    assert!(text.contains("Vec_i64"));
    assert!(!text.contains("NamedGeneric"));
}

#[test]
fn a_generic_type_without_a_template_is_reported() {
    let p = parsed(&[("", "Holder is { v Nowhere[i64] }\nmain is { _ -> { 1 } }")]);
    let reg = registered(&p);
    let (_, errs) = monomorphise_program(p, &reg);
    assert_eq!(codes(&errs), ["E040"]);
}

#[test]
fn a_program_can_be_registered_twice_without_a_trace() {
    let p = parsed(&[
        (
            "",
            "+util.q\nconst N = 1\nR is { x i64 }\nE is enum { A B }\n\
             @ffi(syscall {i64 str} {i64})\nmain is { _ -> { q(N) } }",
        ),
        ("util", "pub q is { x i64 -> { x } }"),
    ]);
    let mut reg = registered(&p);
    let text = format!("{reg:?}");
    assert!(reg.populate_from(&p).is_ok());
    assert_eq!(format!("{reg:?}"), text);
}

#[test]
fn substituting_types_leaves_callees_alone() {
    let mut p = parsed(&[("", "Box[T] is { v T }\nm is { x i64 -> { let b T = Box(x) } }")]);
    let reg = ProgramRegistry::with_rt();
    let mut records = NameMap::new();
    let Item::Record(decl) = p.modules[0].ast.remove(0).inner else { panic!() };
    records.insert("Box".to_string(), decl.inner);
    let templates =
        Templates { records, machines: vec![], enums: NameMap::new(), owners: NameMap::new() };
    let Item::Machine(mut m) = p.modules[0].ast.remove(0).inner else { panic!() };
    let MachineItem::Branch(mut b) = m.inner.items.remove(0).inner else { panic!() };
    let i64_type = b.patterns[0].inner.ty.inner.clone();
    let mut subst = NameMap::new();
    subst.insert("T".to_string(), i64_type);
    let cx = MonoCx { registry: &reg, templates: &templates, subst: &subst };
    let mut st = MonoState {
        records: vec![],
        machines: vec![],
        enums: vec![],
        work: vec![],
        errors: vec![],
    };
    let out = cx.substitute_expr(b.body.remove(0), &subst, &mut st);
    let Expr::Let { default: Some(d), .. } = &out.inner else { panic!() };
    assert_eq!(callee(&d.inner), "Box");
    assert!(st.records.is_empty());
}

#[test]
fn a_constant_does_not_replace_the_caller() {
    let p = parsed(&[("", "const __caller = 1\nm is { x i64 -> ret i64 { x } }")]);
    let reg = registered(&p);
    let out = lower_program(p, &reg, false);
    let stmts = body(machine(&out.modules[0], "m"));
    assert_eq!(stmts.len(), 1);
    assert_eq!(callee(&stmts[0].inner), "__caller");
}

#[test]
fn a_name_is_a_type_or_something_else() {
    for later in ["const Foo = 1", "@ffi(Foo {i64} {i64})", "Foo is { _ -> { 0 } }"] {
        for ty in ["Foo is { x i64 }", "Foo is enum { A B }"] {
            let errs = populate_errors(&[("", &format!("{ty}\n{later}"))]);
            assert_eq!(codes(&errs), ["E028"], "{ty} before {later}");
            let errs = populate_errors(&[("", &format!("{later}\n{ty}"))]);
            assert_eq!(codes(&errs), ["E028"], "{later} before {ty}");
        }
    }
}

#[test]
fn registering_twice_leaves_all_but_impls_as_it_was() {
    let src = "Eq is proto { eq is { Self Self -> bool } }\nX is { a i64 }\n\
               X is Eq\nconst N = 1\nmain is { _ -> { N } }";
    let p = parsed(&[("", src)]);
    let mut reg = registered(&p);
    let all = |r: &ProgramRegistry| {
        let m = &r.modules[0];
        format!("{:?} {:?} {:?} {:?} {:?}", m.records, m.enums, m.consts, m.machines, m.imports)
    };
    let before = all(&reg);
    let impls = reg.modules[0].impls.len();
    assert!(reg.populate_from(&p).is_ok());
    assert_eq!(all(&reg), before);
    assert_eq!(reg.modules[0].impls.len(), 2 * impls);
}

#[test]
fn protos_and_directives_lose_their_generic_types() {
    let p = parsed(&[(
        "",
        "Vec[T] is { data buf  len i64 }\n\
         Sized is proto { size is { Vec[i64] -> i64 } }\n\
         @ffi(total {Vec[str]} {i64})\nmain is { _ -> { 1 } }",
    )]);
    let reg = registered(&p);
    let (out, errs) = monomorphise_program(p, &reg);
    assert!(errs.is_empty(), "{errs:?}");
    let text = format!("{:?}", out.modules[0].ast);
    assert!(text.contains("Vec_i64"));
    assert!(text.contains("Vec_str"));
    assert!(!text.contains("NamedGeneric"));
}

#[test]
fn an_unknown_generic_type_in_a_proto_is_reported() {
    let p = parsed(&[("", "P is proto { f is { Nowhere[i64] -> i64 } }\nmain is { _ -> { 1 } }")]);
    let reg = registered(&p);
    let (_, errs) = monomorphise_program(p, &reg);
    assert_eq!(codes(&errs), ["E040"]);
}

#[test]
fn a_dropped_machine_makes_no_difference_the_second_time() {
    let files = [
        ("main", "+util.double\nmain is { _ -> { let n = double(2) let m = double(n) m } }"),
        ("util", "pub double is { x i64 -> ret i64 { ret x + x } }"),
    ];
    let (once, twice) = relowered(&files, true);
    assert_eq!(once, twice);
    let p = parsed(&files);
    let reg = registered(&p);
    assert!(machines(&lower_program(p, &reg, true).modules[1]).is_empty());
}

#[test]
fn what_fails_comes_with_its_files() {
    let out = loaded(&[
        ("main.lake", "+util.f\nmain is { _ -> { f(1) } }"),
        ("util.lake", "pub f is is"),
    ]);
    let Loading::Failed(errs, sources) = out else { panic!() };
    let files: Vec<(String, String)> =
        sources.files().iter().map(|f| (f.source_path.clone(), f.src.clone())).collect();
    assert_eq!(files.len(), 2);
    assert_eq!(files[1].1, "pub f is is");
    let reports = errs.display_multi(&files);
    assert_eq!(reports.len(), 1);
    assert_eq!(reports[0].file, "util.lake");
    assert_eq!(reports[0].code.as_deref(), Some("P001"));
}

#[test]
fn a_program_is_prepared_for_lowering() {
    let sources = load(&[("main.lake", "f is { x i64 -> ret i64 { ret x } }\nmain is { _ -> { f(1) } }")]);
    let ready = prepare_program(&sources, "x86_64").ok().expect("prepares");
    let ret = collect_ret_machines(&ready.program);
    let pure = collect_pure_ret_machines(&ready.program, &ret);
    assert_eq!(pure.len(), 1);
    assert_eq!(pure[0].name, "f");
    let bodies = collect_pure_bodies(&ready.program, &pure, &ready.registry);
    assert!(bodies.get(&pure[0]).is_some());
    assert!(machine(&ready.program.modules[0], "f").items.len() == 1);
}
