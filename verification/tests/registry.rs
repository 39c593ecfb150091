use lake_frontend::api::ast::Item;
use lake_frontend::error_handle::LakeError;
use lake_frontend::lexer::lexer;
use lake_frontend::loader::{ParsedModule, ParsedProgram};
use lake_frontend::parser::program;
use lake_frontend::registry::{
    ImportBinding, MachineEntry, ModuleId, ModulePath, ProgramRegistry, Resolution, Signature,
    VariantPayloadEntry,
};
use lake_frontend::span::Spanned;

fn parse_one(src: &str) -> Vec<Spanned<Item>> {
    let tokens = lexer(src).unwrap();
    program(&tokens).unwrap()
}

fn one_module(ast: Vec<Spanned<Item>>) -> ParsedProgram {
    ParsedProgram {
        modules: vec![ParsedModule {
            path: ModulePath::root(),
            source_path: "main.lake".to_string(),
            ast,
        }],
    }
}

#[test]
fn module_path_filesystem_mapping() {
    let p = ModulePath(vec!["core".to_string(), "io".to_string()]);
    assert_eq!(p.to_filesystem(), "core/io.lake");
}

#[test]
fn root_module_is_pre_registered() {
    let reg: ProgramRegistry = ProgramRegistry::with_rt();
    assert_eq!(reg.current, ModuleId::root());
    assert!(reg.module_id_for_path(&ModulePath::root()).is_some());
}

#[test]
fn rt_lookup_works() {
    let reg: ProgramRegistry = ProgramRegistry::with_rt();
    let r = reg.resolve_bare("rt_listen_tcp").expect("rt_listen_tcp present");
    assert!(matches!(r, Resolution::Rt(_)));
    assert_eq!(r.return_type(), "i64");
}

#[test]
fn machine_lookup_after_register() {
    let mut reg: ProgramRegistry = ProgramRegistry::with_rt();
    let entry = MachineEntry {
        name: "counter".to_string(),
        module: ModuleId::root(),
        is_pub: true,
        type_params: Vec::new(),
        branches: vec![Signature {
            params: vec!["i64".to_string()],
            ret: "pid".to_string(),
        }],
    };
    reg.module_mut(ModuleId::root()).machines.insert("counter".to_string(), entry);

    let r = reg.resolve_bare("counter").expect("found");
    assert!(matches!(r, Resolution::Machine(_)));
    assert_eq!(r.return_type(), "pid");
}

#[test]
fn registering_same_path_returns_existing_id() {
    let mut reg: ProgramRegistry = ProgramRegistry::with_rt();
    let p = ModulePath(vec!["core".to_string(), "io".to_string()]);
    let a = reg.register_module(p.clone(), None);
    let b = reg.register_module(p, None);
    assert_eq!(a, b);
}

#[test]
fn populate_registers_machines_in_root_module() {
    let src = "@rt(rt_write)\npub greet is { _ -> { } }\nmain is { _ -> { } }";
    let ast = parse_one(src);

    let program = one_module(ast);

    let mut reg: ProgramRegistry = ProgramRegistry::with_rt();
    reg.populate_from(&program).expect("populates");

    let root = reg.module(ModuleId::root());
    assert!(root.machines.contains_key("greet"));
    assert!(root.machines.contains_key("main"));
    assert!(root.machines.get("greet").expect("registered").is_pub);
    assert!(!root.machines.get("main").expect("registered").is_pub);
}

#[test]
fn populate_collects_branch_signatures() {
    let src = "counter is { 0 i64 -> { } n i64 -> { self(n) } }";
    let ast = parse_one(src);
    let program = one_module(ast);
    let mut reg: ProgramRegistry = ProgramRegistry::with_rt();
    reg.populate_from(&program).expect("populates");

    let entry = reg.module(ModuleId::root()).machines.get("counter").expect("registered");
    assert_eq!(entry.branches.len(), 2);
    assert_eq!(entry.branches[0].params, vec!["i64".to_string()]);
    assert_eq!(entry.branches[1].params, vec!["i64".to_string()]);
    assert_eq!(entry.spawn_ret(), "pid");
}

#[test]
fn populate_records_imports_with_alias() {
    let core_io_src = "pub println is { s str -> { } }";
    let main_src = "+core.io.println as p\nmain is { _ -> { p(\"hi\") } }";

    let core_ast = parse_one(core_io_src);
    let main_ast = parse_one(main_src);

    let program = ParsedProgram {
        modules: vec![
            ParsedModule {
                path: ModulePath::root(),
                source_path: "main.lake".to_string(),
                ast: main_ast,
            },
            ParsedModule {
                path: ModulePath(vec!["core".to_string(), "io".to_string()]),
                source_path: "core/io.lake".to_string(),
                ast: core_ast,
            },
        ],
    };

    let mut reg: ProgramRegistry = ProgramRegistry::with_rt();
    reg.populate_from(&program).expect("populates");

    let imports = &reg.module(ModuleId::root()).imports;
    assert!(imports.contains_key("p"), "alias `p` should be in scope");
    let binding = imports.get("p").expect("bound");
    assert_eq!(binding.target_item.as_deref(), Some("println"));

    // Resolving `p` should give us the `println` machine in core.io.
    let resolved = reg.resolve_bare("p").expect("resolves");
    match resolved {
        Resolution::Machine(m) => assert_eq!(m.name, "println"),
        _ => panic!("expected machine"),
    }
}

#[test]
fn registry_populates_record() {
    let src = "Request is { method buf  path buf }";
    let ast = parse_one(src);
    let program = one_module(ast);
    let mut reg: ProgramRegistry = ProgramRegistry::with_rt();
    reg.populate_from(&program).expect("populate");
    let entry = reg.module(ModuleId::root()).records.get("Request").expect("registered");
    assert_eq!(entry.fields.len(), 2);
    assert_eq!(entry.fields[0].0.inner.0, "method");
}

#[test]
fn registry_rejects_record_machine_collision_e028() {
    let src = "Foo is { x i64 }\nFoo is { _ -> ret i64 { ret 0 } }";
    let ast = parse_one(src);
    let program = one_module(ast);
    let mut reg: ProgramRegistry = ProgramRegistry::with_rt();
    let res = reg.populate_from(&program);
    let errs: Vec<LakeError> = res.err().expect("collision must produce an error").into_vec();
    assert!(
        errs.iter().any(|e| e.code.as_deref() == Some("E028")),
        "expected E028, got {:?}",
        errs.iter().map(|e| &e.code).collect::<Vec<_>>()
    );
}

#[test]
fn registry_resolves_record_by_bare_name() {
    let src = "Request is { method buf }";
    let ast = parse_one(src);
    let program = one_module(ast);
    let mut reg: ProgramRegistry = ProgramRegistry::with_rt();
    reg.populate_from(&program).expect("populate");
    let resolution = reg.resolve_bare_in(ModuleId::root(), "Request");
    assert!(matches!(resolution, Some(Resolution::Record(_))));
}

#[test]
fn import_binding_resolves_into_target_module() {
    let mut reg: ProgramRegistry = ProgramRegistry::with_rt();
    let core_io = reg.register_module(
        ModulePath(vec!["core".to_string(), "io".to_string()]),
        None,
    );

    // Define `pub println` in core.io.
    reg.module_mut(core_io).machines.insert(
        "println".to_string(),
        MachineEntry {
            name: "println".to_string(),
            module: core_io,
            is_pub: true,
            type_params: Vec::new(),
            branches: vec![Signature {
                params: vec!["str".to_string()],
                ret: "pid".to_string(),
            }],
        },
    );

    // Root imports core.io.println as `out`.
    reg.module_mut(ModuleId::root()).imports.insert(
        "out".to_string(),
        ImportBinding {
            target_module: core_io,
            target_item: Some("println".to_string()),
        },
    );

    let r = reg.resolve_bare("out").expect("alias resolves");
    assert!(matches!(r, Resolution::Machine(m) if m.name == "println"));
}

#[test]
fn registry_populates_enum_with_sequential_tags() {
    let src = "HTTPMethod is enum {
      Get
      Post(buf)
      Delete
      Open { from i64 }
    }";
    let ast = parse_one(src);
    let program = one_module(ast);
    let mut reg: ProgramRegistry = ProgramRegistry::with_rt();
    reg.populate_from(&program).expect("populate");
    let entry = reg
        .module(ModuleId::root())
        .enums
        .get("HTTPMethod")
        .expect("registered");
    assert_eq!(entry.variants.len(), 4);
    for (i, v) in entry.variants.iter().enumerate() {
        assert_eq!(v.tag, i as u64, "tags must be declaration-order");
    }
    assert_eq!(entry.variants[0].name, "Get");
    assert!(matches!(entry.variants[0].payload, VariantPayloadEntry::NoPayload));
    assert!(matches!(
        entry.variants[1].payload,
        VariantPayloadEntry::Tuple(_)
    ));
    assert!(matches!(
        entry.variants[3].payload,
        VariantPayloadEntry::Record(_)
    ));
}

#[test]
fn registry_rejects_duplicate_variant_e029() {
    let src = "Bad is enum { A B A }";
    let ast = parse_one(src);
    let program = one_module(ast);
    let mut reg: ProgramRegistry = ProgramRegistry::with_rt();
    let res = reg.populate_from(&program);
    let errs: Vec<LakeError> = res.err().expect("duplicate must error").into_vec();
    assert!(
        errs.iter().any(|e| e.code.as_deref() == Some("E029")),
        "expected E029, got {:?}",
        errs.iter().map(|e| &e.code).collect::<Vec<_>>()
    );
}

#[test]
fn registry_rejects_enum_machine_collision_e028() {
    let src = "Foo is enum { A B }\nFoo is { _ -> ret i64 { ret 0 } }";
    let ast = parse_one(src);
    let program = one_module(ast);
    let mut reg: ProgramRegistry = ProgramRegistry::with_rt();
    let res = reg.populate_from(&program);
    let errs: Vec<LakeError> = res.err().expect("collision must error").into_vec();
    assert!(
        errs.iter().any(|e| e.code.as_deref() == Some("E028")),
        "expected E028, got {:?}",
        errs.iter().map(|e| &e.code).collect::<Vec<_>>()
    );
}

#[test]
fn module_paths_grow_by_a_segment() {
    let core = ModulePath::root().join_segment("core");
    let io = core.join_segment("io");
    assert_eq!(io, ModulePath(vec!["core".to_string(), "io".to_string()]));
    assert_eq!(io.to_filesystem_mod(), "core/io/mod.lake");
    assert_eq!(ModulePath::root().to_filesystem_mod(), "mod.lake");
}

#[test]
fn machines_know_their_arities() {
    let src = "m is { _ -> { 1 }  a i64 b i64 -> { 2 } }";
    let mut reg: ProgramRegistry = ProgramRegistry::with_rt();
    reg.populate_from(&one_module(parse_one(src))).expect("populate");
    let m = reg.module(ModuleId::root()).machines.get("m").expect("registered");
    assert!(m.has_arity(2));
    assert!(!m.has_arity(3));
}

#[test]
fn enums_are_looked_up_in_all_modules() {
    let mut reg: ProgramRegistry = ProgramRegistry::with_rt();
    reg.populate_from(&one_module(parse_one("Color is enum { Red Green }"))).expect("populate");
    let other = reg.register_module(ModulePath(vec!["other".to_string()]), None);
    assert_eq!(reg.lookup_enum("Color").map(|e| e.variants.len()), Some(2));
    assert!(reg.lookup_enum("Shape").is_none());
    reg.set_current(other);
    assert_eq!(reg.current, other);
    assert_eq!(reg.lookup_enum("Color").map(|e| e.module), Some(ModuleId::root()));
}

#[test]
fn module_path_drops_an_extension() {
    let p = ModulePath(vec!["a".to_string(), "b.c".to_string()]);
    assert_eq!(p.to_filesystem(), "a/b.lake");
}
