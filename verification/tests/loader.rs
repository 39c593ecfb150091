use lake_frontend::error_handle::LakeErrors;
use lake_frontend::loader::{Content, DiskFile, Loading, ProgramSources};
use lake_frontend::registry::ModulePath;

/// Loads `main.lake` in the directory `/proj`, which holds `files`.
fn load(files: &[(&str, &str)]) -> Result<ProgramSources, LakeErrors> {
    let mut disk: Vec<DiskFile> = Vec::new();
    loop {
        match ProgramSources::load("/proj/main.lake", "/proj", &disk) {
            Loading::Done(sources) => return Ok(sources),
            Loading::Failed(errs, _) => return Err(errs),
            Loading::Needs(path) => {
                let content = files
                    .iter()
                    .find(|(rel, _)| path == format!("/proj/{rel}"))
                    .map(|(_, text)| Content::Text(text.to_string()))
                    .unwrap_or(Content::Absent("no such file".to_string()));
                disk.push(DiskFile { path, content });
            }
        }
    }
}

fn code_of(errs: LakeErrors) -> String {
    let errs = errs.into_vec();
    assert_eq!(errs.len(), 1);
    errs[0].code.clone().expect("coded")
}

#[test]
fn loads_entry_file_only_when_no_imports() {
    let sources = load(&[("main.lake", "main is { _ -> { } }")]).expect("loads");
    assert_eq!(sources.files().len(), 1);
    assert!(sources.files()[0].path.is_root());
}

#[test]
fn loads_imported_module() {
    let sources = load(&[
        ("core/io.lake", "pub println is { s str -> { } }"),
        ("main.lake", "+core.io.println\nmain is { _ -> { } }"),
    ])
    .expect("loads");
    let mods: Vec<_> = sources.files().iter().map(|f| f.path.display()).collect();
    assert!(mods.contains(&"<root>".to_string()), "found {mods:?}");
    assert!(mods.contains(&"core.io".to_string()), "found {mods:?}");
}

#[test]
fn missing_module_errors() {
    let result = load(&[("main.lake", "+missing.module.thing\nmain is { _ -> { } }")]);
    assert!(result.is_err());
}

#[test]
fn cycle_detected() {
    let result = load(&[
        ("a.lake", "+b.x\npub x is { _ -> { } }"),
        ("b.lake", "+a.x\npub x is { _ -> { } }"),
        ("main.lake", "+a.x\nmain is { _ -> { } }"),
    ]);
    assert!(result.is_err(), "cycle should be reported");
}

#[test]
fn dedupes_repeated_imports_into_one_load() {
    let sources = load(&[
        ("core/io.lake", "pub a is { _ -> { } } pub b is { _ -> { } }"),
        ("main.lake", "+core.io.{ a b }\nmain is { _ -> { } }"),
    ])
    .expect("loads");
    let count = sources
        .files()
        .iter()
        .filter(|f| f.path.display() == "core.io")
        .count();
    assert_eq!(count, 1, "core.io should be loaded once");
}

#[test]
fn parse_all_returns_one_parsed_module_per_file() {
    let sources = load(&[
        ("core/io.lake", "pub println is { s str -> { } }"),
        ("main.lake", "+core.io.println\nmain is { _ -> { } }"),
    ])
    .expect("loads");
    let parsed = sources.parse_all().expect("parses");
    assert_eq!(parsed.modules.len(), 2);
    assert!(parsed.by_path(&ModulePath::root()).is_some());
    assert!(parsed
        .by_path(&ModulePath(vec!["core".to_string(), "io".to_string()]))
        .is_some());
}

#[test]
fn a_cycle_has_the_code_m001() {
    let errs = load(&[
        ("a.lake", "+b.x\npub x is { _ -> { } }"),
        ("b.lake", "+a.x\npub x is { _ -> { } }"),
        ("main.lake", "+a.x\nmain is { _ -> { } }"),
    ])
    .err()
    .expect("fails")
    .into_vec();
    assert_eq!(errs[0].code.as_deref(), Some("M001"));
    assert_eq!(errs[0].message, "import cycle detected at module `a`");
}

#[test]
fn a_missing_module_has_the_code_m002() {
    let errs = load(&[("main.lake", "+missing.module.thing\nmain is { _ -> { } }")])
        .err()
        .expect("fails")
        .into_vec();
    assert_eq!(errs[0].code.as_deref(), Some("M002"));
    assert_eq!(
        errs[0].message,
        "module `missing.module` not found (looked for `missing/module.lake` under `/proj`)"
    );
}

#[test]
fn an_unreadable_file_has_the_code_m003() {
    let disk = vec![DiskFile {
        path: "/proj/main.lake".to_string(),
        content: Content::Unreadable("permission denied".to_string()),
    }];
    match ProgramSources::load("/proj/main.lake", "/proj", &disk) {
        Loading::Failed(errs, _) => {
            let errs = errs.into_vec();
            assert_eq!(errs[0].code.as_deref(), Some("M003"));
            assert_eq!(
                errs[0].message,
                "could not read `/proj/main.lake`: permission denied"
            );
        }
        _ => panic!("expected a failure"),
    }
}

#[test]
fn syntax_errors_stop_loading() {
    let lex = load(&[("main.lake", "main is { \u{0} }")]).err().expect("fails");
    assert_eq!(code_of(lex), "L001");
    let parse = load(&[("main.lake", "main is is")]).err().expect("fails");
    assert_eq!(code_of(parse), "P001");
}

#[test]
fn modules_are_loaded_in_order_of_their_paths() {
    let sources = load(&[
        ("b.lake", "pub x is { _ -> { } }"),
        ("a/c.lake", "+b.x\npub y is { _ -> { } }"),
        ("main.lake", "+b.x\n+a.c.y\nmain is { _ -> { } }"),
    ])
    .expect("loads");
    let mods: Vec<_> = sources.files().iter().map(|f| f.path.display()).collect();
    assert_eq!(mods, vec!["<root>", "a.c", "b"]);
    assert_eq!(sources.files()[1].source_path, "/proj/a/c.lake");
}
