use lake_frontend::api::ast::{Item, MachineItem};
use lake_frontend::api::expr::Expr;
use lake_frontend::lexer::lexer;
use lake_frontend::loader::{ParsedModule, ParsedProgram};
use lake_frontend::panic_loc::{inject_panic_location, line_starts, Ctx};
use lake_frontend::parser::program;
use lake_frontend::registry::ModulePath;
use lake_frontend::span::Spanned;

const SRC: &str = "f is { n i64 -> {\n  panic(\"no\")\n  assert(n \"m\")\n\n  let x = panic(\"y\")\n} }";

fn module(src: &str) -> ParsedProgram {
    ParsedProgram {
        modules: vec![ParsedModule {
            path: ModulePath::root(),
            source_path: "dir/main.lake".to_string(),
            ast: program(&lexer(src).expect("lexes")).expect("parses"),
        }],
    }
}

fn files(src: &str) -> Vec<(String, String)> {
    vec![("dir/main.lake".to_string(), src.to_string())]
}

fn body(p: &ParsedProgram) -> &Vec<Spanned<Expr>> {
    let Item::Machine(m) = &p.modules[0].ast[0].inner else { panic!() };
    let MachineItem::Branch(b) = &m.inner.items[0].inner else { panic!() };
    &b.body
}

fn location(e: &Expr, from: usize) -> (String, String) {
    let Expr::Jump { args, .. } = e else { panic!("no call: {e:?}") };
    assert_eq!(args.len(), from + 2);
    let Expr::String(path, _) = &args[from].inner else { panic!() };
    let Expr::Num(line, _) = &args[from + 1].inner else { panic!() };
    (path.clone(), line.clone())
}

#[test]
fn calls_get_path_and_line() {
    let out = inject_panic_location(module(SRC), &files(SRC));
    let stmts = body(&out);
    let here = |line: &str| ("dir/main.lake".to_string(), line.to_string());
    assert_eq!(location(&stmts[0].inner, 1), here("2"));
    assert_eq!(location(&stmts[1].inner, 2), here("3"));
    let Expr::Let { default: Some(d), .. } = &stmts[2].inner else { panic!() };
    assert_eq!(location(&d.inner, 1), here("5"));
}

#[test]
fn locating_twice_changes_nothing() {
    let once = inject_panic_location(module(SRC), &files(SRC));
    let ast = format!("{:?}", once.modules[0].ast);
    let twice = inject_panic_location(once, &files(SRC));
    assert_eq!(format!("{:?}", twice.modules[0].ast), ast);
}

#[test]
fn without_a_text_the_line_is_zero() {
    let out = inject_panic_location(module(SRC), &Vec::new());
    assert_eq!(location(&body(&out)[0].inner, 1).1, "0");
}

#[test]
fn other_arities_are_left_alone() {
    let src = "f is { n i64 -> { panic() assert(n) panic(\"a\" \"b\" 3) } }";
    let out = inject_panic_location(module(src), &files(src));
    assert_eq!(*body(&out), *body(&module(src)));
}

#[test]
fn lines_and_columns_count_from_one() {
    let src = "ab\nc\n\nd";
    assert_eq!(line_starts(src), vec![0, 3, 5, 6]);
    let cx = Ctx { line_starts: line_starts(src), path: "a".to_string() };
    assert_eq!(cx.line_col(0), (1, 1));
    assert_eq!(cx.line_col(2), (1, 3));
    assert_eq!(cx.line_col(3), (2, 1));
    assert_eq!(cx.line_col(5), (3, 1));
    assert_eq!(cx.line_col(6), (4, 1));
    assert_eq!(cx.line_col(100), (4, 95));
}
