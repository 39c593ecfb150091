use lake_frontend::api::ast::{Clean, Ident, Import, Item, MachineItem, Type};
use lake_frontend::api::expr::Expr;
use lake_frontend::api::token::Token;
use lake_frontend::lexer::lexer;
use lake_frontend::parser::expr::expr;
use lake_frontend::parser::program;
use lake_frontend::parser::proto::is_reserved_decl_kw;
use lake_frontend::prelude::{build_ast, parse};
use lake_frontend::span::Spanned;

fn one(src: &str) -> Expr {
    let tokens = lexer(src).expect("lexes");
    let (e, end) = expr(&tokens, 0).expect("parses");
    assert_eq!(end, tokens.len(), "all of `{src}` is one expression");
    e.inner
}

fn items(src: &str) -> Vec<Spanned<Item>> {
    program(&lexer(src).expect("lexes")).expect("parses")
}

fn is_num(e: &Spanned<Expr>, text: &str) -> bool {
    matches!(&e.inner, Expr::Num(s, _) if s == text)
}

fn is_var(e: &Spanned<Expr>, name: &str) -> bool {
    matches!(&e.inner, Expr::Var(s, _) if s == name)
}

// ── expressions ────────────────────────────────────────────────────────────

#[test]
fn literals() {
    assert!(matches!(one("42"), Expr::Num(s, _) if s == "42"));
    assert!(matches!(one("\"hello\\n\""), Expr::String(s, _) if s == "hello\\n"));
    assert!(matches!(one("true"), Expr::Bool(true)));
    assert!(matches!(one("false"), Expr::Bool(false)));
    assert!(matches!(one("{}"), Expr::Unit));
    assert!(matches!(one(":ok"), Expr::Atom(s) if s == "ok"));
}

#[test]
fn multiplication_binds_tighter_than_addition() {
    let Expr::Add(l, r) = one("2 * n + 1") else { panic!() };
    let Expr::Mul(a, b) = &l.inner else { panic!() };
    assert!(is_num(a, "2") && is_var(b, "n"));
    assert!(is_num(&r, "1"));
    let Expr::Add(l, r) = one("1 + 2 * n") else { panic!() };
    assert!(is_num(&l, "1"));
    assert!(matches!(r.inner, Expr::Mul(_, _)));
}

#[test]
fn subtraction_associates_to_the_left() {
    let Expr::Sub(l, r) = one("a - b - c") else { panic!() };
    assert!(matches!(l.inner, Expr::Sub(_, _)));
    assert!(is_var(&r, "c"));
}

#[test]
fn comparisons() {
    assert!(matches!(one("n <= 10"), Expr::Le(_, _)));
    assert!(matches!(one("n >= 10"), Expr::Ge(_, _)));
    assert!(matches!(one("n == 10"), Expr::Eq(_, _)));
    assert!(matches!(one("n < 10"), Expr::Lt(_, _)));
    assert!(matches!(one("n > 10"), Expr::Gt(_, _)));
    let Expr::Le(l, _) = one("n + 1 <= 10") else { panic!() };
    assert!(matches!(l.inner, Expr::Add(_, _)));
}

#[test]
fn calls_touch_their_callee() {
    let Expr::Jump { ident, args } = one("self(n-1 acc+n)") else { panic!() };
    assert!(is_var(&ident, "self"));
    assert_eq!(args.len(), 2);
    assert!(matches!(args[0].inner, Expr::Sub(_, _)));
    assert!(matches!(args[1].inner, Expr::Add(_, _)));
    // A space before the bracket makes two values of it.
    let tokens = lexer("f (x)").expect("lexes");
    let (e, end) = expr(&tokens, 0).expect("parses");
    assert!(is_var(&e, "f"));
    assert_eq!(end, 1);
}

#[test]
fn what_is_in_parentheses_is_not_called() {
    let Expr::Jump { args, .. } = one("f((w)(i - 2) * 4)") else { panic!() };
    assert_eq!(args.len(), 2);
    assert!(is_var(&args[0], "w"));
    assert!(matches!(args[1].inner, Expr::Mul(_, _)));
    assert!(matches!(one("(t).0"), Expr::TupleIndex { index: 0, .. }));
}

#[test]
fn methods_and_struct_initialisation() {
    let Expr::MethodCall { receiver, method, args } = one("self@print_string()") else {
        panic!()
    };
    assert!(is_var(&receiver, "self"));
    assert_eq!(method.inner, Ident::new("print_string"));
    assert!(args.is_empty());
    let Expr::MethodCall { method, args, .. } = one("box@len(data_ptr)") else { panic!() };
    assert_eq!(method.inner, Ident::new("len"));
    assert_eq!(args.len(), 1);
    let Expr::StructInit { base, fields } = one("point.{ 10 20 }") else { panic!() };
    assert!(is_var(&base, "point"));
    assert_eq!(fields.len(), 2);
}

#[test]
fn when_and_wait() {
    let Expr::When { cond, branches } = one("when 0 == n { true -> { 1 } false -> { n } }") else {
        panic!()
    };
    assert!(matches!(cond.inner, Expr::Eq(_, _)));
    assert_eq!(branches.len(), 2);
    assert!(matches!(branches[0].0.inner, Expr::Bool(true)));
    let Expr::Wait { handlers, filter } = one("wait { @ready _ -> { 1 } }") else { panic!() };
    assert!(filter.is_empty());
    assert_eq!(handlers[0].inner.label.as_ref().map(|l| l.inner.0.as_str()), Some("ready"));
}

#[test]
fn indexing_touches_its_receiver() {
    let Expr::Index { receiver, index } = one("buf[i]") else { panic!() };
    assert!(is_var(&receiver, "buf") && is_var(&index, "i"));
}

// ── items ──────────────────────────────────────────────────────────────────

#[test]
fn imports() {
    let parsed = items("+core.io.writer\n+core.{ box.box result.result error.error }");
    assert_eq!(parsed.len(), 2);
    let Item::Import(i) = &parsed[1].inner else { panic!() };
    let Import::Import(core, Some(next), _) = &i.inner else { panic!() };
    assert_eq!(core.inner, Ident::new("core"));
    let Import::MultiImport(entries) = &next.inner else { panic!() };
    assert_eq!(entries.len(), 3);
}

#[test]
fn a_machine_of_every_kind_of_part() {
    let src = "pub box(T) is {
      @ok.T
      @.raw_box(T)
      @.{ str }

      @len ptr box(T) -> ret usize { len(ptr) }
      n i64 -> { n }
      _ -> { self(0) }
    }";
    let parsed = items(src);
    let Item::Machine(m) = &parsed[0].inner else { panic!() };
    assert!(m.inner.vis);
    assert_eq!(m.inner.generics[0].inner, Ident::new("T"));
    assert_eq!(m.inner.items.len(), 6);
    let MachineItem::Field(ok) = &m.inner.items[0].inner else { panic!() };
    assert_eq!(ok.label.as_ref().map(|l| l.inner.0.as_str()), Some("ok"));
    let MachineItem::Field(raw) = &m.inner.items[1].inner else { panic!() };
    assert!(raw.label.is_none());
    assert!(matches!(raw.ty.inner, Type::Generic(_, _)));
    let MachineItem::Branch(len) = &m.inner.items[3].inner else { panic!() };
    assert_eq!(len.label.as_ref().map(|l| l.inner.0.as_str()), Some("len"));
    assert!(len.ret_ty.is_some());
    let MachineItem::Branch(any) = &m.inner.items[5].inner else { panic!() };
    assert!(any.patterns[0].inner.is_wildcard());
}

#[test]
fn payloads_without_their_spans() {
    let parsed = items("f is { @go n box(i64) -> ret { str } { n 1 } }");
    let Item::Machine(m) = &parsed[0].inner else { panic!() };
    let MachineItem::Branch(b) = &m.inner.items[0].inner else { panic!() };
    let label: Option<Ident> = b.clean();
    assert_eq!(label, Some(Ident::new("go")));
    let body: Vec<Expr> = b.clean();
    assert_eq!(body.len(), 2);
    let name: Ident = b.patterns[0].inner.clean();
    assert_eq!(name, Ident::new("n"));
    let ty: Type = b.patterns[0].inner.clean();
    let (head, args): (Ident, Vec<Type>) = ty.clean();
    assert_eq!(head, Ident::new("box"));
    let arg: Ident = args[0].clean();
    assert_eq!(arg, Ident::new("i64"));
    let ret: Option<Type> = b.clean();
    let fields: Vec<Type> = ret.expect("ret").clean();
    assert_eq!(fields.len(), 1);
    let Expr::Let { ident, default, .. } = Expr::from_pattern(&b.patterns[0].inner) else {
        panic!()
    };
    assert_eq!(ident.inner, Ident::new("n"));
    assert!(default.is_none());
}

#[test]
fn types_print_as_they_are_written() {
    let parsed = items("f is { a box(i64 str) b { i64 str } c {} d Vec[i64] -> { a } }");
    let Item::Machine(m) = &parsed[0].inner else { panic!() };
    let MachineItem::Branch(b) = &m.inner.items[0].inner else { panic!() };
    let texts: Vec<String> = b.patterns.iter().map(|p| p.inner.ty.inner.to_string()).collect();
    assert_eq!(texts, vec!["box(i64 str)", "{ i64 str }", "{}", "Vec<i64>"]);
}

// ── tokens ─────────────────────────────────────────────────────────────────

#[test]
fn identifiers_may_be_of_any_script() {
    // A letter, a digit and a combining mark go on with an identifier.
    let tokens = lexer("ключ1 e\u{301}x").expect("lexes");
    assert_eq!(tokens.len(), 2);
    assert!(matches!(&tokens[0].inner, Token::Ident(s) if s == "ключ1"));
    assert_eq!((tokens[0].span.start, tokens[0].span.end), (0, 9));
    assert!(matches!(&tokens[1].inner, Token::Ident(s) if s == "e\u{301}x"));
}

#[test]
fn any_white_space_separates_tokens() {
    let tokens = lexer("a\u{a0}b\u{3000}c\td").expect("lexes");
    assert_eq!(tokens.len(), 4);
}

#[test]
fn tokens_print_as_they_are_written() {
    let tokens = lexer("f(x) -> 'A' b\"z\" <= :").expect("lexes");
    let texts: Vec<String> = tokens.iter().map(|t| t.inner.to_string()).collect();
    assert_eq!(texts.len(), 7);
    assert_eq!(texts[0], "f");
    assert_eq!(texts[2], "->");
    assert_eq!(texts[5], "<=");
    assert_eq!(texts[6], ":");
}

#[test]
fn token_spans_are_in_order() {
    let src = "f is { n i64 -> { self(n - 1) } } // done";
    let tokens = lexer(src).expect("lexes");
    let mut end = 0;
    for t in &tokens {
        assert!(end <= t.span.start && t.span.start < t.span.end && t.span.end <= src.len());
        end = t.span.end;
    }
    let Token::CurlyBrackets(inside) = &tokens[2].inner else { panic!() };
    assert!(tokens[2].span.start < inside[0].span.start);
    assert_eq!(&src[tokens[2].span.start..tokens[2].span.end], "{ n i64 -> { self(n - 1) } }");
}

#[test]
fn tagging_tokens_again_changes_nothing() {
    let tokens = lexer("f(x) g (y) b[0] [1]").expect("lexes");
    assert!(matches!(tokens[1].inner, Token::TightParens(_)));
    assert!(matches!(tokens[3].inner, Token::Parens(_)));
    assert!(matches!(tokens[5].inner, Token::TightSquareBrackets(_)));
    assert!(matches!(tokens[6].inner, Token::SquareBrackets(_)));
    let again = lake_frontend::lexer::tag_paren_adjacency(tokens);
    assert_eq!(again, lexer("f(x) g (y) b[0] [1]").expect("lexes"));
}

// ── errors ─────────────────────────────────────────────────────────────────

#[test]
fn lexer_errors_have_their_code() {
    let errs = parse("a.lake", "f is \u{7}").err().expect("fails").into_vec();
    assert_eq!(errs.len(), 1);
    assert_eq!(errs[0].code.as_deref(), Some("L001"));
    assert_eq!((errs[0].span.start, errs[0].span.end), (5, 6));
}

#[test]
fn parser_errors_have_their_code() {
    let errs = parse("a.lake", "f is { x } is").err().expect("fails").into_vec();
    assert_eq!(errs.len(), 1);
    assert_eq!(errs[0].code.as_deref(), Some("P001"));
    assert_eq!(errs[0].message, "found 'x' expected something else");
}

#[test]
fn tokens_survive_a_parse_error() {
    let (tokens, errs) = build_ast("a.lake", "is is").err().expect("fails");
    assert_eq!(tokens.len(), 2);
    assert_eq!(errs.len(), 1);
    let (tokens, errs) = build_ast("a.lake", "\"open").err().expect("fails");
    assert!(tokens.is_empty());
    assert_eq!(errs.len(), 1);
    let (tokens, ast) = build_ast("a.lake", "f is { _ -> { 1 } }").ok().expect("builds");
    assert_eq!(tokens.len(), 3);
    assert_eq!(ast.len(), 1);
}

#[test]
fn an_import_takes_a_next_part_and_an_alias() {
    let parsed = items("+core\n+io");
    let mut parts = parsed.into_iter().map(|i| i.inner);
    let (Some(Item::Import(mut core)), Some(Item::Import(io))) = (parts.next(), parts.next())
    else {
        panic!()
    };
    let span = core.span;
    core.inner.set_next(io);
    core.inner.set_alias(Spanned { inner: Ident::new("c"), span });
    let Import::Import(name, Some(next), Some(alias)) = &core.inner else { panic!() };
    assert_eq!(name.inner, Ident::new("core"));
    assert_eq!(alias.inner, Ident::new("c"));
    assert!(matches!(&next.inner, Import::Import(n, None, None) if n.inner == Ident::new("io")));
}

#[test]
fn declaration_words_are_reserved() {
    assert!(is_reserved_decl_kw("enum") && is_reserved_decl_kw("proto"));
    assert!(!is_reserved_decl_kw("record") && !is_reserved_decl_kw("Enum"));
}

#[test]
fn a_path_has_two_segments_or_more() {
    let Expr::Path(segments) = one("core:io:println") else { panic!() };
    assert_eq!(segments.len(), 3);
    let Expr::Jump { ident, args } = one("io:println(x)") else { panic!() };
    assert!(matches!(&ident.inner, Expr::Path(s) if s.len() == 2));
    assert_eq!(args.len(), 1);
    assert!(matches!(one("core"), Expr::Var(s, _) if s == "core"));
}

#[test]
fn a_file_is_complained_about_where_reading_got_stuck() {
    let stuck = |src: &str, at: &str| {
        let errs = parse("a.lake", src).err().expect("fails").into_vec();
        assert_eq!(errs.len(), 1);
        assert_eq!(errs[0].span.start, src.rfind(at).unwrap(), "{src}");
    };
    stuck("f is { x i64 -> { 1 } } is", "is");
    stuck("f is { x i64 -> 1 }", "1");
    stuck("f is { x i64 -> { let y = } }", "let");
    stuck("f is { x i64 -> { let y = ret is } }", "is");
    stuck("f is { x i64 -> { g(1 is) } }", "is");
    stuck("f is { x i64 -> { when x { 1 -> { is } } } }", "is");
    stuck("f is { x i64 -> { when x 2 } }", "2");
    stuck("f is { x i64 -> { wait x { y i64 -> { is } } } }", "is");
}
