use lake_frontend::api::ast::Item;
use lake_frontend::lexer::lexer;
use lake_frontend::parser::program;
use lake_frontend::span::Spanned;

fn parse_top(src: &str) -> Result<Vec<Spanned<Item>>, String> {
    let tokens = lexer(src).map_err(|e| format!("lex error: {e:?}"))?;
    program(&tokens).map_err(|e| format!("parse error: {e:?}"))
}

#[test]
fn parses_simple_proto() {
    let src = "Eq is proto { eq is { Self Self -> bool } }";
    let items = parse_top(src).expect("parses");
    assert_eq!(items.len(), 1);
    let Item::Proto(p) = &items[0].inner else {
        panic!("expected Proto, got {:?}", items[0].inner)
    };
    assert_eq!(p.inner.name.inner.0, "Eq");
    assert!(p.inner.parents.is_empty());
    assert_eq!(p.inner.methods.len(), 1);
    let m = &p.inner.methods[0].inner;
    assert_eq!(m.name.inner.0, "eq");
    assert_eq!(m.params.len(), 2);
    assert!(m.ret.is_some());
}

#[test]
fn parses_proto_with_parent() {
    let src = "Ord is proto +Eq { cmp is { Self Self -> i64 } }";
    let items = parse_top(src).expect("parses");
    let Item::Proto(p) = &items[0].inner else {
        panic!("expected Proto, got {:?}", items[0].inner)
    };
    assert_eq!(p.inner.name.inner.0, "Ord");
    assert_eq!(p.inner.parents.len(), 1);
    assert_eq!(p.inner.parents[0].inner.0, "Eq");
    assert_eq!(p.inner.methods.len(), 1);
    assert_eq!(p.inner.methods[0].inner.name.inner.0, "cmp");
}

#[test]
fn parses_impl_assertion() {
    let src = "HTTPMethod is Eq Show";
    let items = parse_top(src).expect("parses");
    let Item::Impl(d) = &items[0].inner else {
        panic!("expected Impl, got {:?}", items[0].inner)
    };
    assert_eq!(d.inner.ty.inner.0, "HTTPMethod");
    assert_eq!(d.inner.protos.len(), 2);
    assert_eq!(d.inner.protos[0].inner.0, "Eq");
    assert_eq!(d.inner.protos[1].inner.0, "Show");
}
