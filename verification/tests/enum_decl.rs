use lake_frontend::api::ast::{EnumDecl, Item, Type, VariantPayload};
use lake_frontend::lexer::lexer;
use lake_frontend::parser::enum_decl::enum_decl;
use lake_frontend::parser::program;
use lake_frontend::span::Spanned;

fn parse_enum(src: &str) -> Result<Spanned<EnumDecl>, String> {
    let tokens = lexer(src).map_err(|e| format!("lex error: {e:?}"))?;
    match enum_decl(&tokens, 0) {
        Some((decl, end)) if end == tokens.len() => Ok(decl),
        _ => Err("parse error".to_string()),
    }
}

fn parse_top(src: &str) -> Result<Vec<Spanned<Item>>, String> {
    let tokens = lexer(src).map_err(|e| format!("lex error: {e:?}"))?;
    program(&tokens).map_err(|e| format!("parse error: {e:?}"))
}

#[test]
fn parses_nullary_only_enum() {
    let src = "Color is enum { Red Green Blue }";
    let decl = parse_enum(src).expect("parses");
    assert_eq!(decl.inner.name.inner.0, "Color");
    assert_eq!(decl.inner.variants.len(), 3);
    for v in &decl.inner.variants {
        assert!(matches!(v.inner.payload, VariantPayload::NoPayload));
    }
    assert_eq!(decl.inner.variants[0].inner.name.inner.0, "Red");
    assert_eq!(decl.inner.variants[1].inner.name.inner.0, "Green");
    assert_eq!(decl.inner.variants[2].inner.name.inner.0, "Blue");
}

#[test]
fn parses_mixed_variant_payloads() {
    let src = "HTTPMethod is enum {
      Get
      Post(buf)
      Put(buf)
      Delete
      Patch(buf)
    }";
    let decl = parse_enum(src).expect("parses");
    assert_eq!(decl.inner.variants.len(), 5);

    let v = &decl.inner.variants;
    assert_eq!(v[0].inner.name.inner.0, "Get");
    assert!(matches!(v[0].inner.payload, VariantPayload::NoPayload));

    assert_eq!(v[1].inner.name.inner.0, "Post");
    let VariantPayload::Tuple(ref types) = v[1].inner.payload else {
        panic!("Post should be tuple, got {:?}", v[1].inner.payload);
    };
    assert_eq!(types.len(), 1);
    let Type::Named(ref n) = types[0].inner else { panic!() };
    assert_eq!(n.inner.0, "buf");

    assert_eq!(v[3].inner.name.inner.0, "Delete");
    assert!(matches!(v[3].inner.payload, VariantPayload::NoPayload));
}

#[test]
fn parses_tuple_payload_with_multiple_types() {
    let src = "Range is enum {
      Empty
      Bounded(i64 i64)
    }";
    let decl = parse_enum(src).expect("parses");
    assert_eq!(decl.inner.variants.len(), 2);
    let VariantPayload::Tuple(ref types) = decl.inner.variants[1].inner.payload else {
        panic!("Bounded should be tuple");
    };
    assert_eq!(types.len(), 2);
}

#[test]
fn parses_record_payload_variant() {
    let src = "Range is enum {
      Empty
      Open { from i64 }
    }";
    let decl = parse_enum(src).expect("parses");
    assert_eq!(decl.inner.variants.len(), 2);
    let VariantPayload::Record(ref fields) = decl.inner.variants[1].inner.payload else {
        panic!("Open should be record-style payload");
    };
    assert_eq!(fields.len(), 1);
    assert_eq!(fields[0].0.inner.0, "from");
    let Type::Named(ref ty) = fields[0].1.inner else { panic!() };
    assert_eq!(ty.inner.0, "i64");
}

#[test]
fn rejects_enum_without_body() {
    let src = "Empty is enum";
    let res = parse_enum(src);
    assert!(res.is_err(), "expected parse error, got {res:?}");
}

#[test]
fn rejects_enum_with_empty_body() {
    // `at_least(1)` on variants — an empty `{}` must NOT parse as an
    // enum declaration.
    let src = "Empty is enum { }";
    let res = parse_enum(src);
    assert!(res.is_err(), "empty enum body should not parse, got {res:?}");
}

#[test]
fn enum_parses_as_top_level_item() {
    let src = "Color is enum { Red Green Blue }";
    let items = parse_top(src).expect("parses");
    assert_eq!(items.len(), 1);
    let Item::Enum(decl) = &items[0].inner else {
        panic!("expected Item::Enum, got {:?}", items[0].inner)
    };
    assert_eq!(decl.inner.variants.len(), 3);
}

#[test]
fn parses_generic_enum_single_param() {
    let src = "Option[T] is enum { Some(T) None }";
    let decl = parse_enum(src).expect("parses");
    assert_eq!(decl.inner.name.inner.0, "Option");
    assert_eq!(decl.inner.type_params.len(), 1);
    assert_eq!(decl.inner.type_params[0].inner.0, "T");
    assert_eq!(decl.inner.variants.len(), 2);
}

#[test]
fn parses_generic_enum_two_params() {
    let src = "Result[T E] is enum { Ok(T) Err(E) }";
    let decl = parse_enum(src).expect("parses");
    assert_eq!(decl.inner.type_params.len(), 2);
    assert_eq!(decl.inner.type_params[0].inner.0, "T");
    assert_eq!(decl.inner.type_params[1].inner.0, "E");
}

#[test]
fn generic_enum_top_level_parses() {
    let src = "Option[T] is enum { Some(T) None }";
    let items = parse_top(src).expect("parses");
    assert_eq!(items.len(), 1);
    let Item::Enum(decl) = &items[0].inner else {
        panic!("expected Item::Enum, got {:?}", items[0].inner)
    };
    assert_eq!(decl.inner.type_params.len(), 1);
}

#[test]
fn record_still_parses_when_enum_added() {
    // Regression: ensure adding enum to the top-level choice didn't
    // shadow record parsing.
    let src = "Request is { method buf  path buf }";
    let items = parse_top(src).expect("parses");
    assert_eq!(items.len(), 1);
    assert!(matches!(items[0].inner, Item::Record(_)));
}
