use lake_frontend::api::ast::Item;
use lake_frontend::api::expr::Expr;
use lake_frontend::cfg_filter::{filter_items, CfgTarget};
use lake_frontend::lexer::lexer;
use lake_frontend::parser::program;
use lake_frontend::span::Spanned;

fn parse(src: &str) -> Vec<Spanned<Item>> {
    let tokens = lexer(src).expect("lex");
    program(&tokens).expect("parse")
}

fn count_consts(items: &[Spanned<Item>]) -> usize {
    items
        .iter()
        .filter(|i| matches!(i.inner, Item::Const(_)))
        .count()
}

#[test]
fn cfg_arch_parses_and_attaches() {
    let items = parse("@cfg(arch=\"x86_64\")\npub const X = 1");
    // Two items pre-filter: the directive + the const.
    assert_eq!(items.len(), 2);
    let Item::Directive(d) = &items[0].inner else {
        panic!("expected directive, got {:?}", items[0].inner)
    };
    assert_eq!(d.inner.name.inner.0, "cfg");
    assert_eq!(d.inner.kv_args.len(), 1);
    assert_eq!(d.inner.kv_args[0].0.inner.0, "arch");
    assert_eq!(d.inner.kv_args[0].1.inner, "x86_64");
}

#[test]
fn filter_keeps_matching_arch() {
    let items = parse("@cfg(arch=\"x86_64\")\npub const X = 1");
    let (kept, errs) = filter_items(items, CfgTarget::new("x86_64"));
    assert!(errs.is_empty(), "errs: {errs:?}");
    // Directive dropped, const kept.
    assert_eq!(kept.len(), 1);
    assert_eq!(count_consts(&kept), 1);
}

#[test]
fn filter_drops_mismatched_arch() {
    let items = parse("@cfg(arch=\"x86_64\")\npub const X = 1");
    let (kept, errs) = filter_items(items, CfgTarget::new("aarch64"));
    assert!(errs.is_empty(), "errs: {errs:?}");
    // Both directive AND const dropped.
    assert!(kept.is_empty(), "expected empty, got {kept:?}");
}

#[test]
fn two_cfg_same_name_resolves_to_one_per_target() {
    let src = "@cfg(arch=\"x86_64\")\npub const SYS_SOCKET = 41\n\
               @cfg(arch=\"aarch64\")\npub const SYS_SOCKET = 198";
    // x86_64: keep the 41 one.
    let (kept, errs) = filter_items(parse(src), CfgTarget::new("x86_64"));
    assert!(errs.is_empty());
    assert_eq!(count_consts(&kept), 1);
    let Item::Const(c) = &kept[0].inner else { panic!() };
    assert!(
        matches!(&c.inner.value.inner, Expr::Num(ref s, _) if s == "41"),
        "x86_64 should keep SYS_SOCKET=41, got {:?}",
        c.inner.value.inner
    );

    // aarch64: keep the 198 one.
    let (kept, errs) = filter_items(parse(src), CfgTarget::new("aarch64"));
    assert!(errs.is_empty());
    assert_eq!(count_consts(&kept), 1);
    let Item::Const(c) = &kept[0].inner else { panic!() };
    assert!(
        matches!(&c.inner.value.inner, Expr::Num(ref s, _) if s == "198"),
        "aarch64 should keep SYS_SOCKET=198, got {:?}",
        c.inner.value.inner
    );
}

#[test]
fn unconditional_item_kept_for_all_targets() {
    let items = parse("pub const X = 1");
    let (kept_x, _) = filter_items(parse("pub const X = 1"), CfgTarget::new("x86_64"));
    let (kept_a, _) = filter_items(items, CfgTarget::new("aarch64"));
    assert_eq!(count_consts(&kept_x), 1);
    assert_eq!(count_consts(&kept_a), 1);
}

#[test]
fn cfg_attaches_to_machine() {
    let src = "@cfg(arch=\"aarch64\")\npub m is { _ -> { } }";
    let (kept, errs) = filter_items(parse(src), CfgTarget::new("x86_64"));
    assert!(errs.is_empty());
    assert!(kept.is_empty(), "machine should drop on mismatch");
    let (kept, _) = filter_items(parse(src), CfgTarget::new("aarch64"));
    assert_eq!(kept.len(), 1);
    assert!(matches!(kept[0].inner, Item::Machine(_)));
}

#[test]
fn unknown_cfg_key_errors() {
    let items = parse("@cfg(os=\"linux\")\npub const X = 1");
    let (_, errs) = filter_items(items, CfgTarget::new("x86_64"));
    assert_eq!(errs.len(), 1);
    assert_eq!(errs[0].code.as_deref(), Some("E041"));
}

#[test]
fn dangling_cfg_at_eof_errors() {
    let items = parse("@cfg(arch=\"x86_64\")");
    let (_, errs) = filter_items(items, CfgTarget::new("x86_64"));
    assert_eq!(errs.len(), 1);
    assert_eq!(errs[0].code.as_deref(), Some("E041"));
}
