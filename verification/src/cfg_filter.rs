//! Compile-time `@cfg(...)` item filtering.
//!
//! `@cfg(arch="x86_64")` makes the item behind it depend on the target.  An
//! item whose `@cfg` does not match the target is dropped, and so is the
//! directive itself; an item without one is kept for every target.

use vstd::prelude::*;

use crate::api::ast::{Directive, DirectiveV, Ident, Item, ItemV};
use crate::error_handle;
use crate::error_handle::{tag_error, ErrorV, LakeError};
use crate::loader::{ModuleV, ParsedModule, ParsedProgram};
use crate::order::{picks, picks_no_more, picks_one_more};
use crate::span::{SimpleSpan, Spanned};
use crate::text::{cat3, same, Text};

verus! {

/// The target that `@cfg(arch="...")` predicates are matched against.
#[derive(Debug, Clone, Copy, PartialEq, Eq)]
pub struct CfgTarget<'a> {
    pub arch: &'a str,
}

impl<'a> CfgTarget<'a> {
    pub fn new(arch: &'a str) -> (r: CfgTarget<'a>)
        ensures
            r.arch == arch,
    {
        CfgTarget { arch }
    }
}

/// Whether an item is a `@cfg` directive.
pub open spec fn is_cfg(item: ItemV) -> bool {
    match item {
        ItemV::Directive(d) => d.inner.name.inner == "cfg"@,
        _ => false,
    }
}

/// A diagnostic of this pass.
pub open spec fn cfg_error(message: Text, span: SimpleSpan, help: Text) -> ErrorV {
    ErrorV {
        code: Some("E041"@),
        help: Some(help),
        ..error_handle::plain_error(message, span)
    }
}

/// A `@cfg` without arguments.
pub open spec fn malformed_error(d: DirectiveV) -> ErrorV {
    cfg_error(
        "malformed `@cfg`: `@cfg` requires a key, e.g. `@cfg(arch=\"x86_64\")`"@,
        d.name.span,
        "use `@cfg(arch=\"x86_64\")` or `@cfg(arch=\"aarch64\")`"@,
    )
}

/// A `@cfg` with a key other than `arch`.
pub open spec fn unknown_key_error(key: Spanned<Text>) -> ErrorV {
    cfg_error(
        "unknown `@cfg` key `"@ + key.inner + "`"@,
        key.span,
        "the only supported `@cfg` key is `arch`"@,
    )
}

/// A `@cfg` that no item follows.
pub open spec fn dangling_error(span: SimpleSpan) -> ErrorV {
    cfg_error(
        "`@cfg` is not attached to an item"@,
        span,
        "place `@cfg(arch=\"...\")` immediately before a const or machine"@,
    )
}

/// What a `@cfg` says about the item behind it.
pub enum Verdict {
    Keep,
    Drop,
    Wrong(ErrorV),
}

/// The first key from `i` on that is not `arch`.
pub open spec fn bad_key(kv: Seq<(Spanned<Text>, Spanned<Text>)>, i: nat) -> Option<Spanned<Text>>
    decreases kv.len() - i,
{
    if i >= kv.len() {
        None
    } else if kv[i as int].0.inner != "arch"@ {
        Some(kv[i as int].0)
    } else {
        bad_key(kv, i + 1)
    }
}

/// A `@cfg` needs arguments, all of them with the key `arch`; it keeps the
/// item if one of the values is the target.
pub open spec fn verdict(d: DirectiveV, arch: Text) -> Verdict {
    if d.kv_args.len() == 0 {
        Verdict::Wrong(malformed_error(d))
    } else {
        match bad_key(d.kv_args, 0) {
            Some(key) => Verdict::Wrong(unknown_key_error(key)),
            None => if exists|i: int|
                0 <= i < d.kv_args.len() && (#[trigger] d.kv_args[i]).1.inner == arch {
                Verdict::Keep
            } else {
                Verdict::Drop
            },
        }
    }
}

/// What is left of the items from `i` on, and the complaints about them,
/// where `pending` is the `@cfg` just before them.  An item behind a wrong
/// `@cfg` is kept.
pub open spec fn filtered(
    items: Seq<Spanned<ItemV>>,
    i: nat,
    pending: Option<Spanned<ItemV>>,
    arch: Text,
) -> (Seq<Spanned<ItemV>>, Seq<ErrorV>)
    decreases items.len() - i,
{
    if i >= items.len() {
        (Seq::empty(), dangling(pending))
    } else {
        let item = items[i as int];
        if is_cfg(item.inner) {
            let rest = filtered(items, i + 1, Some(item), arch);
            (rest.0, dangling(pending) + rest.1)
        } else {
            let rest = filtered(items, i + 1, None, arch);
            match pending_verdict(pending, arch) {
                Verdict::Keep => (seq![item] + rest.0, rest.1),
                Verdict::Drop => rest,
                Verdict::Wrong(e) => (seq![item] + rest.0, seq![e] + rest.1),
            }
        }
    }
}

/// The complaint about a `@cfg` that no item follows.
pub open spec fn dangling(pending: Option<Spanned<ItemV>>) -> Seq<ErrorV> {
    match pending {
        Some(prev) => seq![dangling_error(prev.span)],
        None => Seq::empty(),
    }
}

/// What the `@cfg` before an item says about it.
pub open spec fn pending_verdict(pending: Option<Spanned<ItemV>>, arch: Text) -> Verdict {
    match pending {
        Some(cfg) => match cfg.inner {
            ItemV::Directive(d) => verdict(d.inner, arch),
            _ => Verdict::Keep,
        },
        None => Verdict::Keep,
    }
}

fn new_error(message: &str, span: SimpleSpan, help: &str) -> (r: LakeError)
    ensures
        r.deep_view() == cfg_error(message@, span, help@),
{
    LakeError::new(message, span).code("E041").help(help)
}

fn unknown_key(key: &Spanned<Ident>) -> (r: LakeError)
    ensures
        r.deep_view() == unknown_key_error(key.deep_view()),
{
    let message = cat3("unknown `@cfg` key `", key.inner.as_str(), "`");
    new_error(message.as_str(), key.span, "the only supported `@cfg` key is `arch`")
}

fn dangling_cfg(span: SimpleSpan) -> (r: LakeError)
    ensures
        r.deep_view() == dangling_error(span),
{
    new_error(
        "`@cfg` is not attached to an item",
        span,
        "place `@cfg(arch=\"...\")` immediately before a const or machine",
    )
}

/// Whether the item behind a `@cfg` is kept, or what is wrong with the
/// `@cfg`.
pub fn eval_cfg(d: &Directive, target: &str) -> (r: Result<bool, LakeError>)
    ensures
        match r {
            Ok(true) => verdict(d.deep_view(), target@) is Keep,
            Ok(false) => verdict(d.deep_view(), target@) is Drop,
            Err(e) => verdict(d.deep_view(), target@) == Verdict::Wrong(e.deep_view()),
        },
{
    let ghost kv = d.deep_view().kv_args;
    if d.kv_args.len() == 0 {
        return Err(
            new_error(
                "malformed `@cfg`: `@cfg` requires a key, e.g. `@cfg(arch=\"x86_64\")`",
                d.name.span,
                "use `@cfg(arch=\"x86_64\")` or `@cfg(arch=\"aarch64\")`",
            ),
        );
    }
    let mut hit: bool = false;
    let mut i: usize = 0;
    while i < d.kv_args.len()
        invariant
            i <= d.kv_args@.len(),
            kv == d.deep_view().kv_args,
            kv.len() == d.kv_args@.len(),
            kv.len() > 0,
            bad_key(kv, 0) == bad_key(kv, i as nat),
            hit == (exists|j: int| 0 <= j < i && (#[trigger] kv[j]).1.inner == target@),
        decreases d.kv_args@.len() - i,
    {
        let key = &d.kv_args[i].0;
        proof {
            assert(kv[i as int].0 == key.deep_view());
            assert(kv[i as int].1.inner == d.kv_args@[i as int].1.inner@);
        }
        if !same(key.inner.as_str(), "arch") {
            return Err(unknown_key(key));
        }
        if same(d.kv_args[i].1.inner.as_str(), target) {
            hit = true;
        }
        i = i + 1;
    }
    Ok(hit)
}

fn is_cfg_item(item: &Item) -> (r: bool)
    ensures
        r == is_cfg(item.deep_view()),
{
    match item {
        Item::Directive(d) => same(d.inner.name.inner.as_str(), "cfg"),
        _ => false,
    }
}

fn judge(pending: &Option<Spanned<Item>>, arch: &str) -> (r: Result<bool, LakeError>)
    ensures
        match r {
            Ok(true) => pending_verdict(pending.deep_view(), arch@) is Keep,
            Ok(false) => pending_verdict(pending.deep_view(), arch@) is Drop,
            Err(e) => pending_verdict(pending.deep_view(), arch@) == Verdict::Wrong(e.deep_view()),
        },
{
    match pending {
        Some(cfg) => match &cfg.inner {
            Item::Directive(d) => eval_cfg(&d.inner, arch),
            _ => Ok(true),
        },
        None => Ok(true),
    }
}

/// Filters the items of one module against a target.
pub fn filter_items(items: Vec<Spanned<Item>>, target: CfgTarget<'_>) -> (r: (
    Vec<Spanned<Item>>,
    Vec<LakeError>,
))
    ensures
        filtered(items.deep_view(), 0, None, target.arch@) == (r.0.deep_view(), r.1.deep_view()),
{
    let arch = target.arch;
    let ghost all = items.deep_view();
    let ghost list = items@;
    let mut out: Vec<Spanned<Item>> = Vec::new();
    let mut errors: Vec<LakeError> = Vec::new();
    let mut pending: Option<Spanned<Item>> = None;
    proof {
        let rest = filtered(all, 0, None, arch@);
        assert(out.deep_view() + rest.0 =~= rest.0);
        assert(errors.deep_view() + rest.1 =~= rest.1);
    }
    for item in it: items
        invariant
            it.seq() == list,
            all.len() == list.len(),
            forall|j: int| 0 <= j < list.len() ==> all[j] == (#[trigger] list[j]).deep_view(),
            filtered(all, 0, None, arch@).0 == out.deep_view() + filtered(
                all,
                it.index() as nat,
                pending.deep_view(),
                arch@,
            ).0,
            filtered(all, 0, None, arch@).1 == errors.deep_view() + filtered(
                all,
                it.index() as nat,
                pending.deep_view(),
                arch@,
            ).1,
    {
        let ghost k = it.index() as nat;
        let ghost was = pending.deep_view();
        let ghost kept = out.deep_view();
        let ghost told = errors.deep_view();
        let ghost one = item.deep_view();
        proof {
            assert(all[k as int] == one);
        }
        if is_cfg_item(&item.inner) {
            if let Some(prev) = &pending {
                errors.push(dangling_cfg(prev.span));
            }
            proof {
                assert(errors.deep_view() =~= told + dangling(was));
                let rest = filtered(all, k + 1, Some(one), arch@);
                assert(told + (dangling(was) + rest.1) =~= errors.deep_view() + rest.1);
            }
            pending = Some(item);
        } else {
            let ghost rest = filtered(all, k + 1, None, arch@);
            match judge(&pending, arch) {
                Ok(true) => {
                    out.push(item);
                    proof {
                        assert(out.deep_view() =~= kept.push(one));
                        assert(kept + (seq![one] + rest.0) =~= out.deep_view() + rest.0);
                    }
                },
                Ok(false) => {},
                Err(e) => {
                    let ghost ev = e.deep_view();
                    errors.push(e);
                    out.push(item);
                    proof {
                        assert(out.deep_view() =~= kept.push(one));
                        assert(kept + (seq![one] + rest.0) =~= out.deep_view() + rest.0);
                        assert(errors.deep_view() =~= told.push(ev));
                        assert(told + (seq![ev] + rest.1) =~= errors.deep_view() + rest.1);
                    }
                },
            }
            pending = None;
        }
    }
    let ghost told = errors.deep_view();
    if let Some(prev) = &pending {
        errors.push(dangling_cfg(prev.span));
    }
    proof {
        assert(errors.deep_view() =~= told + dangling(pending.deep_view()));
        assert(out.deep_view() + Seq::<Spanned<ItemV>>::empty() =~= out.deep_view());
    }
    (out, errors)
}

/// The first `n` modules of a program, each filtered, and the complaints
/// about them, each with the file it is about.
pub open spec fn filtered_modules(mods: Seq<ModuleV>, n: nat, arch: Text) -> (
    Seq<ModuleV>,
    Seq<ErrorV>,
)
    decreases n,
{
    if n == 0 {
        (Seq::empty(), Seq::empty())
    } else {
        let before = filtered_modules(mods, (n - 1) as nat, arch);
        let m = mods[n - 1];
        let (kept, errs) = filtered(m.ast, 0, None, arch);
        (
            before.0.push(ModuleV { ast: kept, ..m }),
            before.1 + error_handle::tagged_all(errs, m.source_path),
        )
    }
}

/// Filters every module of a program against a target.
pub fn filter_program(program: ParsedProgram, target: CfgTarget<'_>) -> (r: (
    ParsedProgram,
    Vec<LakeError>,
))
    ensures
        filtered_modules(program.deep_view(), program.deep_view().len(), target.arch@) == (
            r.0.deep_view(),
            r.1.deep_view(),
        ),
{
    let ghost mods = program.deep_view();
    let ghost list = program.modules@;
    let mut modules: Vec<ParsedModule> = Vec::new();
    let mut errors: Vec<LakeError> = Vec::new();
    proof {
        assert(modules.deep_view() =~= Seq::empty());
        assert(errors.deep_view() =~= Seq::empty());
    }
    for m in it: program.modules
        invariant
            it.seq() == list,
            mods.len() == list.len(),
            forall|j: int| 0 <= j < list.len() ==> mods[j] == (#[trigger] list[j]).deep_view(),
            filtered_modules(mods, it.index() as nat, target.arch@) == (
                modules.deep_view(),
                errors.deep_view(),
            ),
    {
        let ghost k = it.index() as nat;
        let ghost done = modules.deep_view();
        let ghost told = errors.deep_view();
        let ghost mv = m.deep_view();
        proof {
            assert(mods[k as int] == mv);
        }
        let (kept, errs) = filter_items(m.ast, target);
        let ghost evs = errs.deep_view();
        let path = m.source_path;
        let mut tagged = tag_all(errs, path.as_str());
        let ghost tv = tagged.deep_view();
        let ghost tlist = tagged@;
        errors.append(&mut tagged);
        proof {
            assert(errors.deep_view() =~= told + tv);
        }
        modules.push(ParsedModule { path: m.path, source_path: path, ast: kept });
        proof {
            assert(modules.deep_view() =~= done.push(
                ModuleV { ast: filtered(mv.ast, 0, None, target.arch@).0, ..mv },
            ));
        }
    }
    (ParsedProgram { modules }, errors)
}

fn tag_all(errs: Vec<LakeError>, path: &str) -> (r: Vec<LakeError>)
    ensures
        r.deep_view() == error_handle::tagged_all(errs.deep_view(), path@),
{
    let ghost list = errs@;
    let mut out: Vec<LakeError> = Vec::new();
    for e in it: errs
        invariant
            it.seq() == list,
            out@.len() == it.index(),
            forall|j: int|
                0 <= j < it.index() ==> (#[trigger] out@[j]).deep_view() == error_handle::tagged(
                    list[j].deep_view(),
                    path@,
                ),
    {
        out.push(tag_error(e, path));
    }
    proof {
        assert(out.deep_view() =~= error_handle::tagged_all(errs.deep_view(), path@));
    }
    out
}

/// Whether there is no `@cfg` among the items from `i` on.
pub open spec fn no_cfg(items: Seq<Spanned<ItemV>>) -> bool {
    forall|j: int| 0 <= j < items.len() ==> !is_cfg((#[trigger] items[j]).inner)
}

/// Items without a `@cfg` are kept for every target, in their order and
/// without complaint.
pub proof fn unconditional_items_are_kept(items: Seq<Spanned<ItemV>>, arch: Text)
    requires
        no_cfg(items),
    ensures
        filtered(items, 0, None, arch) == (items, Seq::<ErrorV>::empty()),
{
    kept_from(items, 0, arch);
    assert(items.skip(0) =~= items);
}

proof fn kept_from(items: Seq<Spanned<ItemV>>, i: nat, arch: Text)
    requires
        no_cfg(items),
        i <= items.len(),
    ensures
        filtered(items, i, None, arch) == (items.skip(i as int), Seq::<ErrorV>::empty()),
    decreases items.len() - i,
{
    if i < items.len() {
        kept_from(items, i + 1, arch);
        assert(seq![items[i as int]] + items.skip((i + 1) as int) =~= items.skip(i as int));
    } else {
        assert(items.skip(i as int) =~= Seq::empty());
    }
}

/// No `@cfg` survives the filter.
pub proof fn no_cfg_is_left(
    items: Seq<Spanned<ItemV>>,
    i: nat,
    pending: Option<Spanned<ItemV>>,
    arch: Text,
)
    ensures
        no_cfg(filtered(items, i, pending, arch).0),
    decreases items.len() - i,
{
    if i < items.len() {
        let item = items[i as int];
        if is_cfg(item.inner) {
            no_cfg_is_left(items, i + 1, Some(item), arch);
        } else {
            no_cfg_is_left(items, i + 1, None, arch);
        }
    }
}

/// Filtering again, for whatever target, changes nothing.
pub proof fn filtering_twice_is_filtering_once(
    items: Seq<Spanned<ItemV>>,
    arch: Text,
    again: Text,
)
    ensures
        filtered(filtered(items, 0, None, arch).0, 0, None, again) == (
            filtered(items, 0, None, arch).0,
            Seq::<ErrorV>::empty(),
        ),
{
    no_cfg_is_left(items, 0, None, arch);
    unconditional_items_are_kept(filtered(items, 0, None, arch).0, again);
}

// ── what is kept ───────────────────────────────────────────────────────────

/// Whether the item at `i` is `@cfg`, with pairs `kv`.
pub open spec fn asks(
    items: Seq<Spanned<ItemV>>,
    i: int,
    kv: Seq<(Spanned<Text>, Spanned<Text>)>,
) -> bool {
    0 <= i < items.len() && match items[i].inner {
        ItemV::Directive(d) => d.inner.name.inner == "cfg"@ && d.inner.kv_args == kv,
        _ => false,
    }
}

/// Whether the item at `i` is `@cfg`.
pub open spec fn asks_something(items: Seq<Spanned<ItemV>>, i: int) -> bool {
    exists|kv: Seq<(Spanned<Text>, Spanned<Text>)>| asks(items, i, kv)
}

/// Whether pairs are some, and all about `arch`.
pub open spec fn about_arch(kv: Seq<(Spanned<Text>, Spanned<Text>)>) -> bool {
    kv.len() > 0 && forall|n: int| 0 <= n < kv.len() ==> (#[trigger] kv[n]).0.inner == "arch"@
}

/// Whether one of the pairs names the target.
pub open spec fn names_target(kv: Seq<(Spanned<Text>, Spanned<Text>)>, arch: Text) -> bool {
    exists|n: int| 0 <= n < kv.len() && (#[trigger] kv[n]).1.inner == arch
}

/// Whether the item at `i` belongs into a program for a target: it is no
/// `@cfg`, and if it stands behind one that asks for architectures, the
/// target is among them.
pub open spec fn belongs(items: Seq<Spanned<ItemV>>, i: int, arch: Text) -> bool {
    &&& 0 <= i < items.len()
    &&& !asks_something(items, i)
    &&& forall|kv: Seq<(Spanned<Text>, Spanned<Text>)>|
        #[trigger] asks(items, i - 1, kv) && about_arch(kv) ==> names_target(kv, arch)
}

/// Whether there is something wrong with the `@cfg` at `i`: no item follows,
/// or it has no pairs, or one that is not about `arch`.
pub open spec fn is_wrong(items: Seq<Spanned<ItemV>>, i: int) -> bool {
    exists|kv: Seq<(Spanned<Text>, Spanned<Text>)>|
        #[trigger] asks(items, i, kv) && (i + 1 >= items.len() || asks_something(items, i + 1)
            || !about_arch(kv))
}

/// Which items belong into a program for a target, by their places.
pub open spec fn belonging(items: Seq<Spanned<ItemV>>, arch: Text) -> spec_fn(int) -> bool {
    |i: int| belongs(items, i, arch)
}

/// Which `@cfg`s are wrong, by their places.
pub open spec fn wrong_ones(items: Seq<Spanned<ItemV>>) -> spec_fn(int) -> bool {
    |i: int| is_wrong(items, i)
}

/// Whether `e` is about the wrong `@cfg` at `i`, at its place.
pub open spec fn is_about(items: Seq<Spanned<ItemV>>, i: int, e: ErrorV) -> bool {
    &&& e.code == Some("E041"@)
    &&& 0 <= i < items.len()
    &&& match items[i].inner {
        ItemV::Directive(d) => {
            if i + 1 >= items.len() || asks_something(items, i + 1) {
                e.span == items[i].span
            } else if d.inner.kv_args.len() == 0 {
                e.span == d.inner.name.span
            } else {
                exists|n: int|
                    {
                        &&& 0 <= n < d.inner.kv_args.len()
                        &&& (#[trigger] d.inner.kv_args[n]).0.inner != "arch"@
                        &&& forall|m: int|
                            0 <= m < n ==> (#[trigger] d.inner.kv_args[m]).0.inner == "arch"@
                        &&& e.span == d.inner.kv_args[n].0.span
                    }
            }
        },
        _ => false,
    }
}

proof fn no_bad_key(kv: Seq<(Spanned<Text>, Spanned<Text>)>, i: nat)
    ensures
        match bad_key(kv, i) {
            Some(key) => exists|n: int|
                {
                    &&& i <= n < kv.len()
                    &&& (#[trigger] kv[n]).0.inner != "arch"@
                    &&& forall|m: int| i <= m < n ==> (#[trigger] kv[m]).0.inner == "arch"@
                    &&& key == kv[n].0
                },
            None => forall|n: int| i <= n < kv.len() ==> (#[trigger] kv[n]).0.inner == "arch"@,
        },
    decreases kv.len() - i,
{
    if i < kv.len() && kv[i as int].0.inner == "arch"@ {
        no_bad_key(kv, i + 1);
    }
}

/// The `@cfg` just before the item at `i`.
spec fn before(items: Seq<Spanned<ItemV>>, i: nat) -> Option<Spanned<ItemV>> {
    if 0 < i <= items.len() && is_cfg(items[i - 1].inner) {
        Some(items[i - 1])
    } else {
        None
    }
}

/// From where on complaints come once the items before `i` are done: that
/// about the `@cfg` just before `i` is still to come.
spec fn wrong_from(items: Seq<Spanned<ItemV>>, i: nat) -> int {
    if before(items, i) is Some {
        i - 1
    } else {
        i as int
    }
}

proof fn cfgs(items: Seq<Spanned<ItemV>>, i: int)
    requires
        0 <= i < items.len(),
    ensures
        asks_something(items, i) == is_cfg(items[i].inner),
        is_cfg(items[i].inner) ==> asks(items, i, items[i].inner->Directive_0.inner.kv_args),
{
    if let ItemV::Directive(d) = items[i].inner {
        if d.inner.name.inner == "cfg"@ {
            assert(asks(items, i, d.inner.kv_args));
        }
    }
}

proof fn kept_and_told(items: Seq<Spanned<ItemV>>, i: nat, arch: Text) -> (r: (
    Seq<int>,
    Seq<int>,
))
    requires
        i <= items.len(),
    ensures
        ({
            let (kept, errs) = filtered(items, i, before(items, i), arch);
            &&& picks(r.0, i as int, items.len(), belonging(items, arch))
            &&& kept.len() == r.0.len()
            &&& forall|k: int| 0 <= k < kept.len() ==> #[trigger] kept[k] == items[r.0[k]]
            &&& picks(r.1, wrong_from(items, i), items.len(), wrong_ones(items))
            &&& errs.len() == r.1.len()
            &&& forall|k: int| 0 <= k < errs.len() ==> is_about(items, r.1[k], #[trigger] errs[k])
        }),
    decreases items.len() - i,
{
    let p = belonging(items, arch);
    let q = wrong_ones(items);
    let pending = before(items, i);
    let (kept, errs) = filtered(items, i, pending, arch);
    if i > 0 {
        cfgs(items, i - 1);
    }
    if i >= items.len() {
        assert(forall|kv: Seq<(Spanned<Text>, Spanned<Text>)>| !asks(items, i as int, kv));
        if pending is Some {
            let kv = items[i - 1].inner->Directive_0.inner.kv_args;
            assert(asks(items, i - 1, kv));
            assert(q(i - 1));
            let none = Seq::<int>::empty();
            picks_one_more(none, i - 1, items.len(), q);
            assert(seq![i - 1] + none =~= seq![i - 1]);
            (none, seq![i - 1])
        } else {
            (Seq::empty(), Seq::empty())
        }
    } else {
        let item = items[i as int];
        cfgs(items, i as int);
        let (at, wrong) = kept_and_told(items, i + 1, arch);
        let (more, told) = filtered(items, i + 1, before(items, i + 1), arch);
        let first = wrong_from(items, i);
        if is_cfg(item.inner) {
            assert(!p(i as int));
            picks_no_more(at, i as int, items.len(), p);
            if pending is Some {
                let kv = items[i - 1].inner->Directive_0.inner.kv_args;
                assert(asks(items, i - 1, kv));
                assert(q(i - 1));
                picks_one_more(wrong, i - 1, items.len(), q);
                (at, seq![i - 1] + wrong)
            } else {
                assert(errs =~= told);
                (at, wrong)
            }
        } else {
            assert(!q(i as int));
            picks_no_more(wrong, i as int, items.len(), q);
            if pending is Some {
                let d = items[i - 1].inner->Directive_0.inner;
                let kv = d.kv_args;
                no_bad_key(kv, 0);
                assert(asks(items, i - 1, kv));
                assert(forall|o: Seq<(Spanned<Text>, Spanned<Text>)>|
                    #[trigger] asks(items, i - 1, o) ==> o == kv);
                match verdict(d, arch) {
                    Verdict::Keep => {
                        assert(about_arch(kv));
                        assert(names_target(kv, arch));
                        assert(p(i as int));
                        assert(!q(i - 1));
                        picks_one_more(at, i as int, items.len(), p);
                        picks_no_more(wrong, i - 1, items.len(), q);
                        (seq![i as int] + at, wrong)
                    },
                    Verdict::Drop => {
                        assert(about_arch(kv));
                        assert(!names_target(kv, arch));
                        assert(!p(i as int));
                        assert(!q(i - 1));
                        picks_no_more(at, i as int, items.len(), p);
                        picks_no_more(wrong, i - 1, items.len(), q);
                        (at, wrong)
                    },
                    Verdict::Wrong(e) => {
                        assert(!about_arch(kv)) by {
                            if kv.len() > 0 {
                                let n = choose|n: int|
                                    0 <= n < kv.len() && (#[trigger] kv[n]).0.inner != "arch"@;
                                assert(kv[n].0.inner != "arch"@);
                            }
                        }
                        assert(p(i as int));
                        assert(q(i - 1));
                        assert(is_about(items, i - 1, e));
                        picks_one_more(at, i as int, items.len(), p);
                        picks_one_more(wrong, i - 1, items.len(), q);
                        (seq![i as int] + at, seq![i - 1] + wrong)
                    },
                }
            } else {
                assert forall|o: Seq<(Spanned<Text>, Spanned<Text>)>| #[trigger] asks(
                    items,
                    i - 1,
                    o,
                ) implies false by {
                    assert(asks_something(items, i - 1));
                }
                assert(p(i as int));
                picks_one_more(at, i as int, items.len(), p);
                (seq![i as int] + at, wrong)
            }
        }
    }
}

/// What is left for a target are exactly the items that belong to it, as they
/// are and in their order; and exactly the wrong `@cfg`s are complained
/// about, each at its place.
pub proof fn what_belongs_is_kept(items: Seq<Spanned<ItemV>>, arch: Text)
    ensures
        ({
            let (kept, errs) = filtered(items, 0, None, arch);
            &&& exists|at: Seq<int>|
                {
                    &&& #[trigger] picks(at, 0, items.len(), belonging(items, arch))
                    &&& kept.len() == at.len()
                    &&& forall|k: int| 0 <= k < kept.len() ==> #[trigger] kept[k] == items[at[k]]
                }
            &&& exists|at: Seq<int>|
                {
                    &&& #[trigger] picks(at, 0, items.len(), wrong_ones(items))
                    &&& errs.len() == at.len()
                    &&& forall|k: int|
                        0 <= k < errs.len() ==> is_about(items, at[k], #[trigger] errs[k])
                }
        }),
{
    let r = kept_and_told(items, 0, arch);
}

} // verus!
