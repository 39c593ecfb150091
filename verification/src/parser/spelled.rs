//! How items are written: which tokens an item stands for.

use vstd::prelude::*;

use crate::api::ast::{
    BranchV, ConstDeclV, DirectiveV, FieldV, ImportV, ItemV, MachineItemV, MachineV, MethodSigV,
    PatternKindV, PatternV, RecordDeclV, RecordFieldV, TypeV, VariantPayloadV, VariantV,
};
use crate::api::expr;
use crate::api::expr::Head;
use crate::api::token::{Bracket, Sign, TokenV};
use crate::parser;
use crate::parser::branch;
use crate::parser::const_item;
use crate::parser::directive;
use crate::parser::directive::KvRule;
use crate::parser::enum_decl;
use crate::parser::enum_decl::{PayloadField, VariantRule};
use crate::parser::expr::spelled;
use crate::parser::expr::spelled::{are_cuts, is_name, is_sign, over, Cuts};
use crate::parser::expr::{grammar, type_expr};
use crate::parser::helpers;
use crate::parser::helpers::{BoundElem, BoundTokV, Rule, Toks};
use crate::parser::import;
use crate::parser::import::{DotName, EntryRule};
use crate::parser::machine;
use crate::parser::machine::field_decl;
use crate::parser::machine::ItemRule;
use crate::parser::pattern;
use crate::parser::pattern::{PatternRule, WaitPatternRule};
use crate::parser::proto;
use crate::parser::proto::{MethodRule, ParentRule};
use crate::parser::record;
use crate::parser::record::FieldRule;
use crate::parser::TopItem;
use crate::span::Spanned;
use crate::text::Text;

verus! {

// ── rows ───────────────────────────────────────────────────────────────────

/// Whether the tokens from `i` up to `j` spell things of one kind, one behind
/// the other; `rel` says which tokens spell one of them.
pub open spec fn row<V>(
    ts: Toks,
    i: int,
    j: int,
    xs: Seq<V>,
    rel: spec_fn(Toks, int, int, V) -> bool,
) -> bool {
    exists|at: Cuts|
        {
            &&& #[trigger] are_cuts(at, xs.len(), i, j)
            &&& forall|n: int|
                0 <= n < xs.len() ==> rel(ts, at.starts[n], at.ends[n], #[trigger] xs[n])
        }
}

proof fn one_more<V>(
    ts: Toks,
    i: int,
    k: int,
    j: int,
    x: V,
    rest: Seq<V>,
    rel: spec_fn(Toks, int, int, V) -> bool,
)
    requires
        i < k <= j,
        rel(ts, i, k, x),
        row(ts, k, j, rest, rel),
    ensures
        row(ts, i, j, seq![x] + rest, rel),
{
    let at = choose|at: Cuts|
        {
            &&& #[trigger] are_cuts(at, rest.len(), k, j)
            &&& forall|n: int|
                0 <= n < rest.len() ==> rel(ts, at.starts[n], at.ends[n], #[trigger] rest[n])
        };
    let all = seq![x] + rest;
    let more = Cuts { starts: seq![i] + at.starts, ends: seq![k] + at.ends };
    if rest.len() > 0 {
        assert(more.ends[all.len() - 1] == at.ends[rest.len() - 1]);
    }
    assert forall|m: int| 0 <= m < all.len() implies i <= #[trigger] more.starts[m] < more.ends[m]
        <= j by {
        if m > 0 {
            assert(more.starts[m] == at.starts[m - 1]);
            assert(more.ends[m] == at.ends[m - 1]);
        }
    }
    assert forall|m: int| 0 < m < all.len() implies #[trigger] more.starts[m] == more.ends[m - 1] by {
        assert(more.starts[m] == at.starts[m - 1]);
        if m > 1 {
            assert(more.ends[m - 1] == at.ends[m - 2]);
        }
    }
    assert(are_cuts(more, all.len(), i, j));
    assert forall|n: int| 0 <= n < all.len() implies rel(
        ts,
        more.starts[n],
        more.ends[n],
        #[trigger] all[n],
    ) by {
        if n > 0 {
            assert(all[n] == rest[n - 1]);
            assert(more.starts[n] == at.starts[n - 1]);
            assert(more.ends[n] == at.ends[n - 1]);
        }
    }
}

proof fn none<V>(ts: Toks, i: int, rel: spec_fn(Toks, int, int, V) -> bool)
    ensures
        row(ts, i, i, Seq::<V>::empty(), rel),
{
    let at = Cuts { starts: Seq::empty(), ends: Seq::empty() };
    assert(are_cuts(at, Seq::<V>::empty().len(), i, i));
}

/// Whether what a rule reads is what `rel` says.
spec fn reads<R: Rule>(
    ts: Toks,
    rel: spec_fn(Toks, int, int, <R::Out as DeepView>::V) -> bool,
) -> bool {
    forall|k: nat|
        match #[trigger] R::at(ts, k) {
            Some((x, j)) => k < j <= ts.len() ==> rel(ts, k as int, j as int, x),
            None => true,
        }
}

proof fn many_are_a_row<R: Rule>(
    ts: Toks,
    i: nat,
    rel: spec_fn(Toks, int, int, <R::Out as DeepView>::V) -> bool,
)
    requires
        i <= ts.len(),
        reads::<R>(ts, rel),
    ensures
        i <= helpers::many::<R>(ts, i).1 <= ts.len(),
        row(ts, i as int, helpers::many::<R>(ts, i).1 as int, helpers::many::<R>(ts, i).0, rel),
    decreases ts.len() - i,
{
    let found = match R::at(ts, i) {
        Some((x, j)) => i < j <= ts.len(),
        None => false,
    };
    if found {
        let (x, j) = R::at(ts, i)->0;
        many_are_a_row::<R>(ts, j, rel);
        let rest = helpers::many::<R>(ts, j);
        one_more(ts, i as int, j as int, rest.1 as int, x, rest.0, rel);
    } else {
        none(ts, i as int, rel);
    }
}

/// A group whose tokens are a row.
pub open spec fn group_row<V>(
    ts: Toks,
    k: int,
    kind: Bracket,
    xs: Seq<V>,
    rel: spec_fn(Toks, int, int, V) -> bool,
) -> bool {
    0 <= k < ts.len() && match ts[k].inner {
        TokenV::Group(b, inside) => b == kind && row(inside, 0, inside.len() as int, xs, rel),
        _ => false,
    }
}

/// Names, one behind the other.
pub open spec fn names() -> spec_fn(Toks, int, int, Spanned<Text>) -> bool {
    |ts: Toks, i: int, j: int, x: Spanned<Text>| j == i + 1 && is_name(ts, i, x)
}

/// Names, each behind a sign.
pub open spec fn names_behind(s: Sign) -> spec_fn(Toks, int, int, Spanned<Text>) -> bool {
    |ts: Toks, i: int, j: int, x: Spanned<Text>|
        j == i + 2 && is_sign(ts, i, s) && is_name(ts, i + 1, x)
}

/// Types, one behind the other.
pub open spec fn types() -> spec_fn(Toks, int, int, Spanned<TypeV>) -> bool {
    |ts: Toks, i: int, j: int, x: Spanned<TypeV>| spelled::spells_type(ts, i, j, x)
}

proof fn names_are_a_row(ts: Toks, i: nat)
    requires
        i <= ts.len(),
    ensures
        i <= helpers::idents_from(ts, i).1 <= ts.len(),
        row(
            ts,
            i as int,
            helpers::idents_from(ts, i).1 as int,
            helpers::idents_from(ts, i).0,
            names(),
        ),
    decreases ts.len() - i,
{
    if helpers::ident_in(ts, i) is Some {
        names_are_a_row(ts, i + 1);
        let rest = helpers::idents_from(ts, i + 1);
        one_more(
            ts,
            i as int,
            (i + 1) as int,
            rest.1 as int,
            helpers::ident_in(ts, i)->0,
            rest.0,
            names(),
        );
    } else {
        none(ts, i as int, names());
    }
}

proof fn types_are_a_row(ts: Toks, i: nat)
    requires
        i <= ts.len(),
    ensures
        i <= type_expr::types_from(ts, i).1 <= ts.len(),
        row(
            ts,
            i as int,
            type_expr::types_from(ts, i).1 as int,
            type_expr::types_from(ts, i).0,
            types(),
        ),
    decreases ts.len() - i,
{
    spelled::types_say_what_stands(ts, i);
    if let Some((t, j)) = type_expr::type_at(ts, i) {
        types_are_a_row(ts, j);
        let rest = type_expr::types_from(ts, j);
        one_more(ts, i as int, j as int, rest.1 as int, t, rest.0, types());
    } else {
        none(ts, i as int, types());
    }
}

// ── patterns ───────────────────────────────────────────────────────────────

/// What a name or number in a pattern stands for: `_` for anything, a number
/// for itself, another name for what it binds.
pub open spec fn name_kind(name: Text, kind: PatternKindV) -> bool {
    match kind {
        PatternKindV::Wildcard => name == "_"@,
        PatternKindV::NumGuard(n) => expr::int_literal(name) == Some(n) && name != "_"@,
        PatternKindV::Var => expr::int_literal(name) is None && name != "_"@,
        _ => false,
    }
}

/// Whether the token at `k` is this name or number, at its place.
pub open spec fn is_name_or_number(ts: Toks, k: int, name: Spanned<Text>) -> bool {
    &&& 0 <= k < ts.len()
    &&& ts[k].span == name.span
    &&& ts[k].inner == TokenV::Ident(name.inner) || ts[k].inner == TokenV::Num(name.inner)
}

/// Whether the tokens from `i` up to `j` spell a pattern without a type.
pub open spec fn spells_untyped(ts: Toks, i: int, j: int, p: Spanned<PatternV>) -> bool
    decreases ts,
{
    let q = p.inner;
    &&& 0 <= i < j <= ts.len()
    &&& p.span == over(ts, i, j)
    &&& q.ty.inner is Unit
    &&& match q.kind {
        PatternKindV::AtomGuard(name) => j == i + 2 && is_sign(ts, i, Sign::Colon) && is_name(
            ts,
            i + 1,
            q.ident,
        ) && name == q.ident.inner,
        PatternKindV::Tuple(elems) => j == i + 1 && elems.len() > 0 && match ts[i].inner {
            TokenV::Group(kind, inside) => kind is Curly && exists|at: Cuts|
                {
                    &&& #[trigger] are_cuts(at, elems.len(), 0, inside.len() as int)
                    &&& forall|n: int|
                        0 <= n < elems.len() ==> spells_untyped(
                            inside,
                            at.starts[n],
                            at.ends[n],
                            #[trigger] elems[n],
                        )
                },
            _ => false,
        },
        kind => j == i + 1 && is_name_or_number(ts, i, q.ident) && name_kind(q.ident.inner, kind),
    }
}

pub open spec fn untyped() -> spec_fn(Toks, int, int, Spanned<PatternV>) -> bool {
    |ts: Toks, i: int, j: int, x: Spanned<PatternV>| spells_untyped(ts, i, j, x)
}

/// Whether the tokens from `i` up to `j` spell a name or number and then its
/// type, if there is one, or a string and then its type.
pub open spec fn spells_typed(ts: Toks, i: int, j: int, p: Spanned<PatternV>) -> bool {
    let q = p.inner;
    &&& 0 <= i < j <= ts.len()
    &&& p.span == over(ts, i, j)
    &&& match q.kind {
        PatternKindV::StrGuard(w) => ts[i].inner == TokenV::Str(w) && q.ident == (Spanned {
            inner: w,
            span: ts[i].span,
        }) && spelled::spells_type(ts, i + 1, j, q.ty),
        kind => {
            &&& is_name_or_number(ts, i, q.ident)
            &&& name_kind(q.ident.inner, kind)
            &&& if j == i + 1 {
                q.ty.inner is Unit
            } else {
                spelled::spells_type(ts, i + 1, j, q.ty)
            }
        },
    }
}

/// Whether the tokens from `i` up to `j` spell the parameter of a branch.
pub open spec fn spells_pattern(ts: Toks, i: int, j: int, p: Spanned<PatternV>) -> bool {
    match p.inner.kind {
        PatternKindV::AtomGuard(_) => spells_untyped(ts, i, j, p),
        PatternKindV::Tuple(_) => spells_untyped(ts, i, j, p),
        _ => spells_typed(ts, i, j, p),
    }
}

pub open spec fn patterns() -> spec_fn(Toks, int, int, Spanned<PatternV>) -> bool {
    |ts: Toks, i: int, j: int, x: Spanned<PatternV>| spells_pattern(ts, i, j, x)
}

proof fn untyped_is_spelled(ts: Toks, i: nat)
    ensures
        pattern::bare_at(ts, i) matches Some((p, j)) ==> i < j <= ts.len() && spells_untyped(
            ts,
            i as int,
            j as int,
            p,
        ),
    decreases ts, ts.len() - i, 1int,
{
    if pattern::atom_in(ts, i) is None {
        if let Some(inside) = helpers::braces_in(ts, i) {
            helpers::inside_is_smaller(ts, i);
            untypeds_are_spelled(inside, 0);
            if let Some(elems) = pattern::tuple_all(inside) {
                let at = choose|at: Cuts|
                    {
                        &&& #[trigger] are_cuts(at, elems.len(), 0, inside.len() as int)
                        &&& forall|n: int|
                            0 <= n < elems.len() ==> untyped()(
                                inside,
                                at.starts[n],
                                at.ends[n],
                                #[trigger] elems[n],
                            )
                    };
                assert(are_cuts(at, elems.len(), 0, inside.len() as int));
                assert forall|n: int| 0 <= n < elems.len() implies spells_untyped(
                    inside,
                    at.starts[n],
                    at.ends[n],
                    #[trigger] elems[n],
                ) by {
                    assert(untyped()(inside, at.starts[n], at.ends[n], elems[n]));
                }
            }
        }
    }
}

proof fn untypeds_are_spelled(ts: Toks, i: nat)
    requires
        i <= ts.len(),
    ensures
        i <= pattern::bares_from(ts, i).1 <= ts.len(),
        row(
            ts,
            i as int,
            pattern::bares_from(ts, i).1 as int,
            pattern::bares_from(ts, i).0,
            untyped(),
        ),
    decreases ts, ts.len() - i, 2int,
{
    untyped_is_spelled(ts, i);
    if let Some((p, j)) = pattern::bare_at(ts, i) {
        untypeds_are_spelled(ts, j);
        let rest = pattern::bares_from(ts, j);
        one_more(ts, i as int, j as int, rest.1 as int, p, rest.0, untyped());
    } else {
        none(ts, i as int, untyped());
    }
}

proof fn pattern_is_spelled(ts: Toks, i: nat)
    ensures
        pattern::pattern_at(ts, i) matches Some((p, j)) ==> i < j <= ts.len() && spells_pattern(
            ts,
            i as int,
            j as int,
            p,
        ),
        pattern::wait_pattern_at(ts, i) matches Some((p, j)) ==> i < j <= ts.len() && spells_typed(
            ts,
            i as int,
            j as int,
            p,
        ),
{
    untyped_is_spelled(ts, i);
    spelled::types_say_what_stands(ts, i + 1);
}

/// The parameters of a branch or a handler are the tokens they are read from,
/// in order.
pub proof fn patterns_say_what_stands(ts: Toks, i: nat)
    requires
        i <= ts.len(),
    ensures
        ({
            let (ps, j) = helpers::many::<PatternRule>(ts, i);
            i <= j <= ts.len() && row(ts, i as int, j as int, ps, patterns())
        }),
        ({
            let (ps, j) = helpers::many::<WaitPatternRule>(ts, i);
            i <= j <= ts.len() && row(
                ts,
                i as int,
                j as int,
                ps,
                |t: Toks, a: int, b: int, x: Spanned<PatternV>| spells_typed(t, a, b, x),
            )
        }),
{
    let typed = |t: Toks, a: int, b: int, x: Spanned<PatternV>| spells_typed(t, a, b, x);
    assert forall|k: nat|
        match #[trigger] <PatternRule as Rule>::at(ts, k) {
            Some((x, j)) => k < j <= ts.len() ==> patterns()(ts, k as int, j as int, x),
            None => true,
        } by {
        pattern_is_spelled(ts, k);
    }
    assert forall|k: nat|
        match #[trigger] <WaitPatternRule as Rule>::at(ts, k) {
            Some((x, j)) => k < j <= ts.len() ==> typed(ts, k as int, j as int, x),
            None => true,
        } by {
        pattern_is_spelled(ts, k);
    }
    many_are_a_row::<PatternRule>(ts, i, patterns());
    many_are_a_row::<WaitPatternRule>(ts, i, typed);
}

// ── parts of items ─────────────────────────────────────────────────────────

/// Whether the tokens from `i` up to `j` are nothing, or `pub`.
pub open spec fn spells_pub(ts: Toks, i: int, j: int, vis: bool) -> bool {
    if vis {
        j == i + 1 && is_sign(ts, i, Sign::Pub)
    } else {
        j == i
    }
}

/// Whether the tokens from `i` up to `j` are nothing, or a sign and a name.
pub open spec fn spells_mark(
    ts: Toks,
    i: int,
    j: int,
    s: Sign,
    name: Option<Spanned<Text>>,
) -> bool {
    match name {
        Some(id) => j == i + 2 && is_sign(ts, i, s) && is_name(ts, i + 1, id),
        None => j == i,
    }
}

/// Whether the tokens from `i` up to `j` are nothing, or a sign and a type.
pub open spec fn spells_result(
    ts: Toks,
    i: int,
    j: int,
    s: Sign,
    ty: Option<Spanned<TypeV>>,
) -> bool {
    match ty {
        Some(t) => i + 1 < j && is_sign(ts, i, s) && spelled::spells_type(ts, i + 1, j, t),
        None => j == i,
    }
}

/// A group in either kind of square brackets that is a row.
pub open spec fn square_row<V>(
    ts: Toks,
    k: int,
    xs: Seq<V>,
    rel: spec_fn(Toks, int, int, V) -> bool,
) -> bool {
    group_row(ts, k, Bracket::Square, xs, rel) || group_row(ts, k, Bracket::TightSquare, xs, rel)
}

/// A group in either kind of parentheses that is a row.
pub open spec fn paren_row<V>(
    ts: Toks,
    k: int,
    xs: Seq<V>,
    rel: spec_fn(Toks, int, int, V) -> bool,
) -> bool {
    group_row(ts, k, Bracket::Parens, xs, rel) || group_row(ts, k, Bracket::TightParens, xs, rel)
}

/// Whether the tokens from `i` up to `j` are nothing, or type parameters in
/// brackets, square or (if `angles`) angled.
pub open spec fn spells_params(
    ts: Toks,
    i: int,
    j: int,
    params: Seq<Spanned<Text>>,
    angles: bool,
) -> bool {
    if params.len() == 0 {
        j == i
    } else {
        ||| j == i + 1 && square_row(ts, i, params, names())
        ||| angles && is_sign(ts, i, Sign::Less) && is_sign(ts, j - 1, Sign::Greater) && row(
            ts,
            i + 1,
            j - 1,
            params,
            names(),
        )
    }
}

/// A type parameter and the names behind its colon.
pub open spec fn bounded() -> spec_fn(
    Toks,
    int,
    int,
    (Spanned<Text>, Seq<Spanned<Text>>),
) -> bool {
    |ts: Toks, i: int, j: int, x: (Spanned<Text>, Seq<Spanned<Text>>)|
        {
            &&& is_name(ts, i, x.0)
            &&& is_sign(ts, i + 1, Sign::Colon)
            &&& row(ts, i + 2, j, x.1, names())
        }
}

/// Whether every colon stands behind a name.
pub open spec fn colons_follow_names(ts: Toks) -> bool {
    forall|k: int|
        0 <= k < ts.len() && (#[trigger] ts[k]).inner == TokenV::Sign(Sign::Colon) ==> k > 0 && ts[k
            - 1].inner is Ident
}

/// Whether the tokens from `i` on spell type parameters: first those without a
/// colon, then those with one and what stands behind it.
pub open spec fn spells_generics(
    ts: Toks,
    i: int,
    params: Seq<Spanned<Text>>,
    bounds: Seq<(Spanned<Text>, Seq<Spanned<Text>>)>,
) -> bool {
    let f = params.len() - bounds.len();
    &&& f >= 0
    &&& forall|n: int| 0 <= n < bounds.len() ==> params[f + n] == (#[trigger] bounds[n]).0
    &&& row(ts, i, i + f, params.take(f), names())
    &&& row(ts, i + f, ts.len() as int, bounds, bounded())
}

spec fn same_tokens(ts: Toks, bs: Seq<BoundTokV>) -> bool {
    &&& bs.len() == ts.len()
    &&& forall|k: int|
        0 <= k < ts.len() ==> match #[trigger] bs[k] {
            BoundTokV::Ident(id) => is_name(ts, k, id),
            BoundTokV::Colon => is_sign(ts, k, Sign::Colon),
        }
}

proof fn elements_are_the_tokens(ts: Toks, i: nat)
    requires
        i <= ts.len(),
    ensures
        ({
            let (bs, j) = helpers::many::<BoundElem>(ts, i);
            &&& i <= j <= ts.len()
            &&& bs.len() == j - i
            &&& forall|k: int|
                0 <= k < bs.len() ==> match #[trigger] bs[k] {
                    BoundTokV::Ident(id) => is_name(ts, i + k, id),
                    BoundTokV::Colon => is_sign(ts, i + k, Sign::Colon),
                }
        }),
    decreases ts.len() - i,
{
    if let Some((x, j)) = <BoundElem as Rule>::at(ts, i) {
        if i < j <= ts.len() {
            elements_are_the_tokens(ts, j);
            let rest = helpers::many::<BoundElem>(ts, j).0;
            let all = helpers::many::<BoundElem>(ts, i).0;
            assert(all =~= seq![x] + rest);
            assert forall|k: int| 0 <= k < all.len() implies match #[trigger] all[k] {
                BoundTokV::Ident(id) => is_name(ts, i + k, id),
                BoundTokV::Colon => is_sign(ts, i + k, Sign::Colon),
            } by {
                if k > 0 {
                    assert(all[k] == rest[k - 1]);
                }
            }
        }
    }
}

proof fn bounds_are_names(ts: Toks, bs: Seq<BoundTokV>, i: nat)
    requires
        same_tokens(ts, bs),
        i <= bs.len(),
    ensures
        ({
            let (xs, j) = helpers::bounds_from(bs, i);
            &&& i <= j <= ts.len()
            &&& row(ts, i as int, j as int, xs, names())
            &&& j < ts.len() && bs[j as int] is Ident ==> helpers::colon_at(bs, j + 1)
            &&& j > i ==> bs[j - 1] is Ident && !helpers::colon_at(bs, j)
        }),
    decreases bs.len() - i,
{
    if i < bs.len() && bs[i as int] is Ident && !helpers::colon_at(bs, i + 1) {
        bounds_are_names(ts, bs, i + 1);
        let (xs, j) = helpers::bounds_from(bs, i + 1);
        let id = bs[i as int]->Ident_0;
        one_more(ts, i as int, (i + 1) as int, j as int, id, xs, names());
    } else {
        none(ts, i as int, names());
    }
}

proof fn bounded_are_spelled(ts: Toks, bs: Seq<BoundTokV>, i: nat)
    requires
        same_tokens(ts, bs),
        colons_follow_names(ts),
        i <= bs.len(),
        i < bs.len() ==> bs[i as int] is Ident && helpers::colon_at(bs, i + 1),
    ensures
        ({
            let (ps, xs) = helpers::folded_bounds(bs, i);
            &&& ps.len() == xs.len()
            &&& forall|n: int| 0 <= n < xs.len() ==> ps[n] == (#[trigger] xs[n]).0
            &&& row(ts, i as int, ts.len() as int, xs, bounded())
        }),
    decreases bs.len() - i,
{
    if i < bs.len() {
        let name = bs[i as int]->Ident_0;
        let (b, j) = helpers::bounds_from(bs, i + 2);
        bounds_are_names(ts, bs, i + 2);
        assert(is_sign(ts, (i + 1) as int, Sign::Colon)) by {
            assert(bs[(i + 1) as int] is Colon);
        }
        if j < bs.len() && bs[j as int] is Colon {
            assert(is_sign(ts, j as int, Sign::Colon));
            assert(ts[j as int].inner == TokenV::Sign(Sign::Colon));
        }
        bounded_are_spelled(ts, bs, j);
        let (ps, xs) = helpers::folded_bounds(bs, j);
        assert(bounded()(ts, i as int, j as int, (name, b)));
        one_more(ts, i as int, j as int, ts.len() as int, (name, b), xs, bounded());
    } else {
        none(ts, i as int, bounded());
    }
}

proof fn generics_are_spelled(ts: Toks, bs: Seq<BoundTokV>, i: nat)
    requires
        same_tokens(ts, bs),
        colons_follow_names(ts),
        i < bs.len() ==> bs[i as int] is Ident,
        i <= bs.len(),
    ensures
        ({
            let (ps, xs) = helpers::folded_bounds(bs, i);
            spells_generics(ts, i as int, ps, xs)
        }),
    decreases bs.len() - i,
{
    let (ps, xs) = helpers::folded_bounds(bs, i);
    if i < bs.len() && !helpers::colon_at(bs, i + 1) {
        if i + 1 < bs.len() {
            assert(bs[(i + 1) as int] is Ident);
        }
        generics_are_spelled(ts, bs, i + 1);
        let name = bs[i as int]->Ident_0;
        let (qs, ys) = helpers::folded_bounds(bs, i + 1);
        let f = qs.len() - ys.len();
        assert(ps.take(f + 1) =~= seq![name] + qs.take(f));
        assert(forall|n: int| 0 <= n < ys.len() ==> ps[f + 1 + n] == (#[trigger] ys[n]).0);
        one_more(ts, i as int, (i + 1) as int, i + 1 + f, name, qs.take(f), names());
    } else {
        bounded_are_spelled(ts, bs, i);
        assert(ps.take(0) =~= Seq::<Spanned<Text>>::empty());
        none(ts, i as int, names());
    }
}

/// What type parameters with bounds are is what their tokens say: a name
/// behind a colon, up to the next name that has a colon of its own, bounds the
/// name in front of the colon.
pub proof fn generics_say_what_stands(ts: Toks)
    requires
        colons_follow_names(ts),
    ensures
        helpers::generics_all(ts) matches Some((params, bounds)) ==> spells_generics(
            ts,
            0,
            params,
            bounds,
        ),
{
    elements_are_the_tokens(ts, 0);
    let bs = helpers::many::<BoundElem>(ts, 0).0;
    if bs.len() == ts.len() {
        if ts.len() > 0 && bs[0] is Colon {
            assert(ts[0].inner == TokenV::Sign(Sign::Colon));
        }
        generics_are_spelled(ts, bs, 0);
    }
}

/// Whether the tokens from `i` up to `j` are nothing, or the type parameters
/// of a machine.
pub open spec fn spells_machine_params(
    ts: Toks,
    i: int,
    j: int,
    params: Seq<Spanned<Text>>,
    bounds: Seq<(Spanned<Text>, Seq<Spanned<Text>>)>,
) -> bool {
    ||| j == i && params.len() == 0 && bounds.len() == 0
    ||| j == i + 1 && paren_row(ts, i, params, names()) && bounds.len() == 0
    ||| j == i + 1 && match ts[i].inner {
        TokenV::Group(kind, inside) => {
            &&& kind is Square || kind is TightSquare
            &&& colons_follow_names(inside) ==> spells_generics(inside, 0, params, bounds)
        },
        _ => false,
    }
}

// ── members ────────────────────────────────────────────────────────────────

/// Whether the tokens from `i` up to `j` spell a branch:
/// `[@label] patterns -> [ret type] { body }`.
pub open spec fn spells_branch(ts: Toks, i: int, j: int, b: BranchV) -> bool {
    exists|a: int, m: int|
        {
            &&& #[trigger] is_sign(ts, m, Sign::Arrow)
            &&& i <= a < m < j <= ts.len()
            &&& #[trigger] spells_mark(ts, i, a, Sign::At, b.head.label)
            &&& b.head.patterns.len() > 0
            &&& row(ts, a, m, b.head.patterns, patterns())
            &&& spells_result(ts, m + 1, j - 1, Sign::Ret, b.head.ret_ty)
            &&& match ts[j - 1].inner {
                TokenV::Group(kind, inside) => kind is Curly && spelled::spells_all(
                    inside,
                    0,
                    inside.len() as int,
                    b.body,
                    0,
                ),
                _ => false,
            }
        }
}

/// Whether the tokens from `i` up to `j` spell a field: `@label.type`, where
/// the label may be missing.
pub open spec fn spells_machine_field(ts: Toks, i: int, j: int, f: FieldV) -> bool {
    let a = if f.label is Some {
        i + 2
    } else {
        i + 1
    };
    &&& is_sign(ts, i, Sign::At)
    &&& f.label is Some ==> is_name(ts, i + 1, f.label->0)
    &&& is_sign(ts, a, Sign::Dot)
    &&& spelled::spells_type(ts, a + 1, j, f.ty)
}

pub open spec fn machine_items() -> spec_fn(Toks, int, int, Spanned<MachineItemV>) -> bool {
    |ts: Toks, i: int, j: int, x: Spanned<MachineItemV>|
        x.span == over(ts, i, j) && match x.inner {
            MachineItemV::Branch(b) => spells_branch(ts, i, j, b),
            MachineItemV::Field(f) => spells_machine_field(ts, i, j, f),
        }
}

/// The fields of a record: a name and its type.
pub open spec fn record_fields() -> spec_fn(Toks, int, int, Spanned<RecordFieldV>) -> bool {
    |ts: Toks, i: int, j: int, x: Spanned<RecordFieldV>|
        x.span == over(ts, i, j) && is_name(ts, i, x.inner.name) && spelled::spells_type(
            ts,
            i + 1,
            j,
            x.inner.ty,
        )
}

/// The fields of a variant: a name and its type.
pub open spec fn payload_fields() -> spec_fn(
    Toks,
    int,
    int,
    (Spanned<Text>, Spanned<TypeV>),
) -> bool {
    |ts: Toks, i: int, j: int, x: (Spanned<Text>, Spanned<TypeV>)|
        is_name(ts, i, x.0) && spelled::spells_type(ts, i + 1, j, x.1)
}

/// The variants of an enum: a name and what it carries.
pub open spec fn variants() -> spec_fn(Toks, int, int, Spanned<VariantV>) -> bool {
    |ts: Toks, i: int, j: int, x: Spanned<VariantV>|
        {
            &&& x.span == over(ts, i, j)
            &&& is_name(ts, i, x.inner.name)
            &&& match x.inner.payload {
                VariantPayloadV::NoPayload => j == i + 1,
                VariantPayloadV::Tuple(tys) => j == i + 2 && tys.len() > 0 && paren_row(
                    ts,
                    i + 1,
                    tys,
                    types(),
                ),
                VariantPayloadV::Record(fs) => j == i + 2 && fs.len() > 0 && group_row(
                    ts,
                    i + 1,
                    Bracket::Curly,
                    fs,
                    payload_fields(),
                ),
            }
        }
}

/// The pairs of a directive: a key, `=` and a string.
pub open spec fn pairs() -> spec_fn(Toks, int, int, (Spanned<Text>, Spanned<Text>)) -> bool {
    |ts: Toks, i: int, j: int, x: (Spanned<Text>, Spanned<Text>)|
        {
            &&& j == i + 3
            &&& is_name(ts, i, x.0)
            &&& is_sign(ts, i + 1, Sign::Eq)
            &&& 0 <= i + 2 < ts.len()
            &&& ts[i + 2].inner == TokenV::Str(x.1.inner)
            &&& ts[i + 2].span == x.1.span
        }
}

/// The methods of a proto: `name is { types [-> type] }`.
pub open spec fn methods() -> spec_fn(Toks, int, int, Spanned<MethodSigV>) -> bool {
    |ts: Toks, i: int, j: int, x: Spanned<MethodSigV>|
        {
            &&& j == i + 3
            &&& 0 <= i < j <= ts.len()
            &&& x.span == over(ts, i, j)
            &&& is_name(ts, i, x.inner.name)
            &&& is_sign(ts, i + 1, Sign::Is)
            &&& match ts[i + 2].inner {
                TokenV::Group(kind, inside) => kind is Curly && exists|m: int|
                    {
                        &&& #[trigger] row(inside, 0, m, x.inner.params, types())
                        &&& spells_result(
                            inside,
                            m,
                            inside.len() as int,
                            Sign::Arrow,
                            x.inner.ret,
                        )
                    },
                _ => false,
            }
        }
}

// ── imports ────────────────────────────────────────────────────────────────

/// Whether an import is a path of names, one inside the other, and what its
/// last name holds is `last`.
pub open spec fn leads_to(
    im: Spanned<ImportV>,
    path: Seq<Spanned<Text>>,
    last: Option<Spanned<ImportV>>,
    alias: Option<Spanned<Text>>,
) -> bool
    decreases path.len(),
{
    path.len() > 0 && match im.inner {
        ImportV::Import(id, inner, al) => {
            &&& id == path[0]
            &&& im.span == id.span
            &&& if path.len() > 1 {
                al is None && match inner {
                    Some(next) => leads_to(*next, path.skip(1), last, alias),
                    None => false,
                }
            } else {
                match last {
                    Some(l) => al is None && inner == Some(Box::new(l)),
                    None => al == alias && inner is None,
                }
            }
        },
        _ => false,
    }
}

/// The names of a path, with dots between them.
pub open spec fn spells_dotted(ts: Toks, i: int, j: int, path: Seq<Spanned<Text>>) -> bool {
    &&& path.len() > 0
    &&& is_name(ts, i, path[0])
    &&& row(ts, i + 1, j, path.skip(1), names_behind(Sign::Dot))
}

/// The entries of a block of imports: a path, and the name it goes by.
pub open spec fn entries() -> spec_fn(Toks, int, int, Spanned<ImportV>) -> bool {
    |ts: Toks, i: int, j: int, x: Spanned<ImportV>|
        exists|path: Seq<Spanned<Text>>, a: int, alias: Option<Spanned<Text>>|
            {
                &&& #[trigger] spells_dotted(ts, i, a, path)
                &&& #[trigger] spells_mark(ts, a, j, Sign::As, alias)
                &&& leads_to(x, path, None, alias)
            }
}

/// Whether the tokens from `i` up to `j` are nothing, or a dot and a block of
/// imports.
pub open spec fn spells_block(ts: Toks, i: int, j: int, block: Option<Spanned<ImportV>>) -> bool {
    match block {
        Some(b) => match b.inner {
            ImportV::MultiImport(es) => j == i + 2 && is_sign(ts, i, Sign::Dot) && group_row(
                ts,
                i + 1,
                Bracket::Curly,
                es,
                entries(),
            ),
            _ => false,
        },
        None => j == i,
    }
}

/// Whether the tokens from `i` up to `j` spell an import:
/// `+path[.{ entries }] [as alias]`.
pub open spec fn spells_import(ts: Toks, i: int, j: int, x: Spanned<ImportV>) -> bool {
    exists|
        path: Seq<Spanned<Text>>,
        a: int,
        block: Option<Spanned<ImportV>>,
        b: int,
        alias: Option<Spanned<Text>>,
    |
        {
            &&& is_sign(ts, i, Sign::Plus)
            &&& #[trigger] spells_dotted(ts, i + 1, a, path)
            &&& #[trigger] spells_block(ts, a, b, block)
            &&& #[trigger] spells_mark(ts, b, j, Sign::As, alias)
            &&& leads_to(x, path, block, alias)
        }
}

// ── items ──────────────────────────────────────────────────────────────────

/// Whether the tokens from `i` up to `j` spell the value of a constant: a
/// number, a string, `true`, `false` or an atom.
pub open spec fn spells_literal(ts: Toks, i: int, j: int, v: expr::Tree) -> bool {
    &&& v.kids.len() == 0
    &&& 0 <= i < j <= ts.len()
    &&& v.span == ts[j - 1].span
    &&& match v.head {
        Head::Num(n, ty) => j == i + 1 && ts[i].inner == TokenV::Num(n) && ty
            == spelled::named_at("i64"@, ts[i].span),
        Head::Str(w, ty) => j == i + 1 && ts[i].inner == TokenV::Str(w) && ty
            == spelled::named_at("str"@, ts[i].span),
        Head::Bool(b) => j == i + 1 && is_sign(
            ts,
            i,
            if b {
                Sign::True
            } else {
                Sign::False
            },
        ),
        Head::Atom(n) => j == i + 2 && is_sign(ts, i, Sign::Colon) && ts[i + 1].inner
            == TokenV::Ident(n),
        _ => false,
    }
}

/// Whether the token at `k` is the word `w`.
pub open spec fn is_word(ts: Toks, k: int, w: Text) -> bool {
    0 <= k < ts.len() && ts[k].inner == TokenV::Ident(w)
}

/// Whether the tokens from `i` up to `j` spell a machine:
/// `[pub] name[params] is { members }`.
pub open spec fn spells_machine(ts: Toks, i: int, j: int, m: MachineV) -> bool {
    exists|a: int|
        {
            &&& #[trigger] spells_pub(ts, i, a, m.vis)
            &&& is_name(ts, a, m.ident)
            &&& spells_machine_params(ts, a + 1, j - 2, m.generics, m.bounds)
            &&& is_sign(ts, j - 2, Sign::Is)
            &&& group_row(ts, j - 1, Bracket::Curly, m.items, machine_items())
            &&& m.attrs.len() == 0
        }
}

/// Whether the tokens from `i` up to `j` spell a record:
/// `[pub] Name[params] is { fields }`.
pub open spec fn spells_record(ts: Toks, i: int, j: int, r: RecordDeclV) -> bool {
    exists|a: int|
        {
            &&& #[trigger] spells_pub(ts, i, a, r.vis)
            &&& is_name(ts, a, r.ident)
            &&& spells_params(ts, a + 1, j - 2, r.type_params, true)
            &&& is_sign(ts, j - 2, Sign::Is)
            &&& r.fields.len() > 0
            &&& group_row(ts, j - 1, Bracket::Curly, r.fields, record_fields())
        }
}

/// Whether the tokens from `i` up to `j` spell a constant:
/// `[pub] const NAME = literal`.
pub open spec fn spells_const(ts: Toks, i: int, j: int, c: ConstDeclV) -> bool {
    exists|a: int|
        {
            &&& #[trigger] spells_pub(ts, i, a, c.vis)
            &&& is_sign(ts, a, Sign::Const)
            &&& is_name(ts, a + 1, c.ident)
            &&& is_sign(ts, a + 2, Sign::Eq)
            &&& spells_literal(ts, a + 3, j, c.value)
        }
}

/// Whether the tokens from `i` up to `j` spell a directive: `@name`,
/// `@name(types)` or `@name(key="value")`.
pub open spec fn spells_directive(ts: Toks, i: int, j: int, d: DirectiveV) -> bool {
    &&& is_sign(ts, i, Sign::At)
    &&& is_name(ts, i + 1, d.name)
    &&& {
        ||| j == i + 2 && d.args.len() == 0 && d.kv_args.len() == 0
        ||| j == i + 3 && d.args.len() == 0 && paren_row(ts, i + 2, d.kv_args, pairs())
        ||| j == i + 3 && d.kv_args.len() == 0 && paren_row(ts, i + 2, d.args, types())
    }
}

/// Whether the tokens from `i` up to `j` spell an item.
pub open spec fn spells_item(ts: Toks, i: int, j: int, x: Spanned<ItemV>) -> bool {
    match x.inner {
        ItemV::Import(y) => x.span == y.span && spells_import(ts, i, j, y),
        ItemV::Directive(y) => x.span == y.span && y.span == over(ts, i, j) && spells_directive(
            ts,
            i,
            j,
            y.inner,
        ),
        ItemV::Const(y) => x.span == y.span && y.span == over(ts, i, j) && spells_const(
            ts,
            i,
            j,
            y.inner,
        ),
        ItemV::Proto(y) => {
            &&& x.span == y.span
            &&& y.span == over(ts, i, j)
            &&& is_name(ts, i, y.inner.name)
            &&& is_sign(ts, i + 1, Sign::Is)
            &&& is_word(ts, i + 2, "proto"@)
            &&& row(ts, i + 3, j - 1, y.inner.parents, names_behind(Sign::Plus))
            &&& group_row(ts, j - 1, Bracket::Curly, y.inner.methods, methods())
        },
        ItemV::Enum(y) => {
            &&& x.span == y.span
            &&& y.span == over(ts, i, j)
            &&& is_name(ts, i, y.inner.name)
            &&& spells_params(ts, i + 1, j - 3, y.inner.type_params, false)
            &&& is_sign(ts, j - 3, Sign::Is)
            &&& is_word(ts, j - 2, "enum"@)
            &&& y.inner.variants.len() > 0
            &&& group_row(ts, j - 1, Bracket::Curly, y.inner.variants, variants())
        },
        ItemV::Record(y) => x.span == y.span && y.span == over(ts, i, j) && spells_record(
            ts,
            i,
            j,
            y.inner,
        ),
        ItemV::Machine(y) => x.span == y.span && y.span == over(ts, i, j) && spells_machine(
            ts,
            i,
            j,
            y.inner,
        ),
        ItemV::Impl(y) => {
            &&& x.span == y.span
            &&& y.span == over(ts, i, j)
            &&& is_name(ts, i, y.inner.ty)
            &&& is_sign(ts, i + 1, Sign::Is)
            &&& y.inner.protos.len() > 0
            &&& row(ts, i + 2, j, y.inner.protos, names())
        },
    }
}

pub open spec fn items() -> spec_fn(Toks, int, int, Spanned<ItemV>) -> bool {
    |ts: Toks, i: int, j: int, x: Spanned<ItemV>| spells_item(ts, i, j, x)
}

proof fn member_is_spelled(ts: Toks, i: nat)
    requires
        i <= ts.len(),
    ensures
        <ItemRule as Rule>::at(ts, i) matches Some((x, j)) ==> machine_items()(
            ts,
            i as int,
            j as int,
            x,
        ),
{
    let (_, a) = field_decl::name_at(ts, i + 1);
    spelled::types_say_what_stands(ts, a + 1);
    if field_decl::field_decl_at(ts, i) is None {
        let (label, a) = grammar::label_at(ts, i);
        patterns_say_what_stands(ts, a);
        let (ps, b) = helpers::many::<PatternRule>(ts, a);
        spelled::types_say_what_stands(ts, b + 2);
        if let Some((x, j)) = branch::branch_at(ts, i) {
            let (ret, c) = branch::ret_at(ts, b + 1);
            let inside = helpers::braces_in(ts, c)->0;
            spelled::expressions_say_what_stands(inside, 0);
            assert(is_sign(ts, b as int, Sign::Arrow));
            assert(spells_mark(ts, i as int, a as int, Sign::At, label));
            if a == b {
                let at = choose|at: Cuts|
                    {
                        &&& #[trigger] are_cuts(at, ps.len(), a as int, b as int)
                        &&& forall|n: int|
                            0 <= n < ps.len() ==> patterns()(
                                ts,
                                at.starts[n],
                                at.ends[n],
                                #[trigger] ps[n],
                            )
                    };
                assert(a <= at.starts[0] < at.ends[0] <= b);
            }
            assert(spells_branch(ts, i as int, j as int, x.inner));
        }
    }
}

proof fn params_are_spelled(ts: Toks, i: nat)
    ensures
        spells_params(
            ts,
            i as int,
            record::params_at(ts, i).1 as int,
            record::params_at(ts, i).0,
            true,
        ),
        spells_params(
            ts,
            i as int,
            enum_decl::params_at(ts, i).1 as int,
            enum_decl::params_at(ts, i).0,
            false,
        ),
{
    if let Some(inside) = helpers::squares_in(ts, i) {
        names_are_a_row(inside, 0);
    }
    if i < ts.len() {
        names_are_a_row(ts, i + 1);
    }
}

proof fn machine_params_are_spelled(ts: Toks, i: nat)
    ensures
        ({
            let ((params, bounds), j) = machine::generics_at(ts, i);
            spells_machine_params(ts, i as int, j as int, params, bounds)
        }),
{
    if let Some(inside) = helpers::squares_in(ts, i) {
        if colons_follow_names(inside) {
            generics_say_what_stands(inside);
        }
    }
    if let Some(inside) = helpers::parens_in(ts, i) {
        names_are_a_row(inside, 0);
    }
}

proof fn record_fields_are_a_row(ts: Toks)
    ensures
        helpers::all_of::<FieldRule>(ts) matches Some(xs) ==> row(
            ts,
            0,
            ts.len() as int,
            xs,
            record_fields(),
        ),
        helpers::all_of::<PayloadField>(ts) matches Some(xs) ==> row(
            ts,
            0,
            ts.len() as int,
            xs,
            payload_fields(),
        ),
{
    assert forall|k: nat|
        match #[trigger] <FieldRule as Rule>::at(ts, k) {
            Some((x, j)) => k < j <= ts.len() ==> record_fields()(ts, k as int, j as int, x),
            None => true,
        } by {
        spelled::types_say_what_stands(ts, k + 1);
    }
    many_are_a_row::<FieldRule>(ts, 0, record_fields());
    assert forall|k: nat|
        match #[trigger] <PayloadField as Rule>::at(ts, k) {
            Some((x, j)) => k < j <= ts.len() ==> payload_fields()(ts, k as int, j as int, x),
            None => true,
        } by {
        spelled::types_say_what_stands(ts, k + 1);
    }
    many_are_a_row::<PayloadField>(ts, 0, payload_fields());
}

proof fn variants_are_a_row(ts: Toks)
    ensures
        helpers::all_of::<VariantRule>(ts) matches Some(xs) ==> row(
            ts,
            0,
            ts.len() as int,
            xs,
            variants(),
        ),
{
    assert forall|k: nat|
        match #[trigger] <VariantRule as Rule>::at(ts, k) {
            Some((x, j)) => k < j <= ts.len() ==> variants()(ts, k as int, j as int, x),
            None => true,
        } by {
        if let Some(inside) = helpers::parens_in(ts, k + 1) {
            types_are_a_row(inside, 0);
        }
        if let Some(inside) = helpers::braces_in(ts, k + 1) {
            record_fields_are_a_row(inside);
        }
    }
    many_are_a_row::<VariantRule>(ts, 0, variants());
}

proof fn methods_are_a_row(ts: Toks)
    ensures
        helpers::all_of::<MethodRule>(ts) matches Some(xs) ==> row(
            ts,
            0,
            ts.len() as int,
            xs,
            methods(),
        ),
{
    assert forall|k: nat|
        match #[trigger] <MethodRule as Rule>::at(ts, k) {
            Some((x, j)) => k < j <= ts.len() ==> methods()(ts, k as int, j as int, x),
            None => true,
        } by {
        if let Some(inside) = machine::is_block(ts, k + 1) {
            types_are_a_row(inside, 0);
            let (params, m) = type_expr::types_from(inside, 0);
            spelled::types_say_what_stands(inside, m + 1);
            assert(row(inside, 0, m as int, params, types()));
            if let Some((x, j)) = <MethodRule as Rule>::at(ts, k) {
                assert(x.inner.params == params);
                assert(spells_result(
                    inside,
                    m as int,
                    inside.len() as int,
                    Sign::Arrow,
                    x.inner.ret,
                ));
                assert(ts[(k + 2) as int].inner == TokenV::Group(Bracket::Curly, inside));
                assert(is_name(ts, k as int, x.inner.name));
                assert(is_sign(ts, (k + 1) as int, Sign::Is));
            }
        }
    }
    many_are_a_row::<MethodRule>(ts, 0, methods());
}

proof fn members_are_a_row(ts: Toks)
    ensures
        helpers::all_of::<ItemRule>(ts) matches Some(xs) ==> row(
            ts,
            0,
            ts.len() as int,
            xs,
            machine_items(),
        ),
{
    assert forall|k: nat|
        match #[trigger] <ItemRule as Rule>::at(ts, k) {
            Some((x, j)) => k < j <= ts.len() ==> machine_items()(ts, k as int, j as int, x),
            None => true,
        } by {
        if k <= ts.len() {
            member_is_spelled(ts, k);
        }
    }
    many_are_a_row::<ItemRule>(ts, 0, machine_items());
}

proof fn chains_lead(
    path: Seq<Spanned<Text>>,
    k: nat,
    last: Option<Spanned<ImportV>>,
    alias: Option<Spanned<Text>>,
)
    requires
        k < path.len(),
    ensures
        leads_to(import::chain(path, k, last, alias), path.skip(k as int), last, alias),
    decreases path.len() - k,
{
    if k + 1 < path.len() {
        chains_lead(path, k + 1, last, alias);
        assert(path.skip(k as int).skip(1) =~= path.skip((k + 1) as int));
    }
}

proof fn path_is_spelled(ts: Toks, i: nat)
    ensures
        import::names_at(ts, i) matches Some((path, j)) ==> i < j <= ts.len() && spells_dotted(
            ts,
            i as int,
            j as int,
            path,
        ),
{
    if i < ts.len() {
        assert forall|k: nat|
            match #[trigger] <DotName as Rule>::at(ts, k) {
                Some((x, j)) => k < j <= ts.len() ==> names_behind(Sign::Dot)(
                    ts,
                    k as int,
                    j as int,
                    x,
                ),
                None => true,
            } by {}
        many_are_a_row::<DotName>(ts, i + 1, names_behind(Sign::Dot));
        if let Some((path, j)) = import::names_at(ts, i) {
            assert(path.skip(1) =~= helpers::many::<DotName>(ts, i + 1).0);
        }
    }
}

proof fn entries_are_a_row(ts: Toks)
    ensures
        helpers::all_of::<EntryRule>(ts) matches Some(xs) ==> row(
            ts,
            0,
            ts.len() as int,
            xs,
            entries(),
        ),
{
    assert forall|k: nat|
        match #[trigger] <EntryRule as Rule>::at(ts, k) {
            Some((x, j)) => k < j <= ts.len() ==> entries()(ts, k as int, j as int, x),
            None => true,
        } by {
        path_is_spelled(ts, k);
        if let Some((path, a)) = import::names_at(ts, k) {
            let (alias, j) = import::alias_at(ts, a);
            chains_lead(path, 0, None, alias);
            assert(path.skip(0) =~= path);
            assert(spells_dotted(ts, k as int, a as int, path));
            assert(spells_mark(ts, a as int, j as int, Sign::As, alias));
        }
    }
    many_are_a_row::<EntryRule>(ts, 0, entries());
}

proof fn import_is_spelled(ts: Toks, i: nat)
    ensures
        import::import_at(ts, i) matches Some((x, j)) ==> spells_import(
            ts,
            i as int,
            j as int,
            x,
        ),
{
    path_is_spelled(ts, i + 1);
    if let Some((x, j)) = import::import_at(ts, i) {
        let (path, a) = import::names_at(ts, i + 1)->0;
        let (block, b) = import::block_at(ts, a);
        let (alias, _) = import::alias_at(ts, b);
        if let Some(inside) = helpers::braces_in(ts, a + 1) {
            entries_are_a_row(inside);
        }
        chains_lead(path, 0, block, alias);
        assert(path.skip(0) =~= path);
        assert(spells_dotted(ts, (i + 1) as int, a as int, path));
        assert(spells_block(ts, a as int, b as int, block));
        assert(spells_mark(ts, b as int, j as int, Sign::As, alias));
    }
}

proof fn directive_is_spelled(ts: Toks, i: nat)
    ensures
        directive::directive_at(ts, i) matches Some((x, j)) ==> spells_directive(
            ts,
            i as int,
            j as int,
            x.inner,
        ),
{
    if let Some(inside) = helpers::parens_in(ts, i + 2) {
        types_are_a_row(inside, 0);
        assert forall|k: nat|
            match #[trigger] <KvRule as Rule>::at(inside, k) {
                Some((x, j)) => k < j <= inside.len() ==> pairs()(inside, k as int, j as int, x),
                None => true,
            } by {}
        many_are_a_row::<KvRule>(inside, 0, pairs());
    }
}

proof fn enum_is_spelled(ts: Toks, i: nat)
    ensures
        enum_decl::enum_at(ts, i) matches Some((x, j)) ==> spells_item(
            ts,
            i as int,
            j as int,
            Spanned { inner: ItemV::Enum(x), span: x.span },
        ),
{
    params_are_spelled(ts, i + 1);
    if let Some((x, j)) = enum_decl::enum_at(ts, i) {
        variants_are_a_row(ts[j - 1].inner->Group_1);
        assert(is_word(ts, j - 2, "enum"@));
    }
}

proof fn record_is_spelled(ts: Toks, i: nat)
    ensures
        record::record_at(ts, i) matches Some((x, j)) ==> x.span == over(ts, i as int, j as int)
            && spells_record(ts, i as int, j as int, x.inner),
{
    if let Some((x, j)) = record::record_at(ts, i) {
        let (vis, a) = machine::visibility_at(ts, i);
        params_are_spelled(ts, a + 1);
        record_fields_are_a_row(ts[j - 1].inner->Group_1);
        assert(spells_pub(ts, i as int, a as int, x.inner.vis));
    }
}

proof fn machine_is_spelled(ts: Toks, i: nat)
    ensures
        machine::machine_at(ts, i) matches Some((x, j)) ==> x.span == over(ts, i as int, j as int)
            && spells_machine(ts, i as int, j as int, x.inner),
{
    if let Some((x, j)) = machine::machine_at(ts, i) {
        let (vis, a) = machine::visibility_at(ts, i);
        machine_params_are_spelled(ts, a + 1);
        members_are_a_row(ts[j - 1].inner->Group_1);
        assert(spells_pub(ts, i as int, a as int, x.inner.vis));
    }
}

proof fn const_is_spelled(ts: Toks, i: nat)
    ensures
        const_item::const_at(ts, i) matches Some((x, j)) ==> x.span == over(ts, i as int, j as int)
            && spells_const(ts, i as int, j as int, x.inner),
{
    if let Some((x, j)) = const_item::const_at(ts, i) {
        let (vis, a) = machine::visibility_at(ts, i);
        assert(spells_pub(ts, i as int, a as int, x.inner.vis));
        assert(spells_literal(ts, (a + 3) as int, j as int, x.inner.value));
    }
}

proof fn proto_is_spelled(ts: Toks, i: nat)
    ensures
        proto::proto_at(ts, i) matches Some((x, j)) ==> spells_item(
            ts,
            i as int,
            j as int,
            Spanned { inner: ItemV::Proto(x), span: x.span },
        ),
        proto::impl_at(ts, i) matches Some((x, j)) ==> spells_item(
            ts,
            i as int,
            j as int,
            Spanned { inner: ItemV::Impl(x), span: x.span },
        ),
{
    if i + 2 <= ts.len() {
        names_are_a_row(ts, i + 2);
    }
    if let Some((x, j)) = proto::proto_at(ts, i) {
        assert forall|k: nat|
            match #[trigger] <ParentRule as Rule>::at(ts, k) {
                Some((x, j)) => k < j <= ts.len() ==> names_behind(Sign::Plus)(
                    ts,
                    k as int,
                    j as int,
                    x,
                ),
                None => true,
            } by {}
        many_are_a_row::<ParentRule>(ts, i + 3, names_behind(Sign::Plus));
        methods_are_a_row(ts[j - 1].inner->Group_1);
        assert(is_word(ts, (i + 2) as int, "proto"@));
        assert(group_row(ts, j - 1, Bracket::Curly, x.inner.methods, methods()));
    }
}

proof fn item_is_spelled(ts: Toks, i: nat)
    ensures
        <TopItem as Rule>::at(ts, i) matches Some((x, j)) ==> i < j <= ts.len() ==> spells_item(
            ts,
            i as int,
            j as int,
            x,
        ),
{
    import_is_spelled(ts, i);
    directive_is_spelled(ts, i);
    const_is_spelled(ts, i);
    proto_is_spelled(ts, i);
    enum_is_spelled(ts, i);
    record_is_spelled(ts, i);
    machine_is_spelled(ts, i);
}

/// What is read from the tokens of a file is what they spell: every token
/// belongs to an item, the items stand in the order of their tokens, and each
/// holds the names, types, patterns and expressions that its tokens say, in
/// their order and at their places.
pub proof fn files_say_what_stands(ts: Toks)
    ensures
        parser::parsed(ts) matches Some(xs) ==> row(ts, 0, ts.len() as int, xs, items()),
{
    assert forall|k: nat|
        match #[trigger] <TopItem as Rule>::at(ts, k) {
            Some((x, j)) => k < j <= ts.len() ==> items()(ts, k as int, j as int, x),
            None => true,
        } by {
        item_is_spelled(ts, k);
    }
    many_are_a_row::<TopItem>(ts, 0, items());
}

} // verus!
