//! Where reading the tokens of a source file gets stuck.

use vstd::prelude::*;

use crate::api::token;
use crate::api::token::{Bracket, Sign, Token, TokenV};
use crate::parser::branch;
use crate::parser::branch::read_ret;
use crate::parser::expr::{
    expr, exprs, grammar, label, read_arms, read_handlers, type_expr,
};
use crate::parser::helpers;
use crate::parser::helpers::{
    ident_parser, next_braces, next_group, next_is, repeated, TokenInput, Toks,
};
use crate::parser::machine;
use crate::parser::machine::{block, read_generics, visibility, ItemRule};
use crate::parser::pattern::{PatternRule, WaitPatternRule};
use crate::span::Spanned;

verus! {

/// The token at `i`, or `from` behind the last.
pub open spec fn or_from(ts: Toks, i: nat, from: Spanned<TokenV>) -> Spanned<TokenV> {
    if i < ts.len() {
        ts[i as int]
    } else {
        from
    }
}

/// The token at which the statement that begins at `i` is none; `from` where
/// the tokens end too early.  What follows `ret`, `pin` and the `=` of a
/// `let`, the arms of a `when`, the handlers of a `wait` and the inside of a
/// group are entered.
pub open spec fn in_stmt(ts: Toks, i: nat, from: Spanned<TokenV>) -> Spanned<TokenV>
    decreases ts, ts.len() - i, 0int,
{
    if i >= ts.len() {
        from
    } else if helpers::sign_is(ts, i, Sign::Ret) || helpers::sign_is(ts, i, Sign::Pin) {
        in_stmt(ts, i + 1, ts[i as int])
    } else if helpers::sign_is(ts, i, Sign::Let) {
        match helpers::ident_in(ts, i + 1) {
            Some(id) => {
                let k = grammar::annotation(ts, i + 2, id).1;
                if i < k && helpers::sign_is(ts, k, Sign::Eq) {
                    in_stmt(ts, k + 1, ts[i as int])
                } else {
                    or_from(ts, k, ts[i as int])
                }
            },
            None => or_from(ts, i + 1, ts[i as int]),
        }
    } else if helpers::sign_is(ts, i, Sign::When) {
        match grammar::expr_at(ts, i + 1) {
            Some((_, j)) => if j < ts.len() {
                match ts[j as int].inner {
                    TokenV::Group(Bracket::Curly, inside) => in_arms(inside, ts[i as int]),
                    _ => ts[j as int],
                }
            } else {
                ts[i as int]
            },
            None => in_stmt(ts, i + 1, ts[i as int]),
        }
    } else if helpers::sign_is(ts, i, Sign::Wait) {
        let j = grammar::exprs_from(ts, i + 1).1;
        if j < ts.len() {
            match ts[j as int].inner {
                TokenV::Group(Bracket::Curly, inside) => in_handlers(inside, ts[i as int]),
                _ => ts[j as int],
            }
        } else {
            ts[i as int]
        }
    } else {
        match ts[i as int].inner {
            TokenV::Group(_, inside) => in_body(inside, ts[i as int]),
            _ => ts[i as int],
        }
    }
}

/// The token at which the tokens are no list of statements; `from` if they
/// are one.
pub open spec fn in_body(ts: Toks, from: Spanned<TokenV>) -> Spanned<TokenV>
    decreases ts, ts.len() + 1, 1int,
{
    let m = grammar::exprs_from(ts, 0).1;
    if m < ts.len() {
        in_stmt(ts, m, from)
    } else {
        from
    }
}

/// The token at which the tokens are no arms of a `when`; `from` if they are.
pub open spec fn in_arms(ts: Toks, from: Spanned<TokenV>) -> Spanned<TokenV>
    decreases ts, ts.len() + 1, 1int,
{
    let k = grammar::arms_from(ts, 0).1;
    if k >= ts.len() {
        from
    } else {
        match grammar::expr_at(ts, k) {
            Some((_, j)) => if helpers::sign_is(ts, j, Sign::Arrow) && j + 1 < ts.len() {
                match ts[(j + 1) as int].inner {
                    TokenV::Group(Bracket::Curly, inside) => in_body(inside, ts[k as int]),
                    _ => ts[(j + 1) as int],
                }
            } else {
                or_from(ts, j, ts[k as int])
            },
            None => in_stmt(ts, k, from),
        }
    }
}

/// The token at which the tokens are no handlers of a `wait`; `from` if they
/// are.
pub open spec fn in_handlers(ts: Toks, from: Spanned<TokenV>) -> Spanned<TokenV>
    decreases ts, ts.len() + 1, 1int,
{
    let k = grammar::handlers_from(ts, 0).1;
    if k >= ts.len() {
        from
    } else {
        let j = helpers::many::<WaitPatternRule>(ts, grammar::label_at(ts, k).1).1;
        if helpers::sign_is(ts, j, Sign::Arrow) && j + 1 < ts.len() {
            match ts[(j + 1) as int].inner {
                TokenV::Group(Bracket::Curly, inside) => in_body(inside, ts[k as int]),
                _ => ts[(j + 1) as int],
            }
        } else {
            or_from(ts, j, ts[k as int])
        }
    }
}

/// The token at which the branch that begins at `i` is none: in its body
/// where it has one, and otherwise the one behind its patterns or behind its
/// arrow.
pub open spec fn in_branch(ts: Toks, i: nat) -> Spanned<TokenV> {
    let (_, a) = grammar::label_at(ts, i);
    let (patterns, b) = helpers::many::<PatternRule>(ts, a);
    if patterns.len() > 0 && helpers::sign_is(ts, b, Sign::Arrow) {
        let c = branch::ret_at(ts, b + 1).1;
        match helpers::braces_in(ts, c) {
            Some(inside) => in_body(inside, ts[i as int]),
            None => if c < ts.len() {
                ts[c as int]
            } else {
                ts[i as int]
            },
        }
    } else if b < ts.len() {
        ts[b as int]
    } else {
        ts[i as int]
    }
}

/// The token at which what stands inside the braces of a machine is no list
/// of fields and branches; `otherwise` if it is one.
pub open spec fn in_block(ts: Toks, otherwise: Spanned<TokenV>) -> Spanned<TokenV> {
    let k = helpers::many::<ItemRule>(ts, 0).1;
    if k < ts.len() {
        in_branch(ts, k)
    } else {
        otherwise
    }
}

/// The token at which the item that begins at `i` is none: inside its braces
/// where it is `name is { ... }`, and its first token where it is not.
pub open spec fn in_item(ts: Toks, i: nat) -> Spanned<TokenV> {
    let a = machine::visibility_at(ts, i).1;
    if helpers::ident_in(ts, a) is Some {
        match machine::is_block(ts, machine::generics_at(ts, a + 1).1) {
            Some(inside) => in_block(inside, ts[i as int]),
            None => ts[i as int],
        }
    } else {
        ts[i as int]
    }
}

// ── executable side ────────────────────────────────────────────────────────

/// The model of a token.
spec fn seen(t: Spanned<Token>) -> Spanned<TokenV> {
    Spanned { inner: token::token_view(t.inner), span: t.span }
}

fn at<'t>(toks: &'t TokenInput, i: usize) -> (r: &'t Spanned<Token>)
    requires
        i < toks@.len(),
    ensures
        seen(*r) == token::tokens_view(toks@)[i as int],
{
    &toks[i]
}

fn at_or<'t>(toks: &'t TokenInput, i: usize, from: &'t Spanned<Token>) -> (r: &'t Spanned<Token>)
    ensures
        seen(*r) == or_from(token::tokens_view(toks@), i as nat, seen(*from)),
{
    if i < toks.len() {
        at(toks, i)
    } else {
        from
    }
}

fn inside_of<'t>(toks: &'t TokenInput, i: usize) -> (r: Option<&'t TokenInput>)
    requires
        i < toks@.len(),
    ensures
        match r {
            Some(v) => {
                &&& token::tokens_view(toks@)[i as int].inner matches TokenV::Group(_, inside)
                    && inside == token::tokens_view(v@)
                &&& decreases_to!(token::tokens_view(toks@) => token::tokens_view(v@))
            },
            None => !(token::tokens_view(toks@)[i as int].inner is Group),
        },
{
    if let Some(inside) = next_group(toks, i, Bracket::Curly) {
        return Some(inside);
    }
    if let Some(inside) = next_group(toks, i, Bracket::Parens) {
        return Some(inside);
    }
    if let Some(inside) = next_group(toks, i, Bracket::TightParens) {
        return Some(inside);
    }
    if let Some(inside) = next_group(toks, i, Bracket::Square) {
        return Some(inside);
    }
    next_group(toks, i, Bracket::TightSquare)
}

fn find_in_stmt<'t>(
    toks: &'t TokenInput,
    i: usize,
    from: &'t Spanned<Token>,
) -> (r: &'t Spanned<Token>)
    ensures
        seen(*r) == in_stmt(token::tokens_view(toks@), i as nat, seen(*from)),
    decreases token::tokens_view(toks@), toks@.len() - i, 0int,
{
    if i >= toks.len() {
        return from;
    }
    if next_is(toks, i, Sign::Ret) || next_is(toks, i, Sign::Pin) {
        return find_in_stmt(toks, i + 1, at(toks, i));
    }
    if next_is(toks, i, Sign::Let) {
        return match ident_parser(toks, i + 1) {
            Some(_) => {
                let k = match type_expr::type_expr(toks, i + 2) {
                    Some((_, j)) => j,
                    None => i + 2,
                };
                if next_is(toks, k, Sign::Eq) {
                    find_in_stmt(toks, k + 1, at(toks, i))
                } else {
                    at_or(toks, k, at(toks, i))
                }
            },
            None => at_or(toks, i + 1, at(toks, i)),
        };
    }
    if next_is(toks, i, Sign::When) {
        return match expr(toks, i + 1) {
            Some((_, j)) => if j < toks.len() {
                match next_braces(toks, j) {
                    Some(inside) => find_in_arms(inside, at(toks, i)),
                    None => at(toks, j),
                }
            } else {
                at(toks, i)
            },
            None => find_in_stmt(toks, i + 1, at(toks, i)),
        };
    }
    if next_is(toks, i, Sign::Wait) {
        let (_, j) = exprs(toks, i + 1);
        return if j < toks.len() {
            match next_braces(toks, j) {
                Some(inside) => find_in_handlers(inside, at(toks, i)),
                None => at(toks, j),
            }
        } else {
            at(toks, i)
        };
    }
    match inside_of(toks, i) {
        Some(inside) => find_in_body(inside, at(toks, i)),
        None => at(toks, i),
    }
}

fn find_in_body<'t>(toks: &'t TokenInput, from: &'t Spanned<Token>) -> (r: &'t Spanned<Token>)
    ensures
        seen(*r) == in_body(token::tokens_view(toks@), seen(*from)),
    decreases token::tokens_view(toks@), toks@.len() + 1, 1int,
{
    let (_, m) = exprs(toks, 0);
    if m < toks.len() {
        find_in_stmt(toks, m, from)
    } else {
        from
    }
}

fn find_in_arms<'t>(toks: &'t TokenInput, from: &'t Spanned<Token>) -> (r: &'t Spanned<Token>)
    ensures
        seen(*r) == in_arms(token::tokens_view(toks@), seen(*from)),
    decreases token::tokens_view(toks@), toks@.len() + 1, 1int,
{
    let (_, k) = read_arms(toks, 0);
    if k >= toks.len() {
        return from;
    }
    match expr(toks, k) {
        Some((_, j)) => if next_is(toks, j, Sign::Arrow) && j + 1 < toks.len() {
            match next_braces(toks, j + 1) {
                Some(inside) => find_in_body(inside, at(toks, k)),
                None => at(toks, j + 1),
            }
        } else {
            at_or(toks, j, at(toks, k))
        },
        None => find_in_stmt(toks, k, from),
    }
}

fn find_in_handlers<'t>(toks: &'t TokenInput, from: &'t Spanned<Token>) -> (r: &'t Spanned<Token>)
    ensures
        seen(*r) == in_handlers(token::tokens_view(toks@), seen(*from)),
    decreases token::tokens_view(toks@), toks@.len() + 1, 1int,
{
    let (_, k) = read_handlers(toks, 0);
    if k >= toks.len() {
        return from;
    }
    let (_, a) = label(toks, k);
    let (_, j) = repeated::<WaitPatternRule>(toks, a);
    if next_is(toks, j, Sign::Arrow) && j + 1 < toks.len() {
        match next_braces(toks, j + 1) {
            Some(inside) => find_in_body(inside, at(toks, k)),
            None => at(toks, j + 1),
        }
    } else {
        at_or(toks, j, at(toks, k))
    }
}

fn find_in_branch<'t>(toks: &'t TokenInput, i: usize) -> (r: &'t Spanned<Token>)
    requires
        i < toks@.len(),
    ensures
        seen(*r) == in_branch(token::tokens_view(toks@), i as nat),
{
    let (_, a) = label(toks, i);
    let (patterns, b) = repeated::<PatternRule>(toks, a);
    if patterns.len() > 0 && next_is(toks, b, Sign::Arrow) {
        let (_, c) = read_ret(toks, b + 1);
        match next_braces(toks, c) {
            Some(inside) => find_in_body(inside, at(toks, i)),
            None => if c < toks.len() {
                at(toks, c)
            } else {
                at(toks, i)
            },
        }
    } else if b < toks.len() {
        at(toks, b)
    } else {
        at(toks, i)
    }
}

fn find_in_block<'t>(toks: &'t TokenInput, otherwise: &'t Spanned<Token>) -> (r: &'t Spanned<Token>)
    ensures
        seen(*r) == in_block(token::tokens_view(toks@), seen(*otherwise)),
{
    let (_, k) = repeated::<ItemRule>(toks, 0);
    if k < toks.len() {
        find_in_branch(toks, k)
    } else {
        otherwise
    }
}

/// Finds the token at which an item is none.
pub fn find_in_item<'t>(toks: &'t TokenInput, i: usize) -> (r: &'t Spanned<Token>)
    requires
        i < toks@.len(),
    ensures
        (Spanned { inner: token::token_view(r.inner), span: r.span }) == in_item(
            token::tokens_view(toks@),
            i as nat,
        ),
{
    let (_, a) = visibility(toks, i);
    match ident_parser(toks, a) {
        Some(_) => {
            let (_, b) = read_generics(toks, a + 1);
            match block(toks, b) {
                Some(inside) => find_in_block(inside, at(toks, i)),
                None => at(toks, i),
            }
        },
        None => at(toks, i),
    }
}

} // verus!
