//! Source locations for `panic` and `assert`.
//!
//! A call `panic(msg)` gets the place it stands at as two more arguments,
//! `panic(msg "<path>" <line>)`; `assert(cond msg)` likewise.  A call that
//! has the arguments already is left alone, so that the pass can run again.

use vstd::prelude::*;
use vstd::string::*;

use crate::api::ast::{Branch, BranchV, Item, ItemV, Machine, MachineItem, MachineItemV, MachineV};
use crate::api::ast::{Ident, Type, TypeV};
use crate::api::expr;
use crate::api::expr::{Expr, Head, Shape, Tree};
use crate::loader::{ModuleV, ParsedModule, ParsedProgram};
use crate::lowering::shapes::decimals_read_back;
use crate::rewrite;
use crate::rewrite::{rewrite_all, Pass, Rule};
use crate::span::{SimpleSpan, SpanWrap, Spanned};
use crate::text;
use crate::text::{decimal_text, same, Text};

verus! {

/// The byte of a line break.
pub open spec fn newline() -> u8 {
    10
}

/// How many of the first `n` bytes are line breaks.
pub open spec fn newlines(bytes: Seq<u8>, n: nat) -> nat
    decreases n,
{
    if n == 0 {
        0
    } else {
        newlines(bytes, (n - 1) as nat) + if bytes[n - 1] == newline() {
            1nat
        } else {
            0
        }
    }
}

/// The byte offsets at which lines begin, among the first `n` bytes: the
/// beginning, and behind every line break.
pub open spec fn starts(bytes: Seq<u8>, n: nat) -> Seq<usize>
    decreases n,
{
    if n == 0 {
        seq![0usize]
    } else {
        let before = starts(bytes, (n - 1) as nat);
        if bytes[n - 1] == newline() {
            before.push(n as usize)
        } else {
            before
        }
    }
}

/// The lines of a text: there is one more than line breaks, they begin in
/// order, and the line of an offset is the last one that begins at or before
/// it.
pub proof fn lines_are_in_order(bytes: Seq<u8>, n: nat)
    requires
        n <= bytes.len() <= usize::MAX,
    ensures
        starts(bytes, n).len() == newlines(bytes, n) + 1,
        starts(bytes, n)[0] == 0,
        starts(bytes, n).last() <= n,
        forall|i: int, j: int|
            0 <= i < j < starts(bytes, n).len() ==> starts(bytes, n)[i] < starts(bytes, n)[j],
        forall|off: nat|
            off <= n ==> {
                &&& 0 <= #[trigger] newlines(bytes, off) < starts(bytes, n).len()
                &&& starts(bytes, n)[newlines(bytes, off) as int] <= off
                &&& newlines(bytes, off) + 1 < starts(bytes, n).len() ==> off < starts(bytes, n)[
                    (newlines(bytes, off) + 1) as int
                ]
            },
    decreases n,
{
    if n > 0 {
        let m = (n - 1) as nat;
        lines_are_in_order(bytes, m);
        let now = starts(bytes, n);
        let was = starts(bytes, m);
        assert forall|off: nat| off <= n implies {
            &&& 0 <= #[trigger] newlines(bytes, off) < now.len()
            &&& now[newlines(bytes, off) as int] <= off
            &&& newlines(bytes, off) + 1 < now.len() ==> off < now[(newlines(bytes, off) + 1) as int]
        } by {
            if off <= m {
                assert(0 <= newlines(bytes, off) < was.len());
            } else {
                assert(0 <= newlines(bytes, m) < was.len());
            }
        }
    } else {
        assert(newlines(bytes, 0) == 0);
    }
}

/// The offsets at which the lines of a text begin.
pub open spec fn text_lines(src: Text) -> Seq<usize> {
    starts(vstd::utf8::encode_utf8(src), vstd::utf8::encode_utf8(src).len())
}

/// The offset at which every line of a text begins.
pub fn line_starts(src: &str) -> (r: Vec<usize>)
    ensures
        r@ == text_lines(src@),
        in_order(r@),
{
    let bytes = src.as_bytes();
    let mut v: Vec<usize> = Vec::new();
    v.push(0);
    let mut i: usize = 0;
    while i < bytes.len()
        invariant
            i <= bytes@.len(),
            bytes@ == vstd::utf8::encode_utf8(src@),
            v@ == starts(bytes@, i as nat),
        decreases bytes@.len() - i,
    {
        if bytes[i] == 10 {
            v.push(i + 1);
        }
        i = i + 1;
    }
    proof {
        lines_are_in_order(bytes@, bytes@.len());
    }
    v
}

/// Whether offsets are those of lines: the first is the beginning, and they
/// grow.  There are none for a text that could not be read.
pub open spec fn in_order(starts: Seq<usize>) -> bool {
    &&& starts.len() > 0 ==> starts[0] == 0
    &&& forall|i: int, j: int| 0 <= i < j < starts.len() ==> starts[i] < starts[j]
}

/// How many of the first `n` lines begin at or before `off`.
pub open spec fn begun(starts: Seq<usize>, n: nat, off: usize) -> nat
    decreases n,
{
    if n == 0 {
        0
    } else {
        begun(starts, (n - 1) as nat, off) + if starts[n - 1] <= off {
            1nat
        } else {
            0
        }
    }
}

/// The line of an offset, counted from one: how many lines have begun.  It
/// is zero where no lines are known.
pub open spec fn line_of(starts: Seq<usize>, off: usize) -> nat {
    begun(starts, starts.len(), off)
}

proof fn begun_up_to(starts: Seq<usize>, n: nat, off: usize, k: nat)
    requires
        in_order(starts),
        n <= starts.len(),
        k < starts.len(),
        starts[k as int] <= off,
        k + 1 < starts.len() ==> off < starts[(k + 1) as int],
    ensures
        begun(starts, n, off) == if n <= k + 1 {
            n
        } else {
            k + 1
        },
    decreases n,
{
    if n > 0 {
        begun_up_to(starts, (n - 1) as nat, off, k);
        if n - 1 < k {
            assert(starts[n - 1] < starts[k as int]);
        } else if n - 1 > k + 1 {
            assert(starts[(k + 1) as int] < starts[n - 1]);
        }
    }
}

/// In a text, the line of an offset is one more than the line breaks before
/// it.
pub proof fn lines_count_line_breaks(src: Text, off: usize)
    requires
        vstd::utf8::encode_utf8(src).len() <= usize::MAX,
    ensures
        line_of(text_lines(src), off) == newlines(
            vstd::utf8::encode_utf8(src),
            if off <= vstd::utf8::encode_utf8(src).len() {
                off as nat
            } else {
                vstd::utf8::encode_utf8(src).len()
            },
        ) + 1,
{
    let bytes = vstd::utf8::encode_utf8(src);
    lines_are_in_order(bytes, bytes.len());
    let at = if off <= bytes.len() {
        off as nat
    } else {
        bytes.len()
    };
    let k = newlines(bytes, at);
    let all = text_lines(src);
    assert(0 <= k < all.len());
    if off > bytes.len() {
        assert(at == bytes.len());
        assert(k + 1 == all.len());
    }
    begun_up_to(all, all.len(), off, k);
}

/// Where a module's calls are located: its path, and where its lines begin.
/// There are no lines if its text could not be read.
pub struct Ctx {
    pub line_starts: Vec<usize>,
    pub path: String,
}

impl Ctx {
    /// The line that an offset is on.
    pub fn line(&self, off: usize) -> (r: usize)
        requires
            in_order(self.line_starts@),
        ensures
            r == line_of(self.line_starts@, off),
            r > 0 ==> r <= self.line_starts@.len() && self.line_starts@[r - 1] <= off,
            self.line_starts@.len() > 0 ==> r > 0,
    {
        let starts = &self.line_starts;
        if starts.len() == 0 {
            return 0;
        }
        let mut lo: usize = 0;
        let mut hi: usize = starts.len();
        while hi - lo > 1
            invariant
                lo < hi <= starts@.len(),
                starts@[lo as int] <= off,
                hi < starts@.len() ==> off < starts@[hi as int],
            decreases hi - lo,
        {
            let mid: usize = lo + (hi - lo) / 2;
            if starts[mid] <= off {
                lo = mid;
            } else {
                hi = mid;
            }
        }
        proof {
            begun_up_to(starts@, starts@.len(), off, lo as nat);
        }
        lo + 1
    }

    /// The line and the column of an offset, both counted from one; zero
    /// where no lines are known.
    pub fn line_col(&self, off: usize) -> (r: (usize, usize))
        requires
            in_order(self.line_starts@),
            line_of(self.line_starts@, off) > 0 ==> off - self.line_starts@[line_of(
                self.line_starts@,
                off,
            ) - 1] < usize::MAX,
        ensures
            r.0 == line_of(self.line_starts@, off),
            r.1 == (if r.0 == 0 {
                0
            } else {
                off - self.line_starts@[r.0 - 1] + 1
            }),
    {
        let line = self.line(off);
        if line == 0 {
            (0, 0)
        } else {
            (line, off - self.line_starts[line - 1] + 1)
        }
    }
}

// ── the calls ──────────────────────────────────────────────────────────────

/// Whether a node is a call of `panic` or `assert` as users write it.
pub open spec fn wants_location(t: Tree) -> bool {
    t.head is Jump && t.kids.len() > 0 && match t.kids[0].head {
        Head::Var(name, _) => {
            ||| name == "panic"@ && t.kids.len() == 2
            ||| name == "assert"@ && t.kids.len() == 3
        },
        _ => false,
    }
}

/// The two arguments that say where a call stands.
pub open spec fn location(starts: Seq<usize>, path: Text, span: SimpleSpan) -> Seq<Tree> {
    seq![
        expr::leaf(Head::Str(path, TypeV::Named(Spanned { inner: "str"@, span })), span),
        expr::leaf(
            Head::Num(
                text::decimal(line_of(starts, span.start)),
                TypeV::Named(Spanned { inner: "i64"@, span }),
            ),
            span,
        ),
    ]
}

/// What the pass does: it goes through statements, arguments, what `let`,
/// `pin` and `ret` hold, and the bodies of `when` and `wait`.
pub open spec fn locate_rule(starts: Seq<usize>, path: Text) -> Rule {
    Rule {
        enters: |head: Head, i: int|
            match head {
                Head::Jump => i > 0,
                Head::Pin | Head::Ret | Head::Let(_, _) => true,
                _ => false,
            },
        handlers: true,
        patterns: false,
        at: |t: Tree|
            if wants_location(t) {
                Tree { kids: t.kids + location(starts, path, t.span), ..t }
            } else {
                t
            },
    }
}

fn panic_like(callee: &Expr) -> (r: Option<usize>)
    ensures
        forall|span: SimpleSpan|
            r == (match (#[trigger] expr::tree(*callee, span)).head {
                Head::Var(name, _) => if name == "panic"@ {
                    Some(1usize)
                } else if name == "assert"@ {
                    Some(2usize)
                } else {
                    None
                },
                _ => None,
            }),
{
    match callee {
        Expr::Var(name, _) => if same(name.as_str(), "panic") {
            Some(1)
        } else if same(name.as_str(), "assert") {
            Some(2)
        } else {
            None
        },
        _ => None,
    }
}

fn str_lit(s: &str, span: SimpleSpan) -> (r: Spanned<Expr>)
    ensures
        expr::tree_of(r) == expr::leaf(
            Head::Str(s@, TypeV::Named(Spanned { inner: "str"@, span })),
            span,
        ),
{
    Expr::String(s.to_owned(), Type::Named(Ident::new("str").with_span(span))).with_span(span)
}

fn num_lit(n: usize, span: SimpleSpan) -> (r: Spanned<Expr>)
    ensures
        expr::tree_of(r) == expr::leaf(
            Head::Num(text::decimal(n as nat), TypeV::Named(Spanned { inner: "i64"@, span })),
            span,
        ),
{
    let ty = Type::Named(Ident::new("i64").with_span(span));
    Expr::Num(decimal_text(n as u64), ty).with_span(span)
}

impl Pass for Ctx {
    open spec fn ready(&self) -> bool {
        in_order(self.line_starts@)
    }

    open spec fn rule(&self) -> Rule {
        locate_rule(self.line_starts@, self.path@)
    }

    fn does_enter(&self, shape: &Shape, i: usize) -> (r: bool) {
        match shape {
            Shape::Jump => i > 0,
            Shape::Pin | Shape::Ret | Shape::Let(_, _) => true,
            _ => false,
        }
    }

    fn does_enter_handlers(&self) -> (r: bool) {
        true
    }

    fn does_enter_patterns(&self) -> (r: bool) {
        false
    }

    fn apply(&self, e: Spanned<Expr>) -> (r: Spanned<Expr>) {
        let span = e.span;
        let ghost t = expr::tree_of(e);
        match e.inner {
            Expr::Jump { ident, args } => {
                proof {
                    assert(t.kids == seq![expr::tree_of(*ident)] + expr::trees(args@));
                    assert(t.kids[0] == expr::tree(ident.inner, ident.span));
                    assert(t.kids.len() == args@.len() + 1);
                }
                let located: bool = match panic_like(&ident.inner) {
                    Some(want) => args.len() == want,
                    None => false,
                };
                proof {
                    reveal_strlit("panic");
                    reveal_strlit("assert");
                    assert("panic"@.len() != "assert"@.len());
                    assert(located == wants_location(t));
                }
                let mut args = args;
                let ghost before = args@;
                if located {
                    let line = self.line(span.start);
                    args.push(str_lit(self.path.as_str(), span));
                    args.push(num_lit(line, span));
                    proof {
                        let more = location(self.line_starts@, self.path@, span);
                        assert(expr::trees(args@) =~= expr::trees(before) + more);
                        assert(seq![expr::tree_of(*ident)] + expr::trees(args@) =~= t.kids + more);
                    }
                }
                let ghost kids = seq![expr::tree_of(*ident)] + expr::trees(args@);
                let call = Expr::Jump { ident, args };
                proof {
                    assert(expr::tree(call, span) == expr::node(Head::Jump, span, kids));
                    assert(!located ==> kids =~= t.kids);
                }
                call.with_span(span)
            },
            other => other.with_span(span),
        }
    }
}

/// Locating the calls of an expression again changes nothing: a located call
/// has too many arguments to be located.
pub proof fn locating_twice_is_locating_once(starts: Seq<usize>, path: Text, t: Tree)
    ensures
        rewrite::rewritten(
            locate_rule(starts, path),
            rewrite::rewritten(locate_rule(starts, path), t),
        ) == rewrite::rewritten(locate_rule(starts, path), t),
    decreases t,
{
    let p = locate_rule(starts, path);
    let kids = rewrite::rewritten_kids(p, t.head, t.kids);
    let t2 = Tree { kids, ..t };
    let once = rewrite::rewritten(p, t);
    assert(once.head == t.head);
    assert forall|i: int| 0 <= i < once.kids.len() implies (if rewrite::entered(p, t.head, i) {
        rewrite::rewritten(p, once.kids[i])
    } else {
        once.kids[i]
    }) == #[trigger] once.kids[i] by {
        if i < t.kids.len() {
            assert(once.kids[i] == kids[i]);
            if rewrite::entered(p, t.head, i) {
                assert(kids[i] == rewrite::rewritten(p, t.kids[i]));
                locating_twice_is_locating_once(starts, path, t.kids[i]);
            }
        } else {
            let x = once.kids[i];
            assert(x.kids.len() == 0);
            assert(rewrite::rewritten_kids(p, x.head, x.kids) =~= x.kids);
        }
    }
    assert(rewrite::rewritten_kids(p, once.head, once.kids) =~= once.kids);
}

// ── programs ───────────────────────────────────────────────────────────────

/// The lines of the file `path` among `files`: those of the first text
/// under that name, and none if there is no such text.
pub open spec fn lines_in(files: Seq<(Text, Text)>, n: nat, path: Text) -> Seq<usize>
    decreases n,
{
    if n == 0 {
        Seq::empty()
    } else if files[files.len() - n].0 == path {
        text_lines(files[files.len() - n].1)
    } else {
        lines_in(files, (n - 1) as nat, path)
    }
}

fn context(files: &Vec<(String, String)>, path: &str) -> (r: Ctx)
    ensures
        r.line_starts@ == lines_in(files.deep_view(), files.deep_view().len(), path@),
        in_order(r.line_starts@),
        r.path@ == path@,
{
    let ghost fs = files.deep_view();
    let mut i: usize = 0;
    while i < files.len()
        invariant
            i <= files@.len(),
            fs == files.deep_view(),
            lines_in(fs, fs.len(), path@) == lines_in(fs, (fs.len() - i) as nat, path@),
        decreases files@.len() - i,
    {
        proof {
            assert(fs[i as int].0 == files@[i as int].0@);
            assert(fs[i as int].1 == files@[i as int].1@);
        }
        if same(files[i].0.as_str(), path) {
            return Ctx {
                line_starts: line_starts(files[i].1.as_str()),
                path: path.to_owned(),
            };
        }
        i = i + 1;
    }
    Ctx { line_starts: Vec::new(), path: path.to_owned() }
}

pub open spec fn located_machine_item(rule: Rule, item: MachineItemV) -> MachineItemV {
    match item {
        MachineItemV::Branch(b) => MachineItemV::Branch(
            BranchV { body: rewrite::rewritten_all(rule, b.body), ..b },
        ),
        other => other,
    }
}

pub open spec fn located_item(rule: Rule, item: ItemV) -> ItemV {
    match item {
        ItemV::Machine(m) => ItemV::Machine(
            Spanned {
                inner: MachineV {
                    items: Seq::new(
                        m.inner.items.len(),
                        |i: int|
                            Spanned {
                                inner: located_machine_item(rule, m.inner.items[i].inner),
                                span: m.inner.items[i].span,
                            },
                    ),
                    ..m.inner
                },
                span: m.span,
            },
        ),
        other => other,
    }
}

/// A module with its calls of `panic` and `assert` located.
pub open spec fn located_module(m: ModuleV, files: Seq<(Text, Text)>) -> ModuleV {
    let rule = locate_rule(lines_in(files, files.len(), m.source_path), m.source_path);
    ModuleV {
        ast: Seq::new(
            m.ast.len(),
            |i: int| Spanned { inner: located_item(rule, m.ast[i].inner), span: m.ast[i].span },
        ),
        ..m
    }
}

fn locate_machine(m: Machine, cx: &Ctx) -> (r: Machine)
    requires
        cx.ready(),
    ensures
        r.deep_view() == (MachineV {
            items: Seq::new(
                m.deep_view().items.len(),
                |i: int|
                    Spanned {
                        inner: located_machine_item(cx.rule(), m.deep_view().items[i].inner),
                        span: m.deep_view().items[i].span,
                    },
            ),
            ..m.deep_view()
        }),
{
    let ghost mv = m.deep_view();
    let ghost list = m.items@;
    let mut items: Vec<Spanned<MachineItem>> = Vec::new();
    for item in it: m.items
        invariant
            cx.ready(),
            it.seq() == list,
            items@.len() == it.index(),
            forall|j: int|
                0 <= j < it.index() ==> (#[trigger] items@[j]).deep_view() == (Spanned {
                    inner: located_machine_item(cx.rule(), list[j].deep_view().inner),
                    span: list[j].span,
                }),
    {
        let span = item.span;
        let inner = match item.inner {
            MachineItem::Branch(b) => {
                let ghost bv = b.deep_view();
                let body = rewrite_all(cx, b.body);
                let nb = Branch { label: b.label, patterns: b.patterns, ret_ty: b.ret_ty, body };
                proof {
                    assert(nb.deep_view() == (BranchV {
                        body: rewrite::rewritten_all(cx.rule(), bv.body),
                        ..bv
                    }));
                }
                MachineItem::Branch(nb)
            },
            other => other,
        };
        items.push(Spanned { inner, span });
    }
    let out = Machine {
        attrs: m.attrs,
        vis: m.vis,
        ident: m.ident,
        generics: m.generics,
        bounds: m.bounds,
        items,
    };
    proof {
        assert(out.deep_view().items =~= Seq::new(
            mv.items.len(),
            |i: int|
                Spanned {
                    inner: located_machine_item(cx.rule(), mv.items[i].inner),
                    span: mv.items[i].span,
                },
        ));
    }
    out
}

fn locate_module(m: ParsedModule, files: &Vec<(String, String)>) -> (r: ParsedModule)
    ensures
        r.deep_view() == located_module(m.deep_view(), files.deep_view()),
{
    let ghost mv = m.deep_view();
    let ghost list = m.ast@;
    let cx = context(files, m.source_path.as_str());
    let mut ast: Vec<Spanned<Item>> = Vec::new();
    for item in it: m.ast
        invariant
            cx.ready(),
            it.seq() == list,
            ast@.len() == it.index(),
            forall|j: int|
                0 <= j < it.index() ==> (#[trigger] ast@[j]).deep_view() == (Spanned {
                    inner: located_item(cx.rule(), list[j].deep_view().inner),
                    span: list[j].span,
                }),
    {
        let span = item.span;
        let inner = match item.inner {
            Item::Machine(machine) => {
                let at = machine.span;
                Item::Machine(Spanned { inner: locate_machine(machine.inner, &cx), span: at })
            },
            other => other,
        };
        ast.push(Spanned { inner, span });
    }
    let out = ParsedModule { path: m.path, source_path: m.source_path, ast };
    proof {
        assert(out.deep_view().ast =~= located_module(mv, files.deep_view()).ast);
    }
    out
}

/// Gives every call of `panic` and `assert` in a statement position the
/// place it stands at.  `files` are the paths and texts of the program's
/// files; calls in a file whose text is not among them are on line 0.
pub fn inject_panic_location(program: ParsedProgram, files: &Vec<(String, String)>) -> (r:
    ParsedProgram)
    ensures
        r.deep_view() == Seq::new(
            program.deep_view().len(),
            |i: int| located_module(program.deep_view()[i], files.deep_view()),
        ),
{
    let ghost mods = program.deep_view();
    let ghost list = program.modules@;
    let mut modules: Vec<ParsedModule> = Vec::new();
    for m in it: program.modules
        invariant
            it.seq() == list,
            modules@.len() == it.index(),
            forall|j: int|
                0 <= j < it.index() ==> (#[trigger] modules@[j]).deep_view() == located_module(
                    list[j].deep_view(),
                    files.deep_view(),
                ),
    {
        modules.push(locate_module(m, files));
    }
    let out = ParsedProgram { modules };
    proof {
        assert(out.deep_view() =~= Seq::new(
            mods.len(),
            |i: int| located_module(mods[i], files.deep_view()),
        ));
    }
    out
}

/// Locating the calls of a module again changes nothing.
pub proof fn locating_a_module_twice_is_once(m: ModuleV, files: Seq<(Text, Text)>)
    ensures
        located_module(located_module(m, files), files) == located_module(m, files),
{
    let starts = lines_in(files, files.len(), m.source_path);
    let rule = locate_rule(starts, m.source_path);
    let once = located_module(m, files);
    let twice = located_module(once, files);
    assert forall|i: int| 0 <= i < m.ast.len() implies #[trigger] twice.ast[i] == once.ast[i] by {
        if let ItemV::Machine(mach) = m.ast[i].inner {
            let a = once.ast[i].inner->Machine_0.inner.items;
            let b = twice.ast[i].inner->Machine_0.inner.items;
            assert forall|k: int| 0 <= k < a.len() implies #[trigger] b[k] == a[k] by {
                if let MachineItemV::Branch(br) = mach.inner.items[k].inner {
                    let x = a[k].inner->Branch_0.body;
                    let y = b[k].inner->Branch_0.body;
                    assert forall|n: int| 0 <= n < x.len() implies #[trigger] y[n] == x[n] by {
                        locating_twice_is_locating_once(starts, m.source_path, br.body[n]);
                    }
                    assert(y =~= x);
                }
            }
            assert(b =~= a);
        }
    }
    assert(twice.ast =~= once.ast);
}

// ── what is new ────────────────────────────────────────────────────────────

/// Whether a call is one of `panic` with a message, or of `assert` with a
/// condition and a message.
pub open spec fn may_stop(t: Tree) -> bool {
    t.head is Jump && t.kids.len() > 0 && match t.kids[0].head {
        Head::Var(name, _) => (name == "panic"@ && t.kids.len() == 2) || (name == "assert"@
            && t.kids.len() == 3),
        _ => false,
    }
}

/// Which parts of an expression are looked into: not what is called, nor a
/// pattern, nor what lies in other expressions.
pub open spec fn is_looked_into(h: Head, i: int) -> bool {
    match h {
        Head::When | Head::Filter | Head::Handler(_) | Head::Wait => true,
        Head::Arm | Head::Jump => i > 0,
        Head::Pin | Head::Ret | Head::Let(_, _) => true,
        _ => false,
    }
}

/// Whether `u` is `t` in which every call that may stop the program says, in
/// two more arguments behind its own, the file and the line it stands on.
pub open spec fn says_where(t: Tree, u: Tree, path: Text, line: spec_fn(usize) -> nat) -> bool
    decreases t,
{
    &&& u.head == t.head
    &&& u.span == t.span
    &&& u.kids.len() == t.kids.len() + if may_stop(t) {
        2int
    } else {
        0
    }
    &&& forall|i: int|
        0 <= i < t.kids.len() && is_looked_into(t.head, i) ==> says_where(
            #[trigger] t.kids[i],
            u.kids[i],
            path,
            line,
        )
    &&& forall|i: int|
        0 <= i < t.kids.len() && !is_looked_into(t.head, i) ==> u.kids[i] == #[trigger] t.kids[i]
    &&& may_stop(t) ==> is_file(u.kids[t.kids.len() as int], path) && is_line(
        u.kids[(t.kids.len() + 1) as int],
        line(t.span.start),
    )
}

/// Whether an expression is the text `path`.
pub open spec fn is_file(t: Tree, path: Text) -> bool {
    t.kids.len() == 0 && match t.head {
        Head::Str(w, _) => w == path,
        _ => false,
    }
}

/// Whether an expression is the number `n`.
pub open spec fn is_line(t: Tree, n: nat) -> bool {
    t.kids.len() == 0 && match t.head {
        Head::Num(w, _) => expr::all_digits(w, 10) && expr::digits_value(w, 10) == n,
        _ => false,
    }
}

proof fn located_trees_say_where(starts: Seq<usize>, path: Text, t: Tree)
    ensures
        says_where(
            t,
            rewrite::rewritten(locate_rule(starts, path), t),
            path,
            |off: usize| line_of(starts, off),
        ),
    decreases t,
{
    let p = locate_rule(starts, path);
    let line = |off: usize| line_of(starts, off);
    let u = rewrite::rewritten(p, t);
    let kids = rewrite::rewritten_kids(p, t.head, t.kids);
    assert forall|i: int| 0 <= i < t.kids.len() implies rewrite::entered(p, t.head, i)
        == is_looked_into(t.head, i) by {}
    assert forall|i: int|
        0 <= i < t.kids.len() && is_looked_into(t.head, i) implies says_where(
        #[trigger] t.kids[i],
        u.kids[i],
        path,
        line,
    ) by {
        located_trees_say_where(starts, path, t.kids[i]);
        assert(u.kids[i] == kids[i]);
    }
    assert forall|i: int| 0 <= i < t.kids.len() && !is_looked_into(t.head, i) implies u.kids[i]
        == #[trigger] t.kids[i] by {
        assert(u.kids[i] == kids[i]);
    }
    if may_stop(t) {
        let t2 = Tree { kids, ..t };
        assert(kids[0] == t.kids[0]);
        assert(wants_location(t2));
        let more = location(starts, path, t.span);
        assert(u.kids[t.kids.len() as int] == more[0]);
        assert(u.kids[(t.kids.len() + 1) as int] == more[1]);
        decimals_read_back(line_of(starts, t.span.start));
    } else if t.head is Jump && t.kids.len() > 0 {
        assert(kids[0] == t.kids[0]);
    }
}

/// The line that an offset of a text is on: one more than the line breaks
/// before it.
pub open spec fn line_in(src: Text) -> spec_fn(usize) -> nat {
    |off: usize|
        newlines(
            vstd::utf8::encode_utf8(src),
            if off <= vstd::utf8::encode_utf8(src).len() {
                off as nat
            } else {
                vstd::utf8::encode_utf8(src).len()
            },
        ) + 1
}

/// A statement of a file, located, is the statement in which every call that
/// may stop the program says the file and the line it stands on.
pub proof fn stopping_calls_say_where_they_stand(src: Text, path: Text, t: Tree)
    requires
        vstd::utf8::encode_utf8(src).len() <= usize::MAX,
    ensures
        says_where(
            t,
            rewrite::rewritten(locate_rule(text_lines(src), path), t),
            path,
            line_in(src),
        ),
{
    located_trees_say_where(text_lines(src), path, t);
    let a = |off: usize| line_of(text_lines(src), off);
    assert forall|off: usize| #[trigger] a(off) == line_in(src)(off) by {
        lines_count_line_breaks(src, off);
    }
    assert(a =~= line_in(src));
}

/// The calls of a module are located by the first text under the module's
/// name, in the branches of its machines; nothing else of it changes.
pub proof fn modules_are_located_by_their_text(m: ModuleV, files: Seq<(Text, Text)>, k: int)
    requires
        0 <= k < files.len(),
        files[k].0 == m.source_path,
        forall|j: int| 0 <= j < k ==> (#[trigger] files[j]).0 != m.source_path,
        vstd::utf8::encode_utf8(files[k].1).len() <= usize::MAX,
    ensures
        ({
            let n = located_module(m, files);
            &&& n.path == m.path
            &&& n.source_path == m.source_path
            &&& n.ast.len() == m.ast.len()
            &&& forall|i: int|
                0 <= i < m.ast.len() ==> is_located_item(
                    (#[trigger] m.ast[i]).inner,
                    n.ast[i].inner,
                    m.source_path,
                    line_in(files[k].1),
                )
        }),
{
    text_of_module(files, files.len(), m.source_path, k);
    let src = files[k].1;
    let n = located_module(m, files);
    let rule = locate_rule(text_lines(src), m.source_path);
    assert forall|i: int| 0 <= i < m.ast.len() implies is_located_item(
        (#[trigger] m.ast[i]).inner,
        n.ast[i].inner,
        m.source_path,
        line_in(src),
    ) by {
        if let ItemV::Machine(x) = m.ast[i].inner {
            let y = n.ast[i].inner->Machine_0;
            assert forall|q: int| 0 <= q < x.inner.items.len() implies is_located_member(
                (#[trigger] x.inner.items[q]).inner,
                y.inner.items[q].inner,
                m.source_path,
                line_in(src),
            ) by {
                if let MachineItemV::Branch(b) = x.inner.items[q].inner {
                    assert forall|z: int| 0 <= z < b.body.len() implies says_where(
                        #[trigger] b.body[z],
                        rewrite::rewritten(rule, b.body[z]),
                        m.source_path,
                        line_in(src),
                    ) by {
                        stopping_calls_say_where_they_stand(src, m.source_path, b.body[z]);
                    }
                }
            }
        }
    }
}

/// Whether `b` is the item `a` with the calls in the branches located.
pub open spec fn is_located_item(
    a: ItemV,
    b: ItemV,
    path: Text,
    line: spec_fn(usize) -> nat,
) -> bool {
    match (a, b) {
        (ItemV::Machine(x), ItemV::Machine(y)) => {
            &&& y.span == x.span
            &&& y.inner == (MachineV { items: y.inner.items, ..x.inner })
            &&& y.inner.items.len() == x.inner.items.len()
            &&& forall|k: int|
                0 <= k < x.inner.items.len() ==> is_located_member(
                    (#[trigger] x.inner.items[k]).inner,
                    y.inner.items[k].inner,
                    path,
                    line,
                )
        },
        _ => a == b,
    }
}

/// Whether `b` is the member `a` with the calls in its body located.
pub open spec fn is_located_member(
    a: MachineItemV,
    b: MachineItemV,
    path: Text,
    line: spec_fn(usize) -> nat,
) -> bool {
    match (a, b) {
        (MachineItemV::Branch(x), MachineItemV::Branch(y)) => {
            &&& y.head == x.head
            &&& y.body.len() == x.body.len()
            &&& forall|k: int|
                0 <= k < x.body.len() ==> says_where(#[trigger] x.body[k], y.body[k], path, line)
        },
        _ => a == b,
    }
}

proof fn text_of_module(files: Seq<(Text, Text)>, n: nat, path: Text, k: int)
    requires
        n <= files.len(),
        files.len() - n <= k < files.len(),
        files[k].0 == path,
        forall|j: int| 0 <= j < k ==> (#[trigger] files[j]).0 != path,
    ensures
        lines_in(files, n, path) == text_lines(files[k].1),
    decreases n,
{
    if files.len() - n < k {
        assert(files[files.len() - n].0 != path);
        text_of_module(files, (n - 1) as nat, path, k);
    }
}

} // verus!
