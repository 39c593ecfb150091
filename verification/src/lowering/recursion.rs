//! Machines that reach themselves by calls.

use vstd::prelude::*;

use crate::api::expr;
use crate::api::expr::{Expr, Head, Tree};
use crate::inspect;
use crate::inspect::{check_all, Ask, Property};
use crate::lowering::pure;
use crate::lowering::pure::{Body, KeyTable, RetKey, RetKeyV};
use crate::span::Spanned;

verus! {

/// Whether a callee has the name of one of the keys.
pub open spec fn names_one(callee: Tree, keys: Seq<RetKeyV>) -> bool {
    match callee.head {
        Head::Var(name, _) => pure::names_some(keys, name),
        Head::Path(segs) => pure::names_some(
            keys,
            if segs.len() > 0 {
                segs.last().inner
            } else {
                ""@
            },
        ),
        _ => false,
    }
}

/// No call has a callee with the name of one of the keys.
pub open spec fn avoids(keys: Seq<RetKeyV>) -> Ask {
    Ask {
        local: |t: Tree| !(t.head is Jump && t.kids.len() > 0 && names_one(t.kids[0], keys)),
        covers: |head: Head, i: int| true,
    }
}

/// Whether the statements of `key` call something with the name of one of the
/// keys.
pub open spec fn calls_one(
    key: RetKeyV,
    bodies: Seq<(RetKeyV, Seq<Tree>)>,
    keys: Seq<RetKeyV>,
) -> bool {
    match pure::key_lookup(bodies, key) {
        Some(body) => !inspect::all_hold(avoids(keys), body),
        None => false,
    }
}

/// The keys among `keys[..n]` that call into `all`.
pub open spec fn calling_among(
    keys: Seq<RetKeyV>,
    n: nat,
    bodies: Seq<(RetKeyV, Seq<Tree>)>,
    all: Seq<RetKeyV>,
) -> Seq<RetKeyV>
    decreases n,
{
    if n == 0 {
        Seq::empty()
    } else {
        let rest = calling_among(keys, (n - 1) as nat, bodies, all);
        if calls_one(keys[n - 1], bodies, all) {
            rest.push(keys[n - 1])
        } else {
            rest
        }
    }
}

/// The keys that are left when those that call into none of the others have
/// gone, one after the other: all that reach a cycle of calls.
pub open spec fn entangled(keys: Seq<RetKeyV>, bodies: Seq<(RetKeyV, Seq<Tree>)>) -> Seq<RetKeyV>
    decreases keys.len(),
{
    let next = calling_among(keys, keys.len(), bodies, keys);
    if next.len() < keys.len() {
        entangled(next, bodies)
    } else {
        keys
    }
}

/// The keys among `keys[..n]` that are not among `out`.
pub open spec fn without(keys: Seq<RetKeyV>, n: nat, out: Seq<RetKeyV>) -> Seq<RetKeyV>
    decreases n,
{
    if n == 0 {
        Seq::empty()
    } else {
        let rest = without(keys, (n - 1) as nat, out);
        if out.contains(keys[n - 1]) {
            rest
        } else {
            rest.push(keys[n - 1])
        }
    }
}

/// The keys that reach no cycle of calls.
pub open spec fn straight(keys: Seq<RetKeyV>, bodies: Seq<(RetKeyV, Seq<Tree>)>) -> Seq<RetKeyV> {
    without(keys, keys.len(), entangled(keys, bodies))
}

// ── no cycle is left ───────────────────────────────────────────────────────

/// Whether each machine of `chain` calls something with the name of the next.
pub open spec fn is_chain(chain: Seq<RetKeyV>, bodies: Seq<(RetKeyV, Seq<Tree>)>) -> bool {
    forall|i: int|
        0 <= i < chain.len() - 1 ==> calls_one(
            #[trigger] chain[i],
            bodies,
            seq![chain[i + 1]],
        )
}

proof fn avoiding_more_is_avoiding_less(t: Tree, less: Seq<RetKeyV>, more: Seq<RetKeyV>)
    requires
        inspect::holds(avoids(more), t),
        forall|i: int| 0 <= i < less.len() ==> more.contains(#[trigger] less[i]),
    ensures
        inspect::holds(avoids(less), t),
    decreases t,
{
    inspect::holds_iff(avoids(more), t);
    inspect::holds_iff(avoids(less), t);
    assert forall|i: int|
        0 <= i < t.kids.len() && inspect::covered(avoids(less), t.head, i) implies #[trigger]
    inspect::holds(avoids(less), t.kids[i]) by {
        assert(inspect::covered(avoids(more), t.head, i));
        assert(decreases_to!(t => t.kids[i]));
        avoiding_more_is_avoiding_less(t.kids[i], less, more);
    }
    if !inspect::is_part(t.head) && t.head is Jump && t.kids.len() > 0 && names_one(
        t.kids[0],
        less,
    ) {
        let name = match t.kids[0].head {
            Head::Var(name, _) => name,
            Head::Path(segs) => if segs.len() > 0 {
                segs.last().inner
            } else {
                ""@
            },
            _ => arbitrary(),
        };
        let i = choose|i: int| 0 <= i < less.len() && (#[trigger] less[i]).name == name;
        assert(more.contains(less[i]));
        let j = choose|j: int| 0 <= j < more.len() && more[j] == less[i];
        assert(more[j].name == name);
        assert(names_one(t.kids[0], more));
    }
}

proof fn calling_one_is_calling_all(
    key: RetKeyV,
    bodies: Seq<(RetKeyV, Seq<Tree>)>,
    one: RetKeyV,
    all: Seq<RetKeyV>,
)
    requires
        calls_one(key, bodies, seq![one]),
        all.contains(one),
    ensures
        calls_one(key, bodies, all),
{
    let body = pure::key_lookup(bodies, key)->0;
    let i = choose|i: int|
        0 <= i < body.len() && !#[trigger] inspect::holds(avoids(seq![one]), body[i]);
    if inspect::holds(avoids(all), body[i]) {
        avoiding_more_is_avoiding_less(body[i], seq![one], all);
    }
}

proof fn calling_among_holds(
    keys: Seq<RetKeyV>,
    n: nat,
    bodies: Seq<(RetKeyV, Seq<Tree>)>,
    all: Seq<RetKeyV>,
    key: RetKeyV,
)
    requires
        n <= keys.len(),
        keys.take(n as int).contains(key),
        calls_one(key, bodies, all),
    ensures
        calling_among(keys, n, bodies, all).contains(key),
    decreases n,
{
    let i = choose|i: int| 0 <= i < keys.take(n as int).len() && keys.take(n as int)[i] == key;
    let out = calling_among(keys, n, bodies, all);
    if i == n - 1 {
        assert(out.last() == key);
        assert(out[out.len() - 1] == key);
    } else {
        assert(keys.take(n - 1)[i] == key);
        calling_among_holds(keys, (n - 1) as nat, bodies, all, key);
        let rest = calling_among(keys, (n - 1) as nat, bodies, all);
        let j = choose|j: int| 0 <= j < rest.len() && rest[j] == key;
        assert(out[j] == key);
    }
}

/// The place after `i` in a chain; the last one is followed by the second.
spec fn next_in(chain: Seq<RetKeyV>, i: int) -> int {
    if i < chain.len() - 1 {
        i + 1
    } else {
        1
    }
}

spec fn calls_next(chain: Seq<RetKeyV>, i: int, bodies: Seq<(RetKeyV, Seq<Tree>)>) -> bool {
    calls_one(chain[i], bodies, seq![chain[next_in(chain, i)]])
}

/// Machines that each call one of their own stay among the entangled.
proof fn cycles_stay(
    keys: Seq<RetKeyV>,
    bodies: Seq<(RetKeyV, Seq<Tree>)>,
    cycle: Seq<RetKeyV>,
)
    requires
        forall|i: int| 0 <= i < cycle.len() ==> keys.contains(#[trigger] cycle[i]),
        cycle.len() > 1,
        forall|i: int| 0 <= i < cycle.len() ==> #[trigger] calls_next(cycle, i, bodies),
    ensures
        forall|i: int|
            0 <= i < cycle.len() ==> entangled(keys, bodies).contains(#[trigger] cycle[i]),
    decreases keys.len(),
{
    let next = calling_among(keys, keys.len(), bodies, keys);
    if next.len() < keys.len() {
        assert forall|i: int| 0 <= i < cycle.len() implies next.contains(#[trigger] cycle[i]) by {
            let j = next_in(cycle, i);
            assert(calls_next(cycle, i, bodies));
            assert(keys.contains(cycle[j]));
            calling_one_is_calling_all(cycle[i], bodies, cycle[j], keys);
            assert(keys.take(keys.len() as int) =~= keys);
            assert(keys.contains(cycle[i]));
            calling_among_holds(keys, keys.len(), bodies, keys, cycle[i]);
        }
        cycles_stay(next, bodies, cycle);
    }
}

proof fn without_has_none(keys: Seq<RetKeyV>, n: nat, out: Seq<RetKeyV>)
    requires
        n <= keys.len(),
    ensures
        forall|i: int|
            0 <= i < without(keys, n, out).len() ==> !out.contains(
                #[trigger] without(keys, n, out)[i],
            ) && keys.contains(without(keys, n, out)[i]),
    decreases n,
{
    if n > 0 {
        without_has_none(keys, (n - 1) as nat, out);
        let rest = without(keys, (n - 1) as nat, out);
        let all = without(keys, n, out);
        assert forall|i: int| 0 <= i < all.len() implies !out.contains(#[trigger] all[i])
            && keys.contains(all[i]) by {
            if i < rest.len() {
                assert(all[i] == rest[i]);
            } else {
                assert(keys[n - 1] == all[i]);
            }
        }
    }
}

/// No machine of the result calls itself, neither directly nor through
/// machines of the result.
pub proof fn straight_machines_do_not_recur(
    keys: Seq<RetKeyV>,
    bodies: Seq<(RetKeyV, Seq<Tree>)>,
    chain: Seq<RetKeyV>,
)
    requires
        chain.len() > 1,
        is_chain(chain, bodies),
        forall|i: int| 0 <= i < chain.len() ==> straight(keys, bodies).contains(#[trigger] chain[i]),
    ensures
        chain[0] != chain.last(),
{
    if chain[0] == chain.last() {
        let found = straight(keys, bodies);
        without_has_none(keys, keys.len(), entangled(keys, bodies));
        assert forall|i: int| 0 <= i < chain.len() implies keys.contains(#[trigger] chain[i])
            && !entangled(keys, bodies).contains(chain[i]) by {
            assert(found.contains(chain[i]));
            let j = choose|j: int| 0 <= j < found.len() && found[j] == chain[i];
            assert(found[j] == chain[i]);
        }
        assert forall|i: int| 0 <= i < chain.len() implies #[trigger] calls_next(
            chain,
            i,
            bodies,
        ) by {
            if i == chain.len() - 1 {
                assert(chain[i] == chain[0]);
                assert(calls_one(chain[0], bodies, seq![chain[1]]));
            } else {
                assert(calls_one(chain[i], bodies, seq![chain[i + 1]]));
            }
        }
        cycles_stay(keys, bodies, chain);
        assert(entangled(keys, bodies).contains(chain[0]));
    }
}

// ── what is left is pure still ─────────────────────────────────────────────

proof fn calling_among_are_keys(
    keys: Seq<RetKeyV>,
    n: nat,
    bodies: Seq<(RetKeyV, Seq<Tree>)>,
    all: Seq<RetKeyV>,
)
    requires
        n <= keys.len(),
    ensures
        forall|i: int|
            0 <= i < calling_among(keys, n, bodies, all).len() ==> keys.contains(
                #[trigger] calling_among(keys, n, bodies, all)[i],
            ),
    decreases n,
{
    if n > 0 {
        calling_among_are_keys(keys, (n - 1) as nat, bodies, all);
        let rest = calling_among(keys, (n - 1) as nat, bodies, all);
        let out = calling_among(keys, n, bodies, all);
        assert forall|i: int| 0 <= i < out.len() implies keys.contains(#[trigger] out[i]) by {
            if i < rest.len() {
                assert(out[i] == rest[i]);
            } else {
                assert(keys[n - 1] == out[i]);
            }
        }
    }
}

proof fn entangled_are_keys(keys: Seq<RetKeyV>, bodies: Seq<(RetKeyV, Seq<Tree>)>)
    ensures
        forall|i: int|
            0 <= i < entangled(keys, bodies).len() ==> keys.contains(
                #[trigger] entangled(keys, bodies)[i],
            ),
    decreases keys.len(),
{
    let next = calling_among(keys, keys.len(), bodies, keys);
    if next.len() < keys.len() {
        calling_among_are_keys(keys, keys.len(), bodies, keys);
        entangled_are_keys(next, bodies);
        let out = entangled(next, bodies);
        assert forall|i: int| 0 <= i < out.len() implies keys.contains(#[trigger] out[i]) by {
            assert(next.contains(out[i]));
            let j = choose|j: int| 0 <= j < next.len() && next[j] == out[i];
            assert(keys.contains(next[j]));
        }
    } else {
        assert forall|i: int| 0 <= i < keys.len() implies keys.contains(#[trigger] keys[i]) by {}
    }
}

/// Whoever calls an entangled machine is entangled.
proof fn callers_are_entangled(
    keys: Seq<RetKeyV>,
    bodies: Seq<(RetKeyV, Seq<Tree>)>,
    key: RetKeyV,
)
    requires
        keys.contains(key),
        calls_one(key, bodies, entangled(keys, bodies)),
    ensures
        entangled(keys, bodies).contains(key),
    decreases keys.len(),
{
    let next = calling_among(keys, keys.len(), bodies, keys);
    if next.len() < keys.len() {
        let out = entangled(keys, bodies);
        entangled_are_keys(keys, bodies);
        let body = pure::key_lookup(bodies, key)->0;
        let i = choose|i: int|
            0 <= i < body.len() && !#[trigger] inspect::holds(avoids(out), body[i]);
        if inspect::holds(avoids(keys), body[i]) {
            avoiding_more_is_avoiding_less(body[i], out, keys);
        }
        assert(calls_one(key, bodies, keys));
        assert(keys.take(keys.len() as int) =~= keys);
        calling_among_holds(keys, keys.len(), bodies, keys, key);
        callers_are_entangled(next, bodies, key);
    }
}

proof fn without_has_the_others(keys: Seq<RetKeyV>, n: nat, out: Seq<RetKeyV>, i: int)
    requires
        0 <= i < n <= keys.len(),
        !out.contains(keys[i]),
    ensures
        without(keys, n, out).contains(keys[i]),
    decreases n,
{
    let all = without(keys, n, out);
    if i == n - 1 {
        assert(all[all.len() - 1] == keys[i]);
    } else {
        without_has_the_others(keys, (n - 1) as nat, out, i);
        let rest = without(keys, (n - 1) as nat, out);
        let j = choose|j: int| 0 <= j < rest.len() && rest[j] == keys[i];
        assert(all[j] == keys[i]);
    }
}

proof fn others_are_named(
    keys: Seq<RetKeyV>,
    bodies: Seq<(RetKeyV, Seq<Tree>)>,
    name: crate::text::Text,
)
    requires
        pure::names_some(keys, name),
        !pure::names_some(entangled(keys, bodies), name),
    ensures
        pure::names_some(straight(keys, bodies), name),
{
    let out = entangled(keys, bodies);
    let i = choose|i: int| 0 <= i < keys.len() && (#[trigger] keys[i]).name == name;
    if out.contains(keys[i]) {
        let j = choose|j: int| 0 <= j < out.len() && out[j] == keys[i];
        assert(out[j].name == name);
    }
    without_has_the_others(keys, keys.len(), out, i);
    let found = straight(keys, bodies);
    let j = choose|j: int| 0 <= j < found.len() && found[j] == keys[i];
    assert(found[j].name == name);
}

proof fn straight_purity(
    keys: Seq<RetKeyV>,
    bodies: Seq<(RetKeyV, Seq<Tree>)>,
    ret: Seq<RetKeyV>,
    t: Tree,
)
    requires
        inspect::holds(pure::purity(keys, ret), t),
        inspect::holds(avoids(entangled(keys, bodies)), t),
    ensures
        inspect::holds(pure::purity(straight(keys, bodies), ret), t),
    decreases t,
{
    let before = pure::purity(keys, ret);
    let out = avoids(entangled(keys, bodies));
    let after = pure::purity(straight(keys, bodies), ret);
    inspect::holds_iff(before, t);
    inspect::holds_iff(out, t);
    inspect::holds_iff(after, t);
    assert forall|i: int|
        0 <= i < t.kids.len() && inspect::covered(after, t.head, i) implies #[trigger]
    inspect::holds(after, t.kids[i]) by {
        assert(inspect::covered(before, t.head, i));
        assert(inspect::holds(before, t.kids[i]));
        assert(inspect::covered(out, t.head, i));
        assert(inspect::holds(out, t.kids[i]));
        assert(decreases_to!(t => t.kids[i]));
        straight_purity(keys, bodies, ret, t.kids[i]);
    }
    if !inspect::is_part(t.head) && t.head is Jump {
        match t.kids[0].head {
            Head::Var(name, _) => {
                if !pure::is_pure_rt(name) {
                    others_are_named(keys, bodies, name);
                }
            },
            Head::Path(segs) => {
                others_are_named(
                    keys,
                    bodies,
                    if segs.len() > 0 {
                        segs.last().inner
                    } else {
                        ""@
                    },
                );
            },
            _ => {},
        }
    }
}

/// Every machine of the result is pure, given that the machines of the result
/// are.
pub proof fn straight_machines_are_pure(
    keys: Seq<RetKeyV>,
    bodies: Seq<(RetKeyV, Seq<Tree>)>,
    ret: Seq<RetKeyV>,
)
    ensures
        ({
            let found = straight(pure::pure_keys(keys, bodies, ret), bodies);
            forall|i: int|
                0 <= i < found.len() ==> pure::key_is_pure(
                    #[trigger] found[i],
                    bodies,
                    found,
                    ret,
                )
        }),
{
    let all = pure::pure_keys(keys, bodies, ret);
    let out = entangled(all, bodies);
    let found = straight(all, bodies);
    pure::pure_keys_are_pure(keys, bodies, ret);
    without_has_none(all, all.len(), out);
    assert forall|i: int| 0 <= i < found.len() implies pure::key_is_pure(
        #[trigger] found[i],
        bodies,
        found,
        ret,
    ) by {
        let key = found[i];
        assert(all.contains(key) && !out.contains(key));
        let j = choose|j: int| 0 <= j < all.len() && all[j] == key;
        assert(pure::key_is_pure(all[j], bodies, all, ret));
        if calls_one(key, bodies, out) {
            callers_are_entangled(all, bodies, key);
        }
        let body = pure::key_lookup(bodies, key)->0;
        assert forall|k: int| 0 <= k < body.len() implies #[trigger] inspect::holds(
            pure::purity(found, ret),
            body[k],
        ) by {
            assert(inspect::holds(pure::purity(all, ret), body[k]));
            assert(inspect::holds(avoids(out), body[k]));
            straight_purity(all, bodies, ret, body[k]);
        }
    }
}

// ── executable side ────────────────────────────────────────────────────────

/// Checks that no callee has the name of one of the keys.
pub struct Avoids<'a> {
    pub keys: &'a Vec<RetKey>,
}

impl<'a> Property for Avoids<'a> {
    open spec fn ready(&self) -> bool {
        true
    }

    open spec fn ask(&self) -> Ask {
        avoids(self.keys.deep_view())
    }

    fn check_local(&self, e: &Spanned<Expr>) -> (r: bool) {
        match &e.inner {
            Expr::Jump { ident, args } => {
                proof {
                    assert(expr::tree_of(*e).kids == seq![expr::tree_of(**ident)] + expr::trees(
                        args@,
                    ));
                    assert(expr::tree_of(*e).kids[0] == expr::tree_of(**ident));
                }
                match &ident.inner {
                    Expr::Var(name, _) => !pure::any_key_named(self.keys, name.as_str()),
                    Expr::Path(segs) => {
                        let n = segs.len();
                        if n > 0 {
                            proof {
                                assert(segs.deep_view().last() == segs@[n - 1].deep_view());
                            }
                            !pure::any_key_named(self.keys, segs[n - 1].inner.0.as_str())
                        } else {
                            !pure::any_key_named(self.keys, "")
                        }
                    },
                    _ => true,
                }
            },
            _ => true,
        }
    }

    fn check_covers(&self, e: &Expr, i: usize) -> (r: bool) {
        true
    }
}

fn retain_calling(keys: &Vec<RetKey>, bodies: &KeyTable<Body>) -> (r: Vec<RetKey>)
    ensures
        r.deep_view() == calling_among(
            keys.deep_view(),
            keys@.len(),
            bodies.deep_view(),
            keys.deep_view(),
        ),
{
    let ghost kv = keys.deep_view();
    let property = Avoids { keys };
    let mut out: Vec<RetKey> = Vec::new();
    let mut i: usize = 0;
    proof {
        assert(out.deep_view() =~= Seq::<RetKeyV>::empty());
    }
    while i < keys.len()
        invariant
            i <= keys.len(),
            kv == keys.deep_view(),
            property.ask() == avoids(kv),
            out.deep_view() == calling_among(kv, i as nat, bodies.deep_view(), kv),
        decreases keys.len() - i,
    {
        proof {
            assert(kv[i as int] == keys@[i as int].deep_view());
        }
        let keep = match bodies.get(&keys[i]) {
            Some(body) => !check_all(&property, &body.0),
            None => false,
        };
        if keep {
            let ghost before = out.deep_view();
            out.push(keys[i].dup());
            proof {
                assert(out.deep_view() =~= before.push(kv[i as int]));
            }
        }
        i = i + 1;
    }
    out
}

fn all_keys(keys: &Vec<RetKey>) -> (r: Vec<RetKey>)
    ensures
        r.deep_view() == keys.deep_view(),
{
    let mut out: Vec<RetKey> = Vec::new();
    let mut i: usize = 0;
    while i < keys.len()
        invariant
            i <= keys.len(),
            out@.len() == i,
            forall|j: int| 0 <= j < i ==> (#[trigger] out@[j]).deep_view() == keys@[j].deep_view(),
        decreases keys.len() - i,
    {
        out.push(keys[i].dup());
        i = i + 1;
    }
    proof {
        assert(out.deep_view() =~= keys.deep_view());
    }
    out
}

/// Strikes out the machines that reach themselves, and those that reach such
/// a machine.
pub fn strike_recursive(keys: Vec<RetKey>, bodies: &KeyTable<Body>) -> (r: Vec<RetKey>)
    ensures
        r.deep_view() == straight(keys.deep_view(), bodies.deep_view()),
{
    let ghost kv = keys.deep_view();
    let ghost bv = bodies.deep_view();
    let mut bad = all_keys(&keys);
    loop
        invariant
            bv == bodies.deep_view(),
            entangled(bad.deep_view(), bv) == entangled(kv, bv),
        ensures
            bad.deep_view() == entangled(kv, bv),
        decreases bad@.len(),
    {
        let next = retain_calling(&bad, bodies);
        if next.len() >= bad.len() {
            break ;
        }
        bad = next;
    }
    let mut out: Vec<RetKey> = Vec::new();
    let mut i: usize = 0;
    proof {
        assert(out.deep_view() =~= Seq::<RetKeyV>::empty());
    }
    while i < keys.len()
        invariant
            i <= keys.len(),
            kv == keys.deep_view(),
            bad.deep_view() == entangled(kv, bv),
            out.deep_view() == without(kv, i as nat, entangled(kv, bv)),
        decreases keys.len() - i,
    {
        proof {
            assert(kv[i as int] == keys@[i as int].deep_view());
        }
        if !pure::has_key(&bad, &keys[i]) {
            let ghost before = out.deep_view();
            out.push(keys[i].dup());
            proof {
                assert(out.deep_view() =~= before.push(kv[i as int]));
            }
        }
        i = i + 1;
    }
    out
}

} // verus!
