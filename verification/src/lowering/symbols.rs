//! Symbols of machines: no two machines share one.

use vstd::prelude::*;

use crate::registry;
use crate::text;
use crate::text::Text;

verus! {

/// Whether an underscore occurs in a text.
pub open spec fn has_underscore(s: Text) -> bool {
    exists|i: int| 0 <= i < s.len() && #[trigger] s[i] == '_'
}

/// Whether no segment of a path holds an underscore.
pub open spec fn plain_path(path: Seq<Text>) -> bool {
    forall|i: int| 0 <= i < path.len() ==> !has_underscore(#[trigger] path[i])
}

/// Whether two underscores stand side by side in a text.
pub open spec fn has_double(s: Text) -> bool {
    exists|i: int| 0 <= i && i + 1 < s.len() && #[trigger] s[i] == '_' && s[i + 1] == '_'
}

/// Paths without underscores join to the same text only if they are the
/// same.
proof fn joins_differ(p: Seq<Text>, n: nat, q: Seq<Text>, m: nat)
    requires
        1 <= n <= p.len(),
        1 <= m <= q.len(),
        plain_path(p),
        plain_path(q),
        text::join_first(p, "_"@, n) == text::join_first(q, "_"@, m),
    ensures
        n == m,
        forall|i: int| 0 <= i < n ==> #[trigger] p[i] == q[i],
    decreases n,
{
    reveal_strlit("_");
    let j = text::join_first(p, "_"@, n);
    let a = p[n - 1];
    let b = q[m - 1];
    assert(!has_underscore(a) && !has_underscore(b));
    if n == 1 && m > 1 {
        let k = text::join_first(q, "_"@, (m - 1) as nat).len() as int;
        assert(j[k] == '_');
        assert(a[k] == '_');
    } else if n > 1 && m == 1 {
        let k = text::join_first(p, "_"@, (n - 1) as nat).len() as int;
        assert(j[k] == '_');
        assert(b[k] == '_');
    } else if n > 1 {
        let x = text::join_first(p, "_"@, (n - 1) as nat);
        let y = text::join_first(q, "_"@, (m - 1) as nat);
        let us = "_"@;
        assert(us.len() == 1);
        assert(j == x + us + a);
        assert(j == y + us + b);
        assert(j[x.len() as int] == '_');
        assert(j[y.len() as int] == '_');
        if x.len() < y.len() {
            assert(a[y.len() - x.len() - 1] == j[y.len() as int]);
        } else if x.len() > y.len() {
            assert(b[x.len() - y.len() - 1] == j[x.len() as int]);
        }
        assert(x =~= j.take(x.len() as int));
        assert(y =~= j.take(y.len() as int));
        assert(a =~= j.skip(x.len() as int + 1));
        assert(b =~= j.skip(y.len() as int + 1));
        joins_differ(p, (n - 1) as nat, q, (m - 1) as nat);
    }
}

/// Machines of the same name have the same symbol only where both modules are
/// the root, or neither is and the segments of their paths, joined by
/// underscores, are the same text.
pub proof fn symbols_are_the_same_where_paths_join_alike(p: Seq<Text>, q: Seq<Text>, name: Text)
    ensures
        registry::mangled(p, name) == registry::mangled(q, name) <==> ((p.len() == 0) == (q.len()
            == 0) && text::join(p, "_"@) == text::join(q, "_"@)),
{
    reveal_strlit("__");
    let x = registry::mangled(p, name);
    let y = registry::mangled(q, name);
    let a = text::join(p, "_"@);
    let b = text::join(q, "_"@);
    if p.len() == 0 && q.len() == 0 {
        assert(p =~= q);
    } else if p.len() > 0 && q.len() > 0 && x == y {
        assert(x.len() == a.len() + 2 + name.len());
        assert(y.len() == b.len() + 2 + name.len());
        assert(a =~= x.take(a.len() as int));
        assert(b =~= y.take(b.len() as int));
    } else if p.len() == 0 && q.len() > 0 {
        assert(y.len() == b.len() + 2 + name.len());
    } else if q.len() == 0 && p.len() > 0 {
        assert(x.len() == a.len() + 2 + name.len());
    }
}

/// Machines of the same name in different modules have different symbols,
/// where the segments of the modules' paths hold no underscores.
pub proof fn symbols_of_modules_differ(p: Seq<Text>, q: Seq<Text>, name: Text)
    requires
        plain_path(p),
        plain_path(q),
    ensures
        registry::mangled(p, name) == registry::mangled(q, name) ==> p == q,
{
    reveal_strlit("__");
    let x = registry::mangled(p, name);
    let y = registry::mangled(q, name);
    if x == y {
        if p.len() > 0 && q.len() > 0 {
            let a = text::join(p, "_"@);
            let b = text::join(q, "_"@);
            assert(x.len() == a.len() + 2 + name.len());
            assert(y.len() == b.len() + 2 + name.len());
            assert(a =~= x.take(a.len() as int));
            assert(b =~= y.take(b.len() as int));
            joins_differ(p, p.len(), q, q.len());
        }
        assert(p =~= q);
    }
}

/// A path of segments that are not empty and hold no underscores joins to a
/// text without double underscores, and with none at its ends.
proof fn join_has_no_double(p: Seq<Text>, n: nat)
    requires
        1 <= n <= p.len(),
        plain_path(p),
        forall|i: int| 0 <= i < p.len() ==> (#[trigger] p[i]).len() > 0,
    ensures
        text::join_first(p, "_"@, n).len() > 0,
        !has_double(text::join_first(p, "_"@, n)),
        text::join_first(p, "_"@, n).last() != '_',
    decreases n,
{
    reveal_strlit("_");
    let j = text::join_first(p, "_"@, n);
    let a = p[n - 1];
    assert(a.len() > 0 && !has_underscore(a));
    if n == 1 {
        assert(a[a.len() - 1] != '_');
        assert forall|i: int| 0 <= i && i + 1 < j.len() && #[trigger] j[i] == '_' && j[i + 1]
            == '_' implies false by {
            assert(a[i] == '_');
        }
    } else {
        join_has_no_double(p, (n - 1) as nat);
        let x = text::join_first(p, "_"@, (n - 1) as nat);
        assert(j.last() == a[a.len() - 1]);
        assert forall|i: int| 0 <= i && i + 1 < j.len() && #[trigger] j[i] == '_' && j[i + 1]
            == '_' implies false by {
            if i + 1 < x.len() {
                assert(x[i] == '_' && x[i + 1] == '_');
            } else if i + 1 == x.len() {
                assert(x.last() == '_');
            } else {
                assert(j[i + 1] == a[i - x.len()]);
            }
        }
    }
}

/// Whether a name can be told from its prefix in a symbol: it does not begin
/// with an underscore and has no two side by side.
pub open spec fn plain_name(name: Text) -> bool {
    !has_double(name) && (name.len() > 0 ==> name[0] != '_')
}

/// Whether the segments of a path can be told apart in a symbol: none is
/// empty or holds an underscore.
pub open spec fn plain_module(path: Seq<Text>) -> bool {
    plain_path(path) && forall|i: int| 0 <= i < path.len() ==> (#[trigger] path[i]).len() > 0
}

/// Different machines have different symbols, where names and segments can
/// be told apart.
pub proof fn symbols_differ(p: Seq<Text>, a: Text, q: Seq<Text>, b: Text)
    requires
        plain_module(p),
        plain_module(q),
        plain_name(a),
        plain_name(b),
    ensures
        registry::mangled(p, a) == registry::mangled(q, b) ==> p == q && a == b,
{
    reveal_strlit("__");
    let x = registry::mangled(p, a);
    let y = registry::mangled(q, b);
    if x == y {
        if p.len() == 0 && q.len() == 0 {
            assert(p =~= q);
        } else if p.len() == 0 {
            let k = text::join(q, "_"@).len() as int;
            assert(y[k] == '_' && y[k + 1] == '_');
            assert(has_double(a));
        } else if q.len() == 0 {
            let k = text::join(p, "_"@).len() as int;
            assert(x[k] == '_' && x[k + 1] == '_');
            assert(has_double(b));
        } else {
            join_has_no_double(p, p.len());
            join_has_no_double(q, q.len());
            let j = text::join(p, "_"@);
            let k = text::join(q, "_"@);
            let n = j.len() as int;
            let m = k.len() as int;
            assert(x[n] == '_' && x[n + 1] == '_');
            assert(y[m] == '_' && y[m + 1] == '_');
            if n < m {
                if n + 1 < m {
                    assert(k[n] == '_' && k[n + 1] == '_');
                } else {
                    assert(k.last() == y[n]);
                }
            } else if m < n {
                if m + 1 < n {
                    assert(j[m] == '_' && j[m + 1] == '_');
                } else {
                    assert(j.last() == x[m]);
                }
            }
            assert(n == m);
            assert(j =~= x.take(n));
            assert(k =~= y.take(n));
            assert(a =~= x.skip(n + 2));
            assert(b =~= y.skip(n + 2));
            joins_differ(p, p.len(), q, q.len());
            assert(p =~= q);
        }
    }
}

} // verus!
