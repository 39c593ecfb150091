//! What is picked out of a sequence, in its order.

use vstd::prelude::*;

verus! {

/// Whether `at` lists, in order, the places from `from` on that `p` picks.
pub open spec fn picks(at: Seq<int>, from: int, len: nat, p: spec_fn(int) -> bool) -> bool {
    &&& forall|k: int| 0 <= k < at.len() ==> from <= #[trigger] at[k] < len && p(at[k])
    &&& forall|k: int, l: int| 0 <= k < l < at.len() ==> #[trigger] at[k] < #[trigger] at[l]
    &&& forall|i: int| from <= i < len && #[trigger] p(i) ==> at.contains(i)
}

pub proof fn picks_one_more(at: Seq<int>, from: int, len: nat, p: spec_fn(int) -> bool)
    requires
        0 <= from < len,
        picks(at, from + 1, len, p),
        p(from),
    ensures
        picks(seq![from] + at, from, len, p),
{
    let all = seq![from] + at;
    assert forall|i: int| from <= i < len && #[trigger] p(i) implies all.contains(i) by {
        if i > from {
            let k = choose|k: int| 0 <= k < at.len() && at[k] == i;
            assert(all[k + 1] == i);
        } else {
            assert(all[0] == i);
        }
    }
    assert forall|k: int, l: int| 0 <= k < l < all.len() implies #[trigger] all[k]
        < #[trigger] all[l] by {
        assert(all[l] == at[l - 1]);
        if k > 0 {
            assert(all[k] == at[k - 1]);
        }
    }
}

pub proof fn picks_no_more(at: Seq<int>, from: int, len: nat, p: spec_fn(int) -> bool)
    requires
        picks(at, from + 1, len, p),
        !p(from),
    ensures
        picks(at, from, len, p),
{
    assert forall|i: int| from <= i < len && #[trigger] p(i) implies at.contains(i) by {
        assert(i != from);
    }
}

/// One more at the end, and it is picked.
pub proof fn picks_last(at: Seq<int>, len: nat, p: spec_fn(int) -> bool)
    requires
        picks(at, 0, len, p),
        p(len as int),
    ensures
        picks(at.push(len as int), 0, len + 1, p),
{
    let all = at.push(len as int);
    assert forall|i: int| 0 <= i < len + 1 && #[trigger] p(i) implies all.contains(i) by {
        if i < len {
            let k = choose|k: int| 0 <= k < at.len() && at[k] == i;
            assert(all[k] == i);
        } else {
            assert(all[at.len() as int] == i);
        }
    }
}

/// One more at the end, and it is not picked.
pub proof fn picks_not_last(at: Seq<int>, len: nat, p: spec_fn(int) -> bool)
    requires
        picks(at, 0, len, p),
        !p(len as int),
    ensures
        picks(at, 0, len + 1, p),
{
    assert forall|i: int| 0 <= i < len + 1 && #[trigger] p(i) implies at.contains(i) by {
        assert(i != len);
    }
}

} // verus!
