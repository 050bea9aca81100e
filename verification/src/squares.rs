//! Lists of squares kept in board order: a set of squares as a vector that
//! holds each member once, by ascending row-major number.

use vstd::prelude::*;
use crate::pos::Pos;

verus! {

/// A list of on-board squares in strictly ascending row-major order.
pub open spec fn square_list(s: Seq<Pos>) -> bool {
    &&& forall|i: int| 0 <= i < s.len() ==> (#[trigger] s[i]).inside()
    &&& forall|i: int, j: int| 0 <= i < j < s.len() ==> s[i].index() < s[j].index()
}

/// A square list holds no square twice.
pub proof fn lemma_square_list_distinct(s: Seq<Pos>)
    requires
        square_list(s),
    ensures
        s.no_duplicates(),
{
    assert forall|i: int, j: int| 0 <= i < s.len() && 0 <= j < s.len() && i != j implies s[i]
        != s[j] by {
        if i < j {
            assert(s[i].index() < s[j].index());
        } else {
            assert(s[j].index() < s[i].index());
        }
    }
}

/// The `i`-th square of a square list has at least the number `i`, so such a
/// list holds at most 64 squares.
pub proof fn lemma_square_list_len(s: Seq<Pos>, i: int)
    requires
        square_list(s),
        0 <= i < s.len(),
    ensures
        i <= s[i].index() < 64,
        s.len() <= 64,
    decreases s.len() - i,
{
    assert(s[i].inside());
    if i > 0 {
        lemma_square_list_low(s, i);
    }
    if i + 1 < s.len() {
        lemma_square_list_len(s, i + 1);
    }
}

/// The `i`-th square of a square list has at least the number `i`.
pub proof fn lemma_square_list_low(s: Seq<Pos>, i: int)
    requires
        square_list(s),
        0 <= i < s.len(),
    ensures
        i <= s[i].index(),
    decreases i,
{
    assert(s[i].inside());
    if i > 0 {
        lemma_square_list_low(s, i - 1);
        assert(s[i - 1].index() < s[i].index());
    }
}

/// Two square lists with the same members are the same list.
pub proof fn lemma_square_list_unique(a: Seq<Pos>, b: Seq<Pos>)
    requires
        square_list(a),
        square_list(b),
        forall|p: Pos| a.contains(p) <==> b.contains(p),
    ensures
        a == b,
    decreases a.len(),
{
    if a.len() == 0 {
        if b.len() > 0 {
            assert(b.contains(b[0]));
            assert(a.contains(b[0]));
        }
        assert(a =~= b);
    } else {
        assert(a.contains(a[0]));
        assert(b.contains(a[0]));
        assert(b.len() > 0);
        assert(b.contains(b[0]));
        assert(a.contains(b[0]));
        let i = choose|i: int| 0 <= i < b.len() && b[i] == a[0];
        let j = choose|j: int| 0 <= j < a.len() && a[j] == b[0];
        if i > 0 {
            assert(b[0].index() < b[i].index());
            if j > 0 {
                assert(a[0].index() < a[j].index());
            }
        }
        assert(a[0] == b[0]);
        let a1 = a.subrange(1, a.len() as int);
        let b1 = b.subrange(1, b.len() as int);
        assert forall|p: Pos| a1.contains(p) <==> b1.contains(p) by {
            if a1.contains(p) {
                let k = choose|k: int| 0 <= k < a1.len() && a1[k] == p;
                assert(a[k + 1] == p);
                assert(a[0].index() < a[k + 1].index());
                assert(a.contains(p));
                let m = choose|m: int| 0 <= m < b.len() && b[m] == p;
                assert(m != 0);
                assert(b1[m - 1] == p);
            }
            if b1.contains(p) {
                let k = choose|k: int| 0 <= k < b1.len() && b1[k] == p;
                assert(b[k + 1] == p);
                assert(b[0].index() < b[k + 1].index());
                assert(b.contains(p));
                let m = choose|m: int| 0 <= m < a.len() && a[m] == p;
                assert(m != 0);
                assert(a1[m - 1] == p);
            }
        }
        assert(square_list(a1)) by {
            assert forall|i: int, j: int| 0 <= i < j < a1.len() implies a1[i].index()
                < a1[j].index() by {
                assert(a[i + 1].index() < a[j + 1].index());
            }
        }
        assert(square_list(b1)) by {
            assert forall|i: int, j: int| 0 <= i < j < b1.len() implies b1[i].index()
                < b1[j].index() by {
                assert(b[i + 1].index() < b[j + 1].index());
            }
        }
        lemma_square_list_unique(a1, b1);
        assert(a =~= seq![a[0]] + a1);
        assert(b =~= seq![b[0]] + b1);
    }
}

/// Whether `p` is in the list.
pub fn has(v: &Vec<Pos>, p: Pos) -> (found: bool)
    ensures
        found == v@.contains(p),
{
    let mut i: usize = 0;
    while i < v.len()
        invariant
            i <= v.len(),
            forall|j: int| 0 <= j < i ==> v@[j] != p,
        decreases v.len() - i,
    {
        if v[i].x == p.x && v[i].y == p.y {
            return true;
        }
        i += 1;
    }
    false
}

/// Adds `p` to the list at its place in board order, unless it is there.
pub fn insert(v: &mut Vec<Pos>, p: Pos)
    requires
        square_list(old(v)@),
        p.inside(),
    ensures
        square_list(final(v)@),
        forall|q: Pos| final(v)@.contains(q) <==> (old(v)@.contains(q) || q == p),
{
    let key = p.slot();
    let mut i: usize = 0;
    while i < v.len() && v[i].slot() < key
        invariant
            i <= v.len(),
            v@ == old(v)@,
            square_list(v@),
            forall|j: int| 0 <= j < i ==> v@[j].index() < key,
        decreases v.len() - i,
    {
        i += 1;
    }
    if i < v.len() && v[i].slot() == key {
        assert(v@[i as int] == p);
        assert(v@.contains(p));
        return ;
    }
    let ghost before = v@;
    v.insert(i, p);
    proof {
        before.insert_ensures(i as int, p);
        let after = v@;
        assert forall|a: int, b: int| 0 <= a < b < after.len() implies after[a].index()
            < after[b].index() by {
            if b < i {
                assert(after[a] == before[a] && after[b] == before[b]);
            } else if b == i {
                assert(after[a] == before[a]);
            } else {
                assert(after[b] == before[b - 1]);
                if a < i {
                    assert(after[a] == before[a]);
                } else if a == i {
                    assert(before[i as int].index() <= before[b - 1].index());
                } else {
                    assert(after[a] == before[a - 1]);
                }
            }
        }
        assert forall|k: int| 0 <= k < after.len() implies (#[trigger] after[k]).inside() by {
            if k < i {
                assert(after[k] == before[k]);
            } else if k > i {
                assert(after[k] == before[k - 1]);
            }
        }
        assert forall|q: Pos| after.contains(q) <==> (before.contains(q) || q == p) by {
            if after.contains(q) {
                let k = choose|k: int| 0 <= k < after.len() && after[k] == q;
                if k < i {
                    assert(before[k] == q);
                } else if k > i {
                    assert(before[k - 1] == q);
                }
            }
            if before.contains(q) {
                let k = choose|k: int| 0 <= k < before.len() && before[k] == q;
                if k < i {
                    assert(after[k] == q);
                } else {
                    assert(after[k + 1] == q);
                }
            }
            if q == p {
                assert(after[i as int] == q);
            }
        }
    }
}

} // verus!
