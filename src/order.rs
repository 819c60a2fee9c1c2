//! The order in which carts move within a tick: by row, then by column.
use vstd::prelude::*;
use crate::carts::{reads_before, Cart};

verus! {

/// Cart `a` moves before cart `b` in a tick: by position in reading order, and by
/// index where two carts share a cell.
pub open spec fn moves_before(carts: Seq<Cart>, a: int, b: int) -> bool {
    reads_before(carts[a].x as int, carts[a].y as int, carts[b].x as int, carts[b].y as int) || (
    carts[a].x == carts[b].x && carts[a].y == carts[b].y && a < b)
}

/// `order` lists exactly the alive carts, each once, in the order in which they move.
pub open spec fn is_reading_order(carts: Seq<Cart>, order: Seq<usize>) -> bool {
    &&& forall|k: int|
        0 <= k < order.len() ==> #[trigger] order[k] < carts.len() && carts[order[k] as int].alive
    &&& forall|i: int|
        0 <= i < carts.len() && #[trigger] carts[i].alive ==> order.contains(i as usize)
    &&& forall|a: int, b: int|
        #![trigger order[a], order[b]]
        0 <= a < b < order.len() ==> moves_before(carts, order[a] as int, order[b] as int)
}

/// The order in which the alive carts move in the next tick.
pub open spec fn reading_order(carts: Seq<Cart>) -> Seq<usize> {
    choose|order: Seq<usize>| is_reading_order(carts, order)
}

proof fn lemma_moves_before_asymmetric(carts: Seq<Cart>, a: int, b: int)
    ensures
        !(moves_before(carts, a, b) && moves_before(carts, b, a)),
        !moves_before(carts, a, a),
{
}

proof fn lemma_sorted_unique(carts: Seq<Cart>, s: Seq<usize>, t: Seq<usize>)
    requires
        forall|a: int, b: int|
            #![trigger s[a], s[b]]
            0 <= a < b < s.len() ==> moves_before(carts, s[a] as int, s[b] as int),
        forall|a: int, b: int|
            #![trigger t[a], t[b]]
            0 <= a < b < t.len() ==> moves_before(carts, t[a] as int, t[b] as int),
        forall|v: usize| s.contains(v) <==> t.contains(v),
    ensures
        s == t,
    decreases s.len() + t.len(),
{
    if s.len() == 0 {
        if t.len() > 0 {
            assert(t.contains(t[0]));
        }
        assert(s =~= t);
    } else if t.len() == 0 {
        assert(s.contains(s[0]));
    } else {
        assert(s.contains(s[0]));
        assert(t.contains(t[0]));
        let j = choose|j: int| 0 <= j < t.len() && t[j] == s[0];
        let i = choose|i: int| 0 <= i < s.len() && s[i] == t[0];
        if i > 0 && j > 0 {
            assert(moves_before(carts, s[0] as int, s[i] as int));
            assert(moves_before(carts, t[0] as int, t[j] as int));
            lemma_moves_before_asymmetric(carts, s[0] as int, t[0] as int);
        }
        assert(s[0] == t[0]);
        let s2 = s.drop_first();
        let t2 = t.drop_first();
        assert forall|v: usize| s2.contains(v) <==> t2.contains(v) by {
            if s2.contains(v) {
                let k = choose|k: int| 0 <= k < s2.len() && s2[k] == v;
                assert(s[k + 1] == v);
                assert(moves_before(carts, s[0] as int, s[k + 1] as int));
                lemma_moves_before_asymmetric(carts, v as int, v as int);
                assert(t.contains(v));
                let m = choose|m: int| 0 <= m < t.len() && t[m] == v;
                assert(m != 0);
                assert(t2[m - 1] == v);
            }
            if t2.contains(v) {
                let k = choose|k: int| 0 <= k < t2.len() && t2[k] == v;
                assert(t[k + 1] == v);
                assert(moves_before(carts, t[0] as int, t[k + 1] as int));
                lemma_moves_before_asymmetric(carts, v as int, v as int);
                assert(s.contains(v));
                let m = choose|m: int| 0 <= m < s.len() && s[m] == v;
                assert(m != 0);
                assert(s2[m - 1] == v);
            }
        }
        assert forall|a: int, b: int|
            #![trigger s2[a], s2[b]]
            0 <= a < b < s2.len() implies moves_before(carts, s2[a] as int, s2[b] as int) by {
            assert(s[a + 1] == s2[a] && s[b + 1] == s2[b]);
        }
        assert forall|a: int, b: int|
            #![trigger t2[a], t2[b]]
            0 <= a < b < t2.len() implies moves_before(carts, t2[a] as int, t2[b] as int) by {
            assert(t[a + 1] == t2[a] && t[b + 1] == t2[b]);
        }
        lemma_sorted_unique(carts, s2, t2);
        assert(s =~= seq![s[0]] + s2);
        assert(t =~= seq![t[0]] + t2);
    }
}

/// `o` with `i` put in the place where it moves.
pub open spec fn insert_sorted(carts: Seq<Cart>, o: Seq<usize>, i: usize) -> Seq<usize>
    decreases o.len(),
{
    if o.len() == 0 {
        seq![i]
    } else if moves_before(carts, i as int, o[0] as int) {
        seq![i] + o
    } else {
        seq![o[0]] + insert_sorted(carts, o.drop_first(), i)
    }
}

/// The alive carts among the first `n`, in the order in which they move.
pub open spec fn sorted_alive(carts: Seq<Cart>, n: nat) -> Seq<usize>
    decreases n,
{
    if n == 0 {
        Seq::empty()
    } else if carts[n - 1].alive {
        insert_sorted(carts, sorted_alive(carts, (n - 1) as nat), (n - 1) as usize)
    } else {
        sorted_alive(carts, (n - 1) as nat)
    }
}

proof fn lemma_moves_before_order(carts: Seq<Cart>, a: int, b: int, c: int)
    ensures
        moves_before(carts, a, b) && moves_before(carts, b, c) ==> moves_before(carts, a, c),
        a != b ==> moves_before(carts, a, b) || moves_before(carts, b, a),
{
}

proof fn lemma_insert_sorted(carts: Seq<Cart>, o: Seq<usize>, i: usize)
    requires
        forall|a: int, b: int|
            #![trigger o[a], o[b]]
            0 <= a < b < o.len() ==> moves_before(carts, o[a] as int, o[b] as int),
        !o.contains(i),
    ensures
        ({
            let r = insert_sorted(carts, o, i);
            &&& forall|a: int, b: int|
                #![trigger r[a], r[b]]
                0 <= a < b < r.len() ==> moves_before(carts, r[a] as int, r[b] as int)
            &&& forall|v: usize| r.contains(v) <==> (o.contains(v) || v == i)
        }),
    decreases o.len(),
{
    let r = insert_sorted(carts, o, i);
    if o.len() == 0 {
        assert(r[0] == i);
    } else if moves_before(carts, i as int, o[0] as int) {
        assert forall|a: int, b: int|
            #![trigger r[a], r[b]]
            0 <= a < b < r.len() implies moves_before(carts, r[a] as int, r[b] as int) by {
            if a == 0 && b > 1 {
                assert(moves_before(carts, o[0] as int, o[b - 1] as int));
                lemma_moves_before_order(carts, i as int, o[0] as int, o[b - 1] as int);
            } else if a > 0 {
                assert(r[a] == o[a - 1] && r[b] == o[b - 1]);
            }
        }
        assert forall|v: usize| r.contains(v) <==> (o.contains(v) || v == i) by {
            if r.contains(v) && v != i {
                let k = choose|k: int| 0 <= k < r.len() && r[k] == v;
                assert(o[k - 1] == v);
            }
            if o.contains(v) {
                let k = choose|k: int| 0 <= k < o.len() && o[k] == v;
                assert(r[k + 1] == v);
            }
            if v == i {
                assert(r[0] == v);
            }
        }
    } else {
        let rest = o.drop_first();
        assert(o.contains(o[0]));
        assert forall|a: int, b: int|
            #![trigger rest[a], rest[b]]
            0 <= a < b < rest.len() implies moves_before(carts, rest[a] as int, rest[b] as int) by {
            assert(rest[a] == o[a + 1] && rest[b] == o[b + 1]);
        }
        assert(!rest.contains(i)) by {
            if rest.contains(i) {
                let k = choose|k: int| 0 <= k < rest.len() && rest[k] == i;
                assert(o[k + 1] == i);
            }
        }
        lemma_insert_sorted(carts, rest, i);
        let tail = insert_sorted(carts, rest, i);
        lemma_moves_before_order(carts, o[0] as int, i as int, o[0] as int);
        assert(r == seq![o[0]] + tail);
        assert forall|a: int, b: int|
            #![trigger r[a], r[b]]
            0 <= a < b < r.len() implies moves_before(carts, r[a] as int, r[b] as int) by {
            if a == 0 {
                assert(r[b] == tail[b - 1]);
                assert(tail.contains(tail[b - 1]));
                if tail[b - 1] != i {
                    let k = choose|k: int| 0 <= k < rest.len() && rest[k] == tail[b - 1];
                    assert(o[k + 1] == tail[b - 1]);
                }
            } else {
                assert(r[a] == tail[a - 1] && r[b] == tail[b - 1]);
            }
        }
        assert forall|v: usize| r.contains(v) <==> (o.contains(v) || v == i) by {
            if r.contains(v) && v != o[0] {
                let k = choose|k: int| 0 <= k < r.len() && r[k] == v;
                assert(tail[k - 1] == v);
                assert(tail.contains(v));
                if v != i {
                    let m = choose|m: int| 0 <= m < rest.len() && rest[m] == v;
                    assert(o[m + 1] == v);
                }
            }
            if v == o[0] {
                assert(r[0] == v);
            }
            if (o.contains(v) && v != o[0]) || v == i {
                if v != i {
                    let k = choose|k: int| 0 <= k < o.len() && o[k] == v;
                    assert(rest[k - 1] == v);
                }
                assert(tail.contains(v));
                let m = choose|m: int| 0 <= m < tail.len() && tail[m] == v;
                assert(r[m + 1] == v);
            }
        }
    }
}

proof fn lemma_sorted_alive(carts: Seq<Cart>, n: nat)
    requires
        n <= carts.len() <= usize::MAX,
    ensures
        ({
            let o = sorted_alive(carts, n);
            &&& forall|k: int|
                0 <= k < o.len() ==> #[trigger] o[k] < n && carts[o[k] as int].alive
            &&& forall|i: int| 0 <= i < n && #[trigger] carts[i].alive ==> o.contains(i as usize)
            &&& forall|a: int, b: int|
                #![trigger o[a], o[b]]
                0 <= a < b < o.len() ==> moves_before(carts, o[a] as int, o[b] as int)
        }),
    decreases n,
{
    if n > 0 {
        let prev = sorted_alive(carts, (n - 1) as nat);
        lemma_sorted_alive(carts, (n - 1) as nat);
        if carts[n - 1].alive {
            let i = (n - 1) as usize;
            assert(!prev.contains(i)) by {
                if prev.contains(i) {
                    let k = choose|k: int| 0 <= k < prev.len() && prev[k] == i;
                    assert(prev[k] < n - 1);
                }
            }
            lemma_insert_sorted(carts, prev, i);
            let o = sorted_alive(carts, n);
            assert forall|k: int| 0 <= k < o.len() implies #[trigger] o[k] < n && carts[o[k] as int].alive by {
                assert(o.contains(o[k]));
                if o[k] != i {
                    let m = choose|m: int| 0 <= m < prev.len() && prev[m] == o[k];
                    assert(prev[m] < n - 1);
                }
            }
        }
    }
}

/// Every set of carts has a reading order.
pub proof fn lemma_reading_order_exists(carts: Seq<Cart>)
    requires
        carts.len() <= usize::MAX,
    ensures
        is_reading_order(carts, reading_order(carts)),
{
    lemma_sorted_alive(carts, carts.len());
    assert(is_reading_order(carts, sorted_alive(carts, carts.len())));
}

/// There is one reading order only: the order in which carts move is fixed by the
/// carts alone.
pub proof fn lemma_reading_order_unique(carts: Seq<Cart>, o1: Seq<usize>, o2: Seq<usize>)
    requires
        is_reading_order(carts, o1),
        is_reading_order(carts, o2),
    ensures
        o1 == o2,
{
    assert forall|v: usize| o1.contains(v) <==> o2.contains(v) by {
        if o1.contains(v) {
            let k = choose|k: int| 0 <= k < o1.len() && o1[k] == v;
            assert(o1[k] < carts.len() && carts[o1[k] as int].alive);
        }
        if o2.contains(v) {
            let k = choose|k: int| 0 <= k < o2.len() && o2[k] == v;
            assert(o2[k] < carts.len() && carts[o2[k] as int].alive);
        }
    }
    lemma_sorted_unique(carts, o1, o2);
}

fn moves_first(carts: &Vec<Cart>, a: usize, b: usize) -> (r: bool)
    requires
        a < carts@.len(),
        b < carts@.len(),
    ensures
        r == moves_before(carts@, a as int, b as int),
{
    let ca = carts[a];
    let cb = carts[b];
    ca.y < cb.y || (ca.y == cb.y && ca.x < cb.x) || (ca.x == cb.x && ca.y == cb.y && a < b)
}

/// The indices of the alive carts, in the order in which they move in the next tick.
pub fn sort_carts(carts: &Vec<Cart>) -> (order: Vec<usize>)
    ensures
        is_reading_order(carts@, order@),
        order@ == reading_order(carts@),
{
    let mut order: Vec<usize> = Vec::new();
    let mut i: usize = 0;
    while i < carts.len()
        invariant
            i <= carts@.len(),
            forall|k: int|
                0 <= k < order@.len() ==> #[trigger] order@[k] < i && carts@[order@[k] as int].alive,
            forall|j: int| 0 <= j < i && #[trigger] carts@[j].alive ==> order@.contains(j as usize),
            forall|a: int, b: int|
                #![trigger order@[a], order@[b]]
                0 <= a < b < order@.len() ==> moves_before(carts@, order@[a] as int, order@[b] as int),
        decreases carts@.len() - i,
    {
        if carts[i].alive {
            let mut pos: usize = 0;
            while pos < order.len() && !moves_first(carts, i, order[pos])
                invariant
                    pos <= order@.len(),
                    i < carts@.len(),
                    forall|k: int| 0 <= k < order@.len() ==> #[trigger] order@[k] < i,
                    forall|k: int|
                        0 <= k < pos ==> moves_before(carts@, #[trigger] order@[k] as int, i as int),
                decreases order@.len() - pos,
            {
                assert(order@[pos as int] < i);
                pos = pos + 1;
            }
            let ghost before = order@;
            order.insert(pos, i);
            assert forall|a: int, b: int|
                #![trigger order@[a], order@[b]]
                0 <= a < b < order@.len() implies moves_before(
                    carts@,
                    order@[a] as int,
                    order@[b] as int,
                ) by {
                if b < pos {
                    assert(order@[a] == before[a] && order@[b] == before[b]);
                } else if b == pos {
                    assert(order@[a] == before[a]);
                } else if a < pos {
                    assert(order@[a] == before[a] && order@[b] == before[b - 1]);
                    assert(moves_before(carts@, before[a] as int, i as int));
                    assert(moves_before(carts@, i as int, before[pos as int] as int));
                    if b - 1 > pos {
                        assert(moves_before(carts@, before[pos as int] as int, before[b - 1] as int));
                    }
                } else if a == pos {
                    assert(order@[b] == before[b - 1]);
                    assert(moves_before(carts@, i as int, before[pos as int] as int));
                    if b - 1 > pos {
                        assert(moves_before(carts@, before[pos as int] as int, before[b - 1] as int));
                    }
                } else {
                    assert(order@[a] == before[a - 1] && order@[b] == before[b - 1]);
                }
            }
            assert forall|j: int| 0 <= j < i + 1 && #[trigger] carts@[j].alive implies order@.contains(
                j as usize,
            ) by {
                if j == i {
                    assert(order@[pos as int] == i);
                } else {
                    let k = choose|k: int| 0 <= k < before.len() && before[k] == j as usize;
                    if k < pos {
                        assert(order@[k] == j as usize);
                    } else {
                        assert(order@[k + 1] == j as usize);
                    }
                }
            }
        }
        i = i + 1;
    }
    proof {
        let o = reading_order(carts@);
        assert(is_reading_order(carts@, order@));
        lemma_reading_order_unique(carts@, o, order@);
    }
    order
}

} // verus!
