//! A circle of marbles kept as a doubly linked ring inside a vector.
use vstd::prelude::*;

verus! {

/// A marble with its points and the indices of its neighbours in the circle.
#[derive(Clone, Copy, Debug, PartialEq, Eq, Structural)]
pub struct Marble {
    pub points: usize,
    pub left: usize,
    pub right: usize,
}

/// Every neighbour index points into the circle.
pub open spec fn links_in_range(circle: Seq<Marble>) -> bool {
    forall|k: int|
        0 <= k < circle.len() ==> (#[trigger] circle[k]).left < circle.len() && circle[k].right
            < circle.len()
}

/// The index reached from `at` after `steps` moves to the left.
pub open spec fn left_of(circle: Seq<Marble>, at: int, steps: nat) -> int
    decreases steps,
{
    if steps == 0 {
        at
    } else {
        circle[left_of(circle, at, (steps - 1) as nat)].left as int
    }
}

/// The index reached from `at` after `steps` moves to the right.
pub open spec fn right_of(circle: Seq<Marble>, at: int, steps: nat) -> int
    decreases steps,
{
    if steps == 0 {
        at
    } else {
        circle[right_of(circle, at, (steps - 1) as nat)].right as int
    }
}

/// The index reached from `current_position` after `steps` moves to the left.
pub fn move_left(circle: &Vec<Marble>, current_position: usize, steps: usize) -> (r: usize)
    requires
        links_in_range(circle@),
        current_position < circle@.len(),
    ensures
        r == left_of(circle@, current_position as int, steps as nat),
        r < circle@.len(),
{
    let mut next_position = current_position;
    let mut k: usize = 0;
    while k < steps
        invariant
            k <= steps,
            links_in_range(circle@),
            next_position < circle@.len(),
            next_position == left_of(circle@, current_position as int, k as nat),
        decreases steps - k,
    {
        next_position = circle[next_position].left;
        k = k + 1;
    }
    next_position
}

/// The index reached from `current_position` after `steps` moves to the right.
pub fn move_right(circle: &Vec<Marble>, current_position: usize, steps: usize) -> (r: usize)
    requires
        links_in_range(circle@),
        current_position < circle@.len(),
    ensures
        r == right_of(circle@, current_position as int, steps as nat),
        r < circle@.len(),
{
    let mut next_position = current_position;
    let mut k: usize = 0;
    while k < steps
        invariant
            k <= steps,
            links_in_range(circle@),
            next_position < circle@.len(),
            next_position == right_of(circle@, current_position as int, k as nat),
        decreases steps - k,
    {
        next_position = circle[next_position].right;
        k = k + 1;
    }
    next_position
}

/// The circle after a marble worth `points` is linked in right of `at`, at index
/// `circle.len()`.
pub open spec fn inserted(circle: Seq<Marble>, at: int, points: usize) -> Seq<Marble> {
    let next = circle.len() as usize;
    let right = circle[at].right as int;
    let pushed = circle.push(Marble { points, left: at as usize, right: right as usize });
    let linked = pushed.update(at, Marble { right: next, ..pushed[at] });
    linked.update(right, Marble { left: next, ..linked[right] })
}

/// The circle after the marble at `at` is unlinked from its neighbours.
pub open spec fn unlinked(circle: Seq<Marble>, at: int) -> Seq<Marble> {
    let left = circle[at].left as int;
    let right = circle[at].right as int;
    let once = circle.update(left, Marble { right: right as usize, ..circle[left] });
    once.update(right, Marble { left: left as usize, ..once[right] })
}

/// Links a new marble worth `points` in right of the marble at `current_position`;
/// returns the new marble's index.
pub fn insert(circle: &mut Vec<Marble>, current_position: usize, points: usize) -> (r: usize)
    requires
        links_in_range(old(circle)@),
        current_position < old(circle)@.len(),
        old(circle)@.len() < usize::MAX,
    ensures
        r == old(circle)@.len(),
        final(circle)@ == inserted(old(circle)@, current_position as int, points),
        links_in_range(final(circle)@),
{
    let next_position = circle.len();
    let current_right = circle[current_position].right;
    circle.push(Marble { points: points, left: current_position, right: current_right });
    let c = circle[current_position];
    circle.set(current_position, Marble { right: next_position, ..c });
    let d = circle[current_right];
    circle.set(current_right, Marble { left: next_position, ..d });
    proof {
        let s = circle@;
        assert forall|k: int| 0 <= k < s.len() implies (#[trigger] s[k]).left < s.len() && s[k].right
            < s.len() by {
            if k < s.len() - 1 {
                assert(old(circle)@[k].left < s.len() - 1);
            }
        }
    }
    next_position
}

/// Unlinks the marble at `current_position` from its neighbours; returns its points.
pub fn remove(circle: &mut Vec<Marble>, current_position: usize) -> (r: usize)
    requires
        links_in_range(old(circle)@),
        current_position < old(circle)@.len(),
    ensures
        r == old(circle)@[current_position as int].points,
        final(circle)@ == unlinked(old(circle)@, current_position as int),
        links_in_range(final(circle)@),
{
    let left = circle[current_position].left;
    let right = circle[current_position].right;
    let l = circle[left];
    circle.set(left, Marble { right: right, ..l });
    let m = circle[right];
    circle.set(right, Marble { left: left, ..m });
    proof {
        let s = circle@;
        assert forall|k: int| 0 <= k < s.len() implies (#[trigger] s[k]).left < s.len() && s[k].right
            < s.len() by {
            assert(old(circle)@[k].left < s.len());
        }
    }
    circle[current_position].points
}

} // verus!
