//! The simulation: ticks in reading order, collisions resolved as they happen.
use vstd::prelude::*;
use crate::carts::{move_cart, step_of, Cart};
use crate::order::{
    is_reading_order, lemma_reading_order_exists, lemma_reading_order_unique, reading_order,
    sort_carts,
};
use crate::track::{in_grid, straight_for, Grid, Point, Tile, TrackError};

verus! {

/// Whether an alive cart other than cart `i` stands at `(x, y)`.
pub open spec fn occupied_by_other(carts: Seq<Cart>, i: int, x: usize, y: usize) -> bool {
    exists|j: int|
        0 <= j < carts.len() && j != i && #[trigger] carts[j].alive && carts[j].x == x && carts[j].y
            == y
}

/// The carts after every alive cart at `(x, y)` has been taken off the track.
pub open spec fn wrecked_at(carts: Seq<Cart>, x: usize, y: usize) -> Seq<Cart> {
    carts.map_values(
        |c: Cart|
            if c.alive && c.x == x && c.y == y {
                Cart { alive: false, ..c }
            } else {
                c
            },
    )
}

/// Cart `i` takes its turn: a dead cart stays put; an alive one steps, and if it lands
/// where another alive cart stands, every alive cart there is removed and the cell is
/// reported.
pub open spec fn turn_of(g: Seq<Seq<Tile>>, carts: Seq<Cart>, i: int) -> Result<
    (Seq<Cart>, Option<Point>),
    TrackError,
> {
    if !carts[i].alive {
        Ok((carts, None))
    } else {
        match step_of(g, carts[i]) {
            Err(e) => Err(e),
            Ok(c) => {
                let moved = carts.update(i, c);
                if occupied_by_other(moved, i, c.x, c.y) {
                    Ok((wrecked_at(moved, c.x, c.y), Some(Point { x: c.x, y: c.y })))
                } else {
                    Ok((moved, None))
                }
            },
        }
    }
}

/// The carts take their turns in `order`; the result holds the carts and the cells of
/// the collisions, in the order they happened.
pub open spec fn turns_in_order(g: Seq<Seq<Tile>>, carts: Seq<Cart>, order: Seq<usize>) -> Result<
    (Seq<Cart>, Seq<Point>),
    TrackError,
>
    decreases order.len(),
{
    if order.len() == 0 {
        Ok((carts, Seq::empty()))
    } else {
        match turns_in_order(g, carts, order.drop_last()) {
            Err(e) => Err(e),
            Ok((cs, crashes)) => match turn_of(g, cs, order.last() as int) {
                Err(e) => Err(e),
                Ok((next, None)) => Ok((next, crashes)),
                Ok((next, Some(p))) => Ok((next, crashes.push(p))),
            },
        }
    }
}

/// One tick: every cart that is alive at its start takes its turn in reading order.
pub open spec fn tick_of(g: Seq<Seq<Tile>>, carts: Seq<Cart>) -> Result<
    (Seq<Cart>, Seq<Point>),
    TrackError,
> {
    turns_in_order(g, carts, reading_order(carts))
}

/// No two alive carts stand on one cell.
pub open spec fn apart(carts: Seq<Cart>) -> bool {
    forall|a: int, b: int|
        #![trigger carts[a], carts[b]]
        0 <= a < carts.len() && 0 <= b < carts.len() && a != b && carts[a].alive && carts[b].alive
            ==> !(carts[a].x == carts[b].x && carts[a].y == carts[b].y)
}

/// The number of alive carts.
pub open spec fn alive_count(carts: Seq<Cart>) -> nat
    decreases carts.len(),
{
    if carts.len() == 0 {
        0
    } else {
        alive_count(carts.drop_last()) + if carts.last().alive {
            1nat
        } else {
            0nat
        }
    }
}

/// Whatever reading order a tick follows, its outcome is the same: a tick depends on
/// the grid and the carts alone.
pub proof fn lemma_tick_determined(g: Seq<Seq<Tile>>, carts: Seq<Cart>, order: Seq<usize>)
    requires
        is_reading_order(carts, order),
    ensures
        tick_of(g, carts) == turns_in_order(g, carts, order),
{
    lemma_reading_order_unique(carts, order, reading_order(carts));
}

proof fn lemma_count_update(s: Seq<Cart>, i: int, c: Cart)
    requires
        0 <= i < s.len(),
    ensures
        alive_count(s.update(i, c)) + (if s[i].alive {
            1int
        } else {
            0int
        }) == alive_count(s) + (if c.alive {
            1int
        } else {
            0int
        }),
    decreases s.len(),
{
    let u = s.update(i, c);
    if i == s.len() - 1 {
        assert(u.drop_last() =~= s.drop_last());
    } else {
        assert(u.drop_last() =~= s.drop_last().update(i, c));
        lemma_count_update(s.drop_last(), i, c);
    }
}

proof fn lemma_turn_apart(g: Seq<Seq<Tile>>, cs: Seq<Cart>, i: int)
    requires
        apart(cs),
        0 <= i < cs.len(),
        turn_of(g, cs, i) is Ok,
    ensures
        ({
            let (next, crash) = turn_of(g, cs, i)->Ok_0;
            &&& next.len() == cs.len()
            &&& apart(next)
            &&& alive_count(next) + (if crash is Some {
                2int
            } else {
                0int
            }) == alive_count(cs)
        }),
{
    if cs[i].alive {
        let c = step_of(g, cs[i])->Ok_0;
        let moved = cs.update(i, c);
        lemma_count_update(cs, i, c);
        if occupied_by_other(moved, i, c.x, c.y) {
            let j = choose|j: int|
                0 <= j < moved.len() && j != i && #[trigger] moved[j].alive && moved[j].x == c.x
                    && moved[j].y == c.y;
            let next = wrecked_at(moved, c.x, c.y);
            let once = moved.update(i, Cart { alive: false, ..c });
            let twice = once.update(j, Cart { alive: false, ..moved[j] });
            assert forall|k: int| 0 <= k < next.len() implies next[k] == twice[k] by {
                if k != i && k != j && moved[k].alive && moved[k].x == c.x && moved[k].y == c.y {
                    assert(cs[k] == moved[k] && cs[j] == moved[j]);
                }
            }
            assert(next =~= twice);
            lemma_count_update(moved, i, Cart { alive: false, ..c });
            lemma_count_update(once, j, Cart { alive: false, ..moved[j] });
            assert forall|a: int, b: int|
                #![trigger next[a], next[b]]
                0 <= a < next.len() && 0 <= b < next.len() && a != b && next[a].alive
                    && next[b].alive implies !(next[a].x == next[b].x && next[a].y == next[b].y) by {
                assert(a != i && b != i);
                assert(next[a] == cs[a] && next[b] == cs[b]);
            }
        } else {
            assert forall|a: int, b: int|
                #![trigger moved[a], moved[b]]
                0 <= a < moved.len() && 0 <= b < moved.len() && a != b && moved[a].alive
                    && moved[b].alive implies !(moved[a].x == moved[b].x && moved[a].y == moved[b].y) by {
                if a == i {
                    assert(!(moved[b].alive && moved[b].x == c.x && moved[b].y == c.y));
                } else if b == i {
                    assert(!(moved[a].alive && moved[a].x == c.x && moved[a].y == c.y));
                } else {
                    assert(moved[a] == cs[a] && moved[b] == cs[b]);
                }
            }
        }
    }
}

proof fn lemma_turns_apart(g: Seq<Seq<Tile>>, cs: Seq<Cart>, order: Seq<usize>)
    requires
        apart(cs),
        forall|k: int| 0 <= k < order.len() ==> #[trigger] order[k] < cs.len(),
        turns_in_order(g, cs, order) is Ok,
    ensures
        ({
            let (next, crashes) = turns_in_order(g, cs, order)->Ok_0;
            &&& next.len() == cs.len()
            &&& apart(next)
            &&& alive_count(next) + 2 * crashes.len() == alive_count(cs)
        }),
    decreases order.len(),
{
    if order.len() > 0 {
        let prefix = order.drop_last();
        assert forall|k: int| 0 <= k < prefix.len() implies #[trigger] prefix[k] < cs.len() by {
            assert(prefix[k] == order[k]);
        }
        lemma_turns_apart(g, cs, prefix);
        let (mid, _) = turns_in_order(g, cs, prefix)->Ok_0;
        assert(order[order.len() - 1] < cs.len());
        lemma_turn_apart(g, mid, order.last() as int);
    }
}

/// After a tick that starts with no two alive carts on one cell, no two alive carts share
/// a cell, and each collision of the tick has taken exactly two carts off the track.
pub proof fn lemma_tick_keeps_carts_apart(g: Seq<Seq<Tile>>, carts: Seq<Cart>)
    requires
        carts.len() <= usize::MAX,
        apart(carts),
        tick_of(g, carts) is Ok,
    ensures
        ({
            let (next, crashes) = tick_of(g, carts)->Ok_0;
            &&& next.len() == carts.len()
            &&& apart(next)
            &&& alive_count(next) == alive_count(carts) - 2 * crashes.len()
        }),
{
    let order = reading_order(carts);
    lemma_reading_order_exists(carts);
    assert forall|k: int| 0 <= k < order.len() implies #[trigger] order[k] < carts.len() by {}
    lemma_turns_apart(g, carts, order);
}

fn copy_carts(carts: &Vec<Cart>) -> (r: Vec<Cart>)
    ensures
        r@ == carts@,
{
    let mut r: Vec<Cart> = Vec::new();
    let mut k: usize = 0;
    while k < carts.len()
        invariant
            k <= carts@.len(),
            r@ == carts@.subrange(0, k as int),
        decreases carts@.len() - k,
    {
        r.push(carts[k]);
        k = k + 1;
    }
    assert(r@ =~= carts@);
    r
}

fn occupied(carts: &Vec<Cart>, i: usize, x: usize, y: usize) -> (r: bool)
    ensures
        r == occupied_by_other(carts@, i as int, x, y),
{
    let mut k: usize = 0;
    while k < carts.len()
        invariant
            k <= carts@.len(),
            forall|j: int|
                0 <= j < k && j != i ==> !(#[trigger] carts@[j].alive && carts@[j].x == x
                    && carts@[j].y == y),
        decreases carts@.len() - k,
    {
        let c = carts[k];
        if k != i && c.alive && c.x == x && c.y == y {
            return true;
        }
        k = k + 1;
    }
    false
}

/// The point itself, if it is among `points`.
pub fn find_duplicate(point: &Point, points: &Vec<Point>) -> (r: Option<Point>)
    ensures
        r == (if points@.contains(*point) {
            Some(*point)
        } else {
            None::<Point>
        }),
{
    let mut k: usize = 0;
    while k < points.len()
        invariant
            k <= points@.len(),
            forall|j: int| 0 <= j < k ==> points@[j] != *point,
        decreases points@.len() - k,
    {
        if points[k] == *point {
            return Some(Point { x: point.x, y: point.y });
        }
        k = k + 1;
    }
    None
}

fn wreck(carts: &mut Vec<Cart>, x: usize, y: usize)
    ensures
        final(carts)@ == wrecked_at(old(carts)@, x, y),
{
    let ghost start = carts@;
    let mut k: usize = 0;
    while k < carts.len()
        invariant
            k <= carts@.len(),
            carts@.len() == start.len(),
            forall|j: int| 0 <= j < k ==> #[trigger] carts@[j] == wrecked_at(start, x, y)[j],
            forall|j: int| k <= j < carts@.len() ==> #[trigger] carts@[j] == start[j],
        decreases carts@.len() - k,
    {
        let c = carts[k];
        if c.alive && c.x == x && c.y == y {
            carts.set(k, Cart { alive: false, ..c });
        }
        k = k + 1;
    }
    assert(carts@ =~= wrecked_at(start, x, y));
}

/// Runs one tick: each cart alive at its start moves once, in reading order, and a
/// collision takes the carts involved off the track at once. Returns the cells of the
/// tick's collisions in the order they happened. On an error the carts are left as
/// they were.
pub fn move_carts(grid: &Grid, carts: &mut Vec<Cart>) -> (r: Result<Vec<Point>, TrackError>)
    ensures
        match tick_of(grid@, old(carts)@) {
            Ok((next, crashes)) => r matches Ok(v) && v@ == crashes && final(carts)@ == next,
            Err(e) => r == Err::<Vec<Point>, TrackError>(e) && final(carts)@ == old(carts)@,
        },
        apart(old(carts)@) && r is Ok ==> apart(final(carts)@) && alive_count(final(carts)@)
            == alive_count(old(carts)@) - 2 * r->Ok_0@.len(),
{
    let order = sort_carts(carts);
    let n: usize = carts.len();
    let mut work = copy_carts(carts);
    let mut crashes: Vec<Point> = Vec::new();
    let ghost start = carts@;
    let mut k: usize = 0;
    while k < order.len()
        invariant
            k <= order@.len(),
            order@ == reading_order(start),
            is_reading_order(start, order@),
            start == carts@,
            turns_in_order(grid@, start, order@.subrange(0, k as int)) == Ok::<
                (Seq<Cart>, Seq<Point>),
                TrackError,
            >((work@, crashes@)),
            work@.len() == start.len(),
            start.len() == n,
        decreases order@.len() - k,
    {
        let i = order[k];
        let ghost prefix = order@.subrange(0, k as int + 1);
        assert(prefix.drop_last() =~= order@.subrange(0, k as int));
        assert(prefix.last() == i);
        assert(i < start.len());
        if work[i].alive {
            let mut c = work[i];
            match move_cart(&mut c, grid) {
                Ok(()) => {},
                Err(e) => {
                    proof {
                        lemma_error_persists(grid@, start, order@, k as int + 1);
                        assert(order@.subrange(0, order@.len() as int) =~= order@);
                    }
                    return Err(e);
                },
            }
            work.set(i, c);
            if occupied(&work, i, c.x, c.y) {
                wreck(&mut work, c.x, c.y);
                crashes.push(Point { x: c.x, y: c.y });
            }
        }
        k = k + 1;
    }
    assert(order@.subrange(0, order@.len() as int) =~= order@);
    proof {
        if apart(start) {
            lemma_tick_keeps_carts_apart(grid@, start);
        }
    }
    *carts = work;
    Ok(crashes)
}

proof fn lemma_error_persists(g: Seq<Seq<Tile>>, carts: Seq<Cart>, order: Seq<usize>, k: int)
    requires
        0 <= k <= order.len(),
        turns_in_order(g, carts, order.subrange(0, k)) is Err,
    ensures
        turns_in_order(g, carts, order) == turns_in_order(g, carts, order.subrange(0, k)),
    decreases order.len() - k,
{
    if k < order.len() {
        let longer = order.subrange(0, k + 1);
        assert(longer.drop_last() =~= order.subrange(0, k));
        lemma_error_persists(g, carts, order, k + 1);
    } else {
        assert(order.subrange(0, k) =~= order);
    }
}

/// Where and in which tick (counted from 1) the first collision of a run happened.
#[derive(Clone, Copy, Debug, PartialEq, Eq, Structural)]
pub struct CollisionEvent {
    pub position: Point,
    pub tick: u64,
}

/// Where a run stopped: its carts, the first collision if there was one, and the number
/// of ticks it ran.
#[derive(Debug)]
pub struct Outcome {
    pub carts: Vec<Cart>,
    pub first_collision: Option<CollisionEvent>,
    pub ticks: u64,
}

/// The first collision once a tick with `crashes` has ended as tick number `tick`.
pub open spec fn first_after(first: Option<CollisionEvent>, crashes: Seq<Point>, tick: nat) -> Option<
    CollisionEvent,
> {
    if first is None && crashes.len() > 0 {
        Some(CollisionEvent { position: crashes[0], tick: tick as u64 })
    } else {
        first
    }
}

/// At most `fuel` more ticks from the carts `carts` after `done` ticks, stopping early
/// once at most one cart is alive. Holds the carts, the first collision and the number
/// of ticks run.
pub open spec fn run_of(
    g: Seq<Seq<Tile>>,
    carts: Seq<Cart>,
    first: Option<CollisionEvent>,
    done: nat,
    fuel: nat,
) -> Result<(Seq<Cart>, Option<CollisionEvent>, nat), TrackError>
    decreases fuel,
{
    if alive_count(carts) <= 1 || fuel == 0 {
        Ok((carts, first, done))
    } else {
        match tick_of(g, carts) {
            Err(e) => Err(e),
            Ok((next, crashes)) => run_of(
                g,
                next,
                first_after(first, crashes, done + 1),
                done + 1,
                (fuel - 1) as nat,
            ),
        }
    }
}

/// What is wrong with cart `c` as a starting cart, if anything: an alive cart must stand
/// inside the grid on straight track along its facing.
pub open spec fn start_fault_of(g: Seq<Seq<Tile>>, c: Cart) -> Option<TrackError> {
    if !c.alive {
        None
    } else if !in_grid(g, c.x as int, c.y as int) {
        Some(TrackError::OutOfBounds)
    } else if g[c.y as int][c.x as int] != straight_for(c.direction) {
        Some(TrackError::InvalidTrack)
    } else {
        None
    }
}

/// The fault of the first faulty cart, in index order.
pub open spec fn start_fault(g: Seq<Seq<Tile>>, carts: Seq<Cart>) -> Option<TrackError>
    decreases carts.len(),
{
    if carts.len() == 0 {
        None
    } else {
        match start_fault(g, carts.drop_last()) {
            Some(e) => Some(e),
            None => start_fault_of(g, carts.last()),
        }
    }
}

/// The number of alive carts.
pub fn count_alive(carts: &Vec<Cart>) -> (n: usize)
    ensures
        n == alive_count(carts@),
{
    let mut n: usize = 0;
    let mut k: usize = 0;
    while k < carts.len()
        invariant
            k <= carts@.len(),
            n == alive_count(carts@.subrange(0, k as int)),
            n <= k,
        decreases carts@.len() - k,
    {
        assert(carts@.subrange(0, k as int + 1).drop_last() =~= carts@.subrange(0, k as int));
        if carts[k].alive {
            n = n + 1;
        }
        k = k + 1;
    }
    assert(carts@.subrange(0, k as int) =~= carts@);
    n
}

proof fn lemma_count_zero(s: Seq<Cart>)
    requires
        forall|j: int| 0 <= j < s.len() ==> !(#[trigger] s[j].alive),
    ensures
        alive_count(s) == 0,
    decreases s.len(),
{
    if s.len() > 0 {
        assert forall|j: int| 0 <= j < s.len() - 1 implies !(#[trigger] s.drop_last()[j].alive) by {
            assert(s.drop_last()[j] == s[j]);
        }
        lemma_count_zero(s.drop_last());
    }
}

impl Outcome {
    /// The cell of the one cart left, if exactly one is left.
    pub fn survivor(&self) -> (r: Option<Point>)
        ensures
            r is Some <==> alive_count(self.carts@) == 1,
            r matches Some(p) ==> exists|i: int|
                0 <= i < self.carts@.len() && #[trigger] self.carts@[i].alive && self.carts@[i].x
                    == p.x && self.carts@[i].y == p.y,
    {
        if count_alive(&self.carts) != 1 {
            return None;
        }
        let mut k: usize = 0;
        while k < self.carts.len()
            invariant
                k <= self.carts@.len(),
                alive_count(self.carts@) == 1,
                forall|j: int| 0 <= j < k ==> !(#[trigger] self.carts@[j].alive),
            decreases self.carts@.len() - k,
        {
            if self.carts[k].alive {
                return Some(self.carts[k].position());
            }
            k = k + 1;
        }
        proof {
            lemma_count_zero(self.carts@);
        }
        None
    }

    pub fn first_collision(&self) -> (r: Option<CollisionEvent>)
        ensures
            r == self.first_collision,
    {
        self.first_collision
    }

    pub fn alive_count(&self) -> (n: usize)
        ensures
            n == alive_count(self.carts@),
    {
        count_alive(&self.carts)
    }
}

fn start_check(grid: &Grid, carts: &Vec<Cart>) -> (r: Option<TrackError>)
    ensures
        r == start_fault(grid@, carts@),
{
    let mut k: usize = 0;
    while k < carts.len()
        invariant
            k <= carts@.len(),
            start_fault(grid@, carts@.subrange(0, k as int)) is None,
        decreases carts@.len() - k,
    {
        assert(carts@.subrange(0, k as int + 1).drop_last() =~= carts@.subrange(0, k as int));
        let c = carts[k];
        if c.alive {
            match grid.tile_at(c.x, c.y) {
                Err(e) => {
                    proof {
                        lemma_fault_persists(grid@, carts@, k as int + 1);
                    }
                    return Some(e);
                },
                Ok(t) => {
                    let want = if c.horizontal() {
                        Tile::Horizontal
                    } else {
                        Tile::Vertical
                    };
                    if t != want {
                        proof {
                            lemma_fault_persists(grid@, carts@, k as int + 1);
                        }
                        return Some(TrackError::InvalidTrack);
                    }
                },
            }
        }
        k = k + 1;
    }
    assert(carts@.subrange(0, k as int) =~= carts@);
    None
}

proof fn lemma_fault_persists(g: Seq<Seq<Tile>>, carts: Seq<Cart>, k: int)
    requires
        0 <= k <= carts.len(),
        start_fault(g, carts.subrange(0, k)) is Some,
    ensures
        start_fault(g, carts) == start_fault(g, carts.subrange(0, k)),
    decreases carts.len() - k,
{
    if k < carts.len() {
        assert(carts.subrange(0, k + 1).drop_last() =~= carts.subrange(0, k));
        lemma_fault_persists(g, carts, k + 1);
    } else {
        assert(carts.subrange(0, k) =~= carts);
    }
}

/// Runs the carts on the grid until at most one is alive, or until `max_ticks` ticks
/// have run. Fewer than two alive carts at the start, or an alive cart that does not
/// stand on straight track along its facing, is refused before any tick.
pub fn simulate(grid: &Grid, carts: Vec<Cart>, max_ticks: u64) -> (r: Result<Outcome, TrackError>)
    ensures
        alive_count(carts@) < 2 ==> r == Err::<Outcome, TrackError>(TrackError::InsufficientCarts),
        alive_count(carts@) >= 2 && start_fault(grid@, carts@) is Some ==> r == Err::<
            Outcome,
            TrackError,
        >(start_fault(grid@, carts@)->Some_0),
        alive_count(carts@) >= 2 && start_fault(grid@, carts@) is None ==> match run_of(
            grid@,
            carts@,
            None,
            0,
            max_ticks as nat,
        ) {
            Ok((cs, first, done)) => r matches Ok(o) && o.carts@ == cs && o.first_collision == first
                && o.ticks == done,
            Err(e) => r == Err::<Outcome, TrackError>(e),
        },
        apart(carts@) && r is Ok ==> apart(r->Ok_0.carts@),
{
    if count_alive(&carts) < 2 {
        return Err(TrackError::InsufficientCarts);
    }
    match start_check(grid, &carts) {
        Some(e) => return Err(e),
        None => {},
    }
    let ghost start = carts@;
    let mut current = carts;
    let mut first: Option<CollisionEvent> = None;
    let mut done: u64 = 0;
    loop
        invariant
            done <= max_ticks,
            start == carts@,
            alive_count(start) >= 2,
            start_fault(grid@, start) is None,
            apart(start) ==> apart(current@),
            run_of(grid@, start, None, 0, max_ticks as nat) == run_of(
                grid@,
                current@,
                first,
                done as nat,
                (max_ticks - done) as nat,
            ),
        decreases max_ticks - done,
    {
        if done == max_ticks || count_alive(&current) <= 1 {
            return Ok(Outcome { carts: current, first_collision: first, ticks: done });
        }
        let crashes = match move_carts(grid, &mut current) {
            Ok(v) => v,
            Err(e) => return Err(e),
        };
        done = done + 1;
        if first.is_none() && crashes.len() > 0 {
            first = Some(CollisionEvent { position: crashes[0], tick: done });
        }
    }
}

} // verus!
