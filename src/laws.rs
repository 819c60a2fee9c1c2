//! What holds of carts over many steps and of runs over many ticks.
use vstd::prelude::*;
use crate::carts::{step_of, Cart};
use crate::engine::{
    alive_count, apart, first_after, lemma_tick_keeps_carts_apart, run_of, tick_of, CollisionEvent,
};
use crate::track::{in_grid, next_phase, Direction, Tile, TrackError, TurnPhase};

verus! {

/// `n` steps of cart `c` alone on the grid.
pub open spec fn steps_of(g: Seq<Seq<Tile>>, c: Cart, n: nat) -> Result<Cart, TrackError>
    decreases n,
{
    if n == 0 {
        Ok(c)
    } else {
        match steps_of(g, c, (n - 1) as nat) {
            Err(e) => Err(e),
            Ok(d) => step_of(g, d),
        }
    }
}

/// The number of intersections that cart `c` resolves in its first `n` steps.
pub open spec fn crossings(g: Seq<Seq<Tile>>, c: Cart, n: nat) -> nat
    decreases n,
{
    if n == 0 {
        0
    } else {
        match steps_of(g, c, (n - 1) as nat) {
            Err(_) => crossings(g, c, (n - 1) as nat),
            Ok(d) => crossings(g, c, (n - 1) as nat) + if in_grid(g, d.x as int, d.y as int)
                && g[d.y as int][d.x as int] == Tile::Intersection {
                1nat
            } else {
                0nat
            },
        }
    }
}

/// The phase after `n` intersections starting from phase `p`.
pub open spec fn phase_after_crossings(p: TurnPhase, n: nat) -> TurnPhase
    decreases n,
{
    if n == 0 {
        p
    } else {
        next_phase(phase_after_crossings(p, (n - 1) as nat))
    }
}

/// The decision taken at the `k`-th intersection, counted from 0, by a cart that starts
/// out turning left.
pub open spec fn decision_at(k: nat) -> TurnPhase {
    if k % 3 == 0 {
        TurnPhase::Left
    } else if k % 3 == 1 {
        TurnPhase::Straight
    } else {
        TurnPhase::Right
    }
}

/// A cart that starts out turning left takes left, straight, right at its intersections,
/// over and over, with period three.
pub proof fn lemma_turn_cycle(n: nat)
    ensures
        phase_after_crossings(TurnPhase::Left, n) == decision_at(n),
        phase_after_crossings(TurnPhase::Left, n + 3) == phase_after_crossings(TurnPhase::Left, n),
    decreases n,
{
    if n > 0 {
        lemma_turn_cycle((n - 1) as nat);
    }
    assert(phase_after_crossings(TurnPhase::Left, n + 1) == next_phase(
        phase_after_crossings(TurnPhase::Left, n),
    ));
    assert(phase_after_crossings(TurnPhase::Left, n + 2) == next_phase(
        phase_after_crossings(TurnPhase::Left, n + 1),
    ));
    assert(phase_after_crossings(TurnPhase::Left, n + 3) == next_phase(
        next_phase(next_phase(phase_after_crossings(TurnPhase::Left, n))),
    ));
}

/// A cart's phase depends on the number of intersections it has resolved and on
/// nothing else: not on which intersections they were, nor on what lay between them.
pub proof fn lemma_phase_follows_crossings(g: Seq<Seq<Tile>>, c: Cart, n: nat)
    requires
        steps_of(g, c, n) is Ok,
    ensures
        steps_of(g, c, n)->Ok_0.turn_phase == phase_after_crossings(c.turn_phase, crossings(g, c, n)),
    decreases n,
{
    if n > 0 {
        lemma_phase_follows_crossings(g, c, (n - 1) as nat);
    }
}

/// The cell `k` units ahead of cart `c` along its facing, as a column and a row.
pub open spec fn ahead(c: Cart, k: int) -> (int, int) {
    match c.direction {
        Direction::Up => (c.x as int, c.y - k),
        Direction::Down => (c.x as int, c.y + k),
        Direction::Left => (c.x - k, c.y as int),
        Direction::Right => (c.x + k, c.y as int),
    }
}

/// Whether the cell `k` units ahead of cart `c` lies on straight track.
pub open spec fn straight_ahead(g: Seq<Seq<Tile>>, c: Cart, k: int) -> bool {
    let (x, y) = ahead(c, k);
    &&& in_grid(g, x, y)
    &&& (g[y][x] == Tile::Horizontal || g[y][x] == Tile::Vertical)
}

/// Whether the cell `k` units ahead of cart `c` lies on track of any kind.
pub open spec fn track_ahead(g: Seq<Seq<Tile>>, c: Cart, k: int) -> bool {
    let (x, y) = ahead(c, k);
    &&& in_grid(g, x, y)
    &&& g[y][x] != Tile::Empty
}

/// On straight track a cart moves one unit per step and keeps its facing and its phase,
/// for as many steps as the straight track lasts.
pub proof fn lemma_straight_run(g: Seq<Seq<Tile>>, c: Cart, n: nat)
    requires
        forall|k: int| 0 <= k < n ==> #[trigger] straight_ahead(g, c, k),
        n > 0 ==> track_ahead(g, c, n as int),
        0 <= ahead(c, n as int).0 <= usize::MAX,
        0 <= ahead(c, n as int).1 <= usize::MAX,
    ensures
        steps_of(g, c, n) == Ok::<Cart, TrackError>(
            Cart { x: ahead(c, n as int).0 as usize, y: ahead(c, n as int).1 as usize, ..c },
        ),
    decreases n,
{
    if n > 0 {
        let m = (n - 1) as nat;
        assert(straight_ahead(g, c, m as int));
        if m > 0 {
            assert(straight_ahead(g, c, m as int));
        }
        lemma_straight_run(g, c, m);
    }
}

/// Over any number of ticks that start with no two alive carts on one cell, alive carts
/// stay on cells of their own, and the number of alive carts falls by an even number.
pub proof fn lemma_run_keeps_carts_apart(
    g: Seq<Seq<Tile>>,
    carts: Seq<Cart>,
    first: Option<CollisionEvent>,
    done: nat,
    fuel: nat,
)
    requires
        carts.len() <= usize::MAX,
        apart(carts),
        run_of(g, carts, first, done, fuel) is Ok,
    ensures
        ({
            let (next, _, _) = run_of(g, carts, first, done, fuel)->Ok_0;
            &&& apart(next)
            &&& alive_count(next) <= alive_count(carts)
            &&& (alive_count(carts) - alive_count(next)) % 2 == 0
        }),
    decreases fuel,
{
    if !(alive_count(carts) <= 1 || fuel == 0) {
        lemma_tick_keeps_carts_apart(g, carts);
        let (next, crashes) = tick_of(g, carts)->Ok_0;
        lemma_run_keeps_carts_apart(
            g,
            next,
            first_after(first, crashes, done + 1),
            done + 1,
            (fuel - 1) as nat,
        );
    }
}

} // verus!
