//! A cart and the single step it takes along the track.
use vstd::prelude::*;
use crate::engine::apart;
use crate::track::{
    apply_turn, in_grid, is_horizontal, next_phase, turn_left_of, turn_right_of, turned, Direction,
    Grid, Point, Tile, TrackError, TurnPhase,
};

verus! {

/// A cart: where it stands, where it faces, the decision it takes at its next
/// intersection, and whether it is still running. `id` is the cell it started on and
/// never changes.
#[derive(Clone, Copy, Debug, PartialEq, Eq, Structural)]
pub struct Cart {
    pub id: Point,
    pub x: usize,
    pub y: usize,
    pub direction: Direction,
    pub turn_phase: TurnPhase,
    pub alive: bool,
}

/// The cart that starts at `(x, y)` facing `d`.
pub open spec fn fresh_cart(x: usize, y: usize, d: Direction) -> Cart {
    Cart { id: Point { x, y }, x, y, direction: d, turn_phase: TurnPhase::Left, alive: true }
}

/// Whether one unit from `(x, y)` towards `d` is still a pair of `usize`.
pub open spec fn can_walk(x: usize, y: usize, d: Direction) -> bool {
    match d {
        Direction::Up => y > 0,
        Direction::Left => x > 0,
        Direction::Down => y < usize::MAX,
        Direction::Right => x < usize::MAX,
    }
}

/// The cart turned to face `d` and moved one unit that way.
pub open spec fn walked(c: Cart, d: Direction) -> Cart {
    match d {
        Direction::Up => Cart { direction: d, y: (c.y - 1) as usize, ..c },
        Direction::Left => Cart { direction: d, x: (c.x - 1) as usize, ..c },
        Direction::Down => Cart { direction: d, y: (c.y + 1) as usize, ..c },
        Direction::Right => Cart { direction: d, x: (c.x + 1) as usize, ..c },
    }
}

/// The facing of a cart that faced `d` after it resolved tile `t` in phase `p`.
pub open spec fn facing_after(t: Tile, d: Direction, p: TurnPhase) -> Direction {
    match t {
        Tile::CurveSlash => if is_horizontal(d) {
            turn_left_of(d)
        } else {
            turn_right_of(d)
        },
        Tile::CurveBackslash => if is_horizontal(d) {
            turn_right_of(d)
        } else {
            turn_left_of(d)
        },
        Tile::Intersection => turned(d, p),
        _ => d,
    }
}

/// The phase after resolving tile `t`: it moves on at intersections only.
pub open spec fn phase_after(t: Tile, p: TurnPhase) -> TurnPhase {
    if t == Tile::Intersection {
        next_phase(p)
    } else {
        p
    }
}

/// One step of cart `c` on the grid `g`, or the fatal condition that stops it: the cart
/// stands, or would step, outside the grid or off the track.
pub open spec fn step_of(g: Seq<Seq<Tile>>, c: Cart) -> Result<Cart, TrackError> {
    if !in_grid(g, c.x as int, c.y as int) {
        Err(TrackError::OutOfBounds)
    } else {
        let t = g[c.y as int][c.x as int];
        let d = facing_after(t, c.direction, c.turn_phase);
        let next = walked(c, d);
        if t == Tile::Empty {
            Err(TrackError::InvalidTrack)
        } else if !can_walk(c.x, c.y, d) || !in_grid(g, next.x as int, next.y as int) {
            Err(TrackError::OutOfBounds)
        } else if g[next.y as int][next.x as int] == Tile::Empty {
            Err(TrackError::InvalidTrack)
        } else {
            Ok(Cart { turn_phase: phase_after(t, c.turn_phase), ..next })
        }
    }
}

/// The direction that a map character marks a cart with, if it is a cart marker.
pub open spec fn marker_of(c: char) -> Option<Direction> {
    if c == '^' {
        Some(Direction::Up)
    } else if c == 'v' {
        Some(Direction::Down)
    } else if c == '<' {
        Some(Direction::Left)
    } else if c == '>' {
        Some(Direction::Right)
    } else {
        None
    }
}

/// Cell `(x1, y1)` comes before `(x2, y2)` in reading order: by row, then by column.
pub open spec fn reads_before(x1: int, y1: int, x2: int, y2: int) -> bool {
    y1 < y2 || (y1 == y2 && x1 < x2)
}

impl Cart {
    pub fn new(x: usize, y: usize, direction: Direction) -> (c: Cart)
        ensures
            c == fresh_cart(x, y, direction),
    {
        Cart { id: Point { x, y }, x, y, direction, turn_phase: TurnPhase::Left, alive: true }
    }

    /// Resolves an intersection: takes the turn of the current phase, moves one unit,
    /// and moves the phase on.
    pub fn change_direction(&mut self)
        requires
            can_walk(old(self).x, old(self).y, turned(old(self).direction, old(self).turn_phase)),
        ensures
            *final(self) == (Cart {
                turn_phase: next_phase(old(self).turn_phase),
                ..walked(*old(self), turned(old(self).direction, old(self).turn_phase))
            }),
    {
        match self.turn_phase {
            TurnPhase::Left => {
                self.turn_phase = TurnPhase::Straight;
                self.turn_left();
            },
            TurnPhase::Straight => {
                self.turn_phase = TurnPhase::Right;
                self.walk();
            },
            TurnPhase::Right => {
                self.turn_phase = TurnPhase::Left;
                self.turn_right();
            },
        }
    }

    /// Turns left and moves one unit.
    pub fn turn_left(&mut self)
        requires
            can_walk(old(self).x, old(self).y, turn_left_of(old(self).direction)),
        ensures
            *final(self) == walked(*old(self), turn_left_of(old(self).direction)),
    {
        self.direction = self.direction.turn_left();
        self.walk();
    }

    /// Turns right and moves one unit.
    pub fn turn_right(&mut self)
        requires
            can_walk(old(self).x, old(self).y, turn_right_of(old(self).direction)),
        ensures
            *final(self) == walked(*old(self), turn_right_of(old(self).direction)),
    {
        self.direction = self.direction.turn_right();
        self.walk();
    }

    /// Moves one unit in the current facing.
    pub fn walk(&mut self)
        requires
            can_walk(old(self).x, old(self).y, old(self).direction),
        ensures
            *final(self) == walked(*old(self), old(self).direction),
    {
        match self.direction {
            Direction::Up => self.y = self.y - 1,
            Direction::Down => self.y = self.y + 1,
            Direction::Left => self.x = self.x - 1,
            Direction::Right => self.x = self.x + 1,
        }
    }

    pub fn horizontal(&self) -> (r: bool)
        ensures
            r == is_horizontal(self.direction),
    {
        self.direction.is_horizontal()
    }

    pub fn vertical(&self) -> (r: bool)
        ensures
            r == !is_horizontal(self.direction),
    {
        !self.horizontal()
    }

    pub fn position(&self) -> (p: Point)
        ensures
            p == (Point { x: self.x, y: self.y }),
    {
        Point { x: self.x, y: self.y }
    }

    pub fn update_position(&mut self, position: Point)
        ensures
            *final(self) == (Cart { x: position.x, y: position.y, ..*old(self) }),
    {
        self.x = position.x;
        self.y = position.y;
    }
}

fn walkable(x: usize, y: usize, d: Direction) -> (r: bool)
    ensures
        r == can_walk(x, y, d),
{
    match d {
        Direction::Up => y > 0,
        Direction::Left => x > 0,
        Direction::Down => y < usize::MAX,
        Direction::Right => x < usize::MAX,
    }
}

/// Moves the cart one step along the grid. On an error the cart is left as it was.
pub fn move_cart(cart: &mut Cart, grid: &Grid) -> (r: Result<(), TrackError>)
    ensures
        match step_of(grid@, *old(cart)) {
            Ok(c) => r is Ok && *final(cart) == c,
            Err(e) => r == Err::<(), TrackError>(e) && *final(cart) == *old(cart),
        },
{
    let tile = match grid.tile_at(cart.x, cart.y) {
        Ok(t) => t,
        Err(e) => return Err(e),
    };
    let horizontal = cart.horizontal();
    let d = match tile {
        Tile::Empty => return Err(TrackError::InvalidTrack),
        Tile::CurveSlash => if horizontal {
            cart.direction.turn_left()
        } else {
            cart.direction.turn_right()
        },
        Tile::CurveBackslash => if horizontal {
            cart.direction.turn_right()
        } else {
            cart.direction.turn_left()
        },
        Tile::Intersection => apply_turn(cart.direction, cart.turn_phase),
        _ => cart.direction,
    };
    if !walkable(cart.x, cart.y, d) {
        return Err(TrackError::OutOfBounds);
    }
    let (nx, ny) = match d {
        Direction::Up => (cart.x, cart.y - 1),
        Direction::Down => (cart.x, cart.y + 1),
        Direction::Left => (cart.x - 1, cart.y),
        Direction::Right => (cart.x + 1, cart.y),
    };
    match grid.tile_at(nx, ny) {
        Err(e) => return Err(e),
        Ok(Tile::Empty) => return Err(TrackError::InvalidTrack),
        Ok(_) => {},
    }
    if tile == Tile::Intersection {
        cart.change_direction();
    } else if tile == Tile::CurveSlash && horizontal {
        cart.turn_left();
    } else if tile == Tile::CurveSlash {
        cart.turn_right();
    } else if tile == Tile::CurveBackslash && horizontal {
        cart.turn_right();
    } else if tile == Tile::CurveBackslash {
        cart.turn_left();
    } else {
        cart.walk();
    }
    Ok(())
}

fn marker_from_char(c: char) -> (r: Option<Direction>)
    ensures
        r == marker_of(c),
{
    if c == '^' {
        Some(Direction::Up)
    } else if c == 'v' {
        Some(Direction::Down)
    } else if c == '<' {
        Some(Direction::Left)
    } else if c == '>' {
        Some(Direction::Right)
    } else {
        None
    }
}

/// The carts that the map's markers show, in reading order, each fresh. No two of them
/// share a cell.
pub fn collect_carts(map: &Vec<Vec<char>>) -> (carts: Vec<Cart>)
    ensures
        apart(carts@),
        forall|k: int|
            0 <= k < carts@.len() ==> {
                let c = #[trigger] carts@[k];
                &&& c.y < map@.len()
                &&& c.x < map@[c.y as int]@.len()
                &&& marker_of(map@[c.y as int]@[c.x as int]) == Some(c.direction)
                &&& c == fresh_cart(c.x, c.y, c.direction)
            },
        forall|y: int, x: int|
            0 <= y < map@.len() && 0 <= x < map@[y]@.len() && (#[trigger] marker_of(
                map@[y]@[x],
            )) is Some ==> exists|k: int|
                0 <= k < carts@.len() && carts@[k].x == x && #[trigger] carts@[k].y == y,
        forall|a: int, b: int|
            #![trigger carts@[a], carts@[b]]
            0 <= a < b < carts@.len() ==> reads_before(
                carts@[a].x as int,
                carts@[a].y as int,
                carts@[b].x as int,
                carts@[b].y as int,
            ),
{
    let mut carts: Vec<Cart> = Vec::new();
    let mut y: usize = 0;
    while y < map.len()
        invariant
            y <= map@.len(),
            forall|k: int|
                0 <= k < carts@.len() ==> {
                    let c = #[trigger] carts@[k];
                    &&& c.y < y
                    &&& c.x < map@[c.y as int]@.len()
                    &&& marker_of(map@[c.y as int]@[c.x as int]) == Some(c.direction)
                    &&& c == fresh_cart(c.x, c.y, c.direction)
                },
            forall|j: int, i: int|
                0 <= j < y && 0 <= i < map@[j]@.len() && (#[trigger] marker_of(
                    map@[j]@[i],
                )) is Some ==> exists|k: int|
                    0 <= k < carts@.len() && carts@[k].x == i && #[trigger] carts@[k].y == j,
            forall|a: int, b: int|
                #![trigger carts@[a], carts@[b]]
                0 <= a < b < carts@.len() ==> reads_before(
                    carts@[a].x as int,
                    carts@[a].y as int,
                    carts@[b].x as int,
                    carts@[b].y as int,
                ),
        decreases map@.len() - y,
    {
        let row = &map[y];
        let mut x: usize = 0;
        while x < row.len()
            invariant
                y < map@.len(),
                row@ == map@[y as int]@,
                x <= row@.len(),
                forall|k: int|
                    0 <= k < carts@.len() ==> {
                        let c = #[trigger] carts@[k];
                        &&& reads_before(c.x as int, c.y as int, x as int, y as int)
                        &&& c.x < map@[c.y as int]@.len()
                        &&& marker_of(map@[c.y as int]@[c.x as int]) == Some(c.direction)
                        &&& c == fresh_cart(c.x, c.y, c.direction)
                    },
                forall|j: int, i: int|
                    0 <= j < map@.len() && 0 <= i < map@[j]@.len() && reads_before(i, j, x as int, y as int)
                        && (#[trigger] marker_of(map@[j]@[i])) is Some ==> exists|k: int|
                        0 <= k < carts@.len() && carts@[k].x == i && #[trigger] carts@[k].y == j,
                forall|a: int, b: int|
                    #![trigger carts@[a], carts@[b]]
                    0 <= a < b < carts@.len() ==> reads_before(
                        carts@[a].x as int,
                        carts@[a].y as int,
                        carts@[b].x as int,
                        carts@[b].y as int,
                    ),
            decreases row@.len() - x,
        {
            match marker_from_char(row[x]) {
                Some(d) => {
                    let ghost before = carts@;
                    carts.push(Cart::new(x, y, d));
                    assert forall|j: int, i: int|
                        0 <= j < map@.len() && 0 <= i < map@[j]@.len() && reads_before(i, j, x + 1, y as int)
                            && (#[trigger] marker_of(map@[j]@[i])) is Some implies exists|k: int|
                            0 <= k < carts@.len() && carts@[k].x == i && #[trigger] carts@[k].y == j by {
                        if i == x && j == y {
                            assert(carts@[before.len() as int].y == j);
                        } else {
                            let k = choose|k: int|
                                0 <= k < before.len() && before[k].x == i && #[trigger] before[k].y == j;
                            assert(carts@[k].y == j);
                        }
                    }
                },
                None => {},
            }
            x = x + 1;
        }
        y = y + 1;
    }
    assert forall|a: int, b: int|
        #![trigger carts@[a], carts@[b]]
        0 <= a < carts@.len() && 0 <= b < carts@.len() && a != b && carts@[a].alive
            && carts@[b].alive implies !(carts@[a].x == carts@[b].x && carts@[a].y == carts@[b].y) by {
        if a < b {
            assert(reads_before(
                carts@[a].x as int,
                carts@[a].y as int,
                carts@[b].x as int,
                carts@[b].y as int,
            ));
        } else {
            assert(reads_before(
                carts@[b].x as int,
                carts@[b].y as int,
                carts@[a].x as int,
                carts@[a].y as int,
            ));
        }
    }
    carts
}

} // verus!
