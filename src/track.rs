//! The static part of the cart world: directions, turn phases, tiles and the grid.
use vstd::prelude::*;

verus! {

/// The way a cart faces.
#[derive(Clone, Copy, Debug, PartialEq, Eq, Structural)]
pub enum Direction {
    Up,
    Left,
    Down,
    Right,
}

/// The decision a cart takes at the next intersection it reaches.
#[derive(Clone, Copy, Debug, PartialEq, Eq, Structural)]
pub enum TurnPhase {
    Left,
    Straight,
    Right,
}

/// The kind of track that lies on one cell.
#[derive(Clone, Copy, Debug, PartialEq, Eq, Structural)]
pub enum Tile {
    Empty,
    Horizontal,
    Vertical,
    /// A curve drawn as `/`.
    CurveSlash,
    /// A curve drawn as `\`.
    CurveBackslash,
    Intersection,
}

/// A cell of the grid: `x` is the column, `y` the row, both counted from the top left.
#[derive(Clone, Copy, Debug, PartialEq, Eq, Structural)]
pub struct Point {
    pub x: usize,
    pub y: usize,
}

/// The fatal conditions of a simulation run.
#[derive(Clone, Copy, Debug, PartialEq, Eq, Structural)]
pub enum TrackError {
    /// A cell outside the grid was asked for.
    OutOfBounds,
    /// A cart stands on a cell without track, or not on straight track along its facing.
    InvalidTrack,
    /// A run was asked for with fewer than two carts.
    InsufficientCarts,
}

pub open spec fn turn_left_of(d: Direction) -> Direction {
    match d {
        Direction::Up => Direction::Left,
        Direction::Left => Direction::Down,
        Direction::Down => Direction::Right,
        Direction::Right => Direction::Up,
    }
}

pub open spec fn turn_right_of(d: Direction) -> Direction {
    match d {
        Direction::Up => Direction::Right,
        Direction::Right => Direction::Down,
        Direction::Down => Direction::Left,
        Direction::Left => Direction::Up,
    }
}

pub open spec fn is_horizontal(d: Direction) -> bool {
    d == Direction::Left || d == Direction::Right
}

/// The facing after the decision that `phase` stands for.
pub open spec fn turned(d: Direction, phase: TurnPhase) -> Direction {
    match phase {
        TurnPhase::Left => turn_left_of(d),
        TurnPhase::Straight => d,
        TurnPhase::Right => turn_right_of(d),
    }
}

/// The phase that follows `p` in the cycle left, straight, right.
pub open spec fn next_phase(p: TurnPhase) -> TurnPhase {
    match p {
        TurnPhase::Left => TurnPhase::Straight,
        TurnPhase::Straight => TurnPhase::Right,
        TurnPhase::Right => TurnPhase::Left,
    }
}

/// The tile that a character of the map stands for; a cart marker lies on straight track.
pub open spec fn tile_of(c: char) -> Tile {
    if c == '-' || c == '<' || c == '>' {
        Tile::Horizontal
    } else if c == '|' || c == '^' || c == 'v' {
        Tile::Vertical
    } else if c == '/' {
        Tile::CurveSlash
    } else if c == '\\' {
        Tile::CurveBackslash
    } else if c == '+' {
        Tile::Intersection
    } else {
        Tile::Empty
    }
}

/// The straight tile that a cart facing `d` needs beneath it at the start.
pub open spec fn straight_for(d: Direction) -> Tile {
    if is_horizontal(d) {
        Tile::Horizontal
    } else {
        Tile::Vertical
    }
}

impl Direction {
    pub fn turn_left(self) -> (r: Direction)
        ensures
            r == turn_left_of(self),
    {
        match self {
            Direction::Up => Direction::Left,
            Direction::Left => Direction::Down,
            Direction::Down => Direction::Right,
            Direction::Right => Direction::Up,
        }
    }

    pub fn turn_right(self) -> (r: Direction)
        ensures
            r == turn_right_of(self),
    {
        match self {
            Direction::Up => Direction::Right,
            Direction::Right => Direction::Down,
            Direction::Down => Direction::Left,
            Direction::Left => Direction::Up,
        }
    }

    pub fn is_horizontal(self) -> (r: bool)
        ensures
            r == is_horizontal(self),
    {
        match self {
            Direction::Left | Direction::Right => true,
            _ => false,
        }
    }
}

impl TurnPhase {
    /// The phase that follows this one.
    pub fn advance(self) -> (r: TurnPhase)
        ensures
            r == next_phase(self),
    {
        match self {
            TurnPhase::Left => TurnPhase::Straight,
            TurnPhase::Straight => TurnPhase::Right,
            TurnPhase::Right => TurnPhase::Left,
        }
    }
}

/// The facing after the decision that `phase` stands for.
pub fn apply_turn(d: Direction, phase: TurnPhase) -> (r: Direction)
    ensures
        r == turned(d, phase),
{
    match phase {
        TurnPhase::Left => d.turn_left(),
        TurnPhase::Straight => d,
        TurnPhase::Right => d.turn_right(),
    }
}

/// The tile that a character of the map stands for.
pub fn tile_from_char(c: char) -> (t: Tile)
    ensures
        t == tile_of(c),
{
    if c == '-' || c == '<' || c == '>' {
        Tile::Horizontal
    } else if c == '|' || c == '^' || c == 'v' {
        Tile::Vertical
    } else if c == '/' {
        Tile::CurveSlash
    } else if c == '\\' {
        Tile::CurveBackslash
    } else if c == '+' {
        Tile::Intersection
    } else {
        Tile::Empty
    }
}

/// The track, fixed once built. Rows may differ in length: a cell past the end of its
/// row lies outside the grid.
pub struct Grid {
    rows: Vec<Vec<Tile>>,
}

/// Whether `(x, y)` lies inside the rows `g`.
pub open spec fn in_grid(g: Seq<Seq<Tile>>, x: int, y: int) -> bool {
    0 <= y < g.len() && 0 <= x < g[y].len()
}

impl View for Grid {
    type V = Seq<Seq<Tile>>;

    closed spec fn view(&self) -> Seq<Seq<Tile>> {
        self.rows@.map_values(|r: Vec<Tile>| r@)
    }
}

impl Grid {
    /// Builds the grid from the map's characters, one row per line.
    pub fn from_chars(map: &Vec<Vec<char>>) -> (g: Grid)
        ensures
            g@.len() == map@.len(),
            forall|y: int| 0 <= y < map@.len() ==> #[trigger] g@[y].len() == map@[y].len(),
            forall|y: int, x: int|
                0 <= y < map@.len() && 0 <= x < map@[y].len() ==> #[trigger] g@[y][x]
                    == tile_of(map@[y]@[x]),
    {
        let mut rows: Vec<Vec<Tile>> = Vec::new();
        let mut y: usize = 0;
        while y < map.len()
            invariant
                y <= map@.len(),
                rows@.len() == y,
                forall|j: int| 0 <= j < y ==> #[trigger] rows@[j]@.len() == map@[j]@.len(),
                forall|j: int, i: int|
                    0 <= j < y && 0 <= i < map@[j]@.len() ==> #[trigger] rows@[j]@[i]
                        == tile_of(map@[j]@[i]),
            decreases map@.len() - y,
        {
            let line = &map[y];
            let mut row: Vec<Tile> = Vec::new();
            let mut x: usize = 0;
            while x < line.len()
                invariant
                    x <= line@.len(),
                    row@.len() == x,
                    forall|i: int| 0 <= i < x ==> #[trigger] row@[i] == tile_of(line@[i]),
                decreases line@.len() - x,
            {
                row.push(tile_from_char(line[x]));
                x = x + 1;
            }
            rows.push(row);
            y = y + 1;
        }
        Grid { rows }
    }

    /// The tile at column `x` of row `y`.
    pub fn tile_at(&self, x: usize, y: usize) -> (r: Result<Tile, TrackError>)
        ensures
            in_grid(self@, x as int, y as int) ==> r == Ok::<Tile, TrackError>(self@[y as int][x as int]),
            !in_grid(self@, x as int, y as int) ==> r == Err::<Tile, TrackError>(TrackError::OutOfBounds),
    {
        if y < self.rows.len() && x < self.rows[y].len() {
            Ok(self.rows[y][x])
        } else {
            Err(TrackError::OutOfBounds)
        }
    }

    /// The number of rows.
    pub fn height(&self) -> (r: usize)
        ensures
            r == self@.len(),
    {
        self.rows.len()
    }
}

} // verus!
