//! Points of light that drift with constant velocities.
use vstd::prelude::*;
use crate::text::string_from_chars;

verus! {

/// A point of light with its velocity per second.
#[derive(Clone, Copy, Debug, PartialEq, Eq, Structural)]
pub struct PointWithVelocity {
    pub x: i32,
    pub y: i32,
    pub velocity_x: i32,
    pub velocity_y: i32,
}

/// Whether one second of drift keeps every coordinate inside `i32`.
pub open spec fn can_move(points: Seq<PointWithVelocity>) -> bool {
    forall|k: int|
        0 <= k < points.len() ==> i32::MIN <= #[trigger] points[k].x + points[k].velocity_x
            <= i32::MAX && i32::MIN <= points[k].y + points[k].velocity_y <= i32::MAX
}

/// Each point drifts by its velocity once.
pub fn move_points(points: &mut Vec<PointWithVelocity>)
    requires
        can_move(old(points)@),
    ensures
        final(points)@.len() == old(points)@.len(),
        forall|k: int|
            0 <= k < old(points)@.len() ==> #[trigger] final(points)@[k] == (PointWithVelocity {
                x: (old(points)@[k].x + old(points)@[k].velocity_x) as i32,
                y: (old(points)@[k].y + old(points)@[k].velocity_y) as i32,
                ..old(points)@[k]
            }),
{
    let ghost start = points@;
    let mut k: usize = 0;
    while k < points.len()
        invariant
            k <= points@.len(),
            points@.len() == start.len(),
            can_move(start),
            forall|j: int|
                0 <= j < k ==> #[trigger] points@[j] == (PointWithVelocity {
                    x: (start[j].x + start[j].velocity_x) as i32,
                    y: (start[j].y + start[j].velocity_y) as i32,
                    ..start[j]
                }),
            forall|j: int| k <= j < points@.len() ==> #[trigger] points@[j] == start[j],
        decreases points@.len() - k,
    {
        let p = points[k];
        assert(start[k as int] == p);
        points.set(
            k,
            PointWithVelocity { x: p.x + p.velocity_x, y: p.y + p.velocity_y, ..p },
        );
        k = k + 1;
    }
}

/// `r` is the least of the x coordinates of `points`.
pub open spec fn is_min_x(points: Seq<PointWithVelocity>, r: i32) -> bool {
    (exists|k: int| 0 <= k < points.len() && #[trigger] points[k].x == r) && forall|k: int|
        0 <= k < points.len() ==> r <= #[trigger] points[k].x
}

pub open spec fn is_max_x(points: Seq<PointWithVelocity>, r: i32) -> bool {
    (exists|k: int| 0 <= k < points.len() && #[trigger] points[k].x == r) && forall|k: int|
        0 <= k < points.len() ==> r >= #[trigger] points[k].x
}

pub open spec fn is_min_y(points: Seq<PointWithVelocity>, r: i32) -> bool {
    (exists|k: int| 0 <= k < points.len() && #[trigger] points[k].y == r) && forall|k: int|
        0 <= k < points.len() ==> r <= #[trigger] points[k].y
}

pub open spec fn is_max_y(points: Seq<PointWithVelocity>, r: i32) -> bool {
    (exists|k: int| 0 <= k < points.len() && #[trigger] points[k].y == r) && forall|k: int|
        0 <= k < points.len() ==> r >= #[trigger] points[k].y
}

/// The least x coordinate.
pub fn min_x(points: &Vec<PointWithVelocity>) -> (r: i32)
    requires
        points@.len() > 0,
    ensures
        is_min_x(points@, r),
{
    let mut best = points[0].x;
    let mut k: usize = 1;
    while k < points.len()
        invariant
            1 <= k <= points@.len(),
            exists|j: int| 0 <= j < k && #[trigger] points@[j].x == best,
            forall|j: int| 0 <= j < k ==> best <= #[trigger] points@[j].x,
        decreases points@.len() - k,
    {
        if points[k].x < best {
            best = points[k].x;
        }
        k = k + 1;
    }
    best
}

/// The greatest x coordinate.
pub fn max_x(points: &Vec<PointWithVelocity>) -> (r: i32)
    requires
        points@.len() > 0,
    ensures
        is_max_x(points@, r),
{
    let mut best = points[0].x;
    let mut k: usize = 1;
    while k < points.len()
        invariant
            1 <= k <= points@.len(),
            exists|j: int| 0 <= j < k && #[trigger] points@[j].x == best,
            forall|j: int| 0 <= j < k ==> best >= #[trigger] points@[j].x,
        decreases points@.len() - k,
    {
        if points[k].x > best {
            best = points[k].x;
        }
        k = k + 1;
    }
    best
}

/// The least y coordinate.
pub fn min_y(points: &Vec<PointWithVelocity>) -> (r: i32)
    requires
        points@.len() > 0,
    ensures
        is_min_y(points@, r),
{
    let mut best = points[0].y;
    let mut k: usize = 1;
    while k < points.len()
        invariant
            1 <= k <= points@.len(),
            exists|j: int| 0 <= j < k && #[trigger] points@[j].y == best,
            forall|j: int| 0 <= j < k ==> best <= #[trigger] points@[j].y,
        decreases points@.len() - k,
    {
        if points[k].y < best {
            best = points[k].y;
        }
        k = k + 1;
    }
    best
}

/// The greatest y coordinate.
pub fn max_y(points: &Vec<PointWithVelocity>) -> (r: i32)
    requires
        points@.len() > 0,
    ensures
        is_max_y(points@, r),
{
    let mut best = points[0].y;
    let mut k: usize = 1;
    while k < points.len()
        invariant
            1 <= k <= points@.len(),
            exists|j: int| 0 <= j < k && #[trigger] points@[j].y == best,
            forall|j: int| 0 <= j < k ==> best >= #[trigger] points@[j].y,
        decreases points@.len() - k,
    {
        if points[k].y > best {
            best = points[k].y;
        }
        k = k + 1;
    }
    best
}

/// The extremes of a set of points are unique.
proof fn lemma_extremes_unique(
    points: Seq<PointWithVelocity>,
    lo_x: i32,
    hi_x: i32,
    lo_y: i32,
    hi_y: i32,
)
    requires
        is_min_x(points, lo_x),
        is_max_x(points, hi_x),
        is_min_y(points, lo_y),
        is_max_y(points, hi_y),
    ensures
        forall|a: i32, b: i32, c: i32, d: i32|
            is_min_x(points, a) && is_max_x(points, b) && is_min_y(points, c) && is_max_y(points, d)
                ==> a == lo_x && b == hi_x && c == lo_y && d == hi_y,
{
    assert forall|a: i32, b: i32, c: i32, d: i32|
        is_min_x(points, a) && is_max_x(points, b) && is_min_y(points, c) && is_max_y(
            points,
            d,
        ) implies a == lo_x && b == hi_x && c == lo_y && d == hi_y by {
        let ka = choose|j: int| 0 <= j < points.len() && #[trigger] points[j].x == a;
        let kl = choose|j: int| 0 <= j < points.len() && #[trigger] points[j].x == lo_x;
        assert(a <= points[kl].x && lo_x <= points[ka].x);
        let kb = choose|j: int| 0 <= j < points.len() && #[trigger] points[j].x == b;
        let kh = choose|j: int| 0 <= j < points.len() && #[trigger] points[j].x == hi_x;
        assert(b >= points[kh].x && hi_x >= points[kb].x);
        let kc = choose|j: int| 0 <= j < points.len() && #[trigger] points[j].y == c;
        let kly = choose|j: int| 0 <= j < points.len() && #[trigger] points[j].y == lo_y;
        assert(c <= points[kly].y && lo_y <= points[kc].y);
        let kd = choose|j: int| 0 <= j < points.len() && #[trigger] points[j].y == d;
        let khy = choose|j: int| 0 <= j < points.len() && #[trigger] points[j].y == hi_y;
        assert(d >= points[khy].y && hi_y >= points[kd].y);
    }
}

/// The width and height within which the points count as close.
pub const CLOSE_SPAN: i64 = 150;

/// Whether the points fit in a box narrower and lower than the close span.
pub fn close_enough(points: &Vec<PointWithVelocity>) -> (r: bool)
    requires
        points@.len() > 0,
    ensures
        r <==> (exists|lo_x: i32, hi_x: i32, lo_y: i32, hi_y: i32|
            is_min_x(points@, lo_x) && is_max_x(points@, hi_x) && is_min_y(points@, lo_y)
                && is_max_y(points@, hi_y) && hi_x - lo_x < CLOSE_SPAN && hi_y - lo_y < CLOSE_SPAN),
{
    let lo_x = min_x(points) as i64;
    let hi_x = max_x(points) as i64;
    let lo_y = min_y(points) as i64;
    let hi_y = max_y(points) as i64;
    proof {
        let wx = choose|j: int| 0 <= j < points@.len() && #[trigger] points@[j].x == lo_x;
        let wy = choose|j: int| 0 <= j < points@.len() && #[trigger] points@[j].y == lo_y;
        assert(lo_x <= hi_x) by {
            assert(hi_x >= points@[wx].x);
        }
        assert(lo_y <= hi_y) by {
            assert(hi_y >= points@[wy].y);
        }
    }
    let r = hi_x - lo_x < CLOSE_SPAN && hi_y - lo_y < CLOSE_SPAN;
    proof {
        lemma_extremes_unique(points@, lo_x as i32, hi_x as i32, lo_y as i32, hi_y as i32);
        if r {
            assert(is_min_x(points@, lo_x as i32) && is_max_x(points@, hi_x as i32) && is_min_y(
                points@,
                lo_y as i32,
            ) && is_max_y(points@, hi_y as i32));
        }
    }
    r
}

/// Some point stands at `(x, y)`.
pub open spec fn lit(points: Seq<PointWithVelocity>, x: int, y: int) -> bool {
    exists|k: int| 0 <= k < points.len() && #[trigger] points[k].x == x && points[k].y == y
}

/// The line of the picture for column `x`: one character for each y from `lo_y` to
/// `hi_y`, `#` where a point stands and `.` elsewhere.
pub open spec fn picture_line(points: Seq<PointWithVelocity>, x: int, lo_y: int, hi_y: int) -> Seq<char> {
    Seq::new(
        (hi_y - lo_y + 1) as nat,
        |j: int|
            if lit(points, x, lo_y + j) {
                '#'
            } else {
                '.'
            },
    )
}

fn lit_at(points: &Vec<PointWithVelocity>, x: i64, y: i64) -> (r: bool)
    ensures
        r == lit(points@, x as int, y as int),
{
    let mut k: usize = 0;
    while k < points.len()
        invariant
            k <= points@.len(),
            forall|j: int| 0 <= j < k ==> !(#[trigger] points@[j].x == x && points@[j].y == y),
        decreases points@.len() - k,
    {
        if points[k].x as i64 == x && points[k].y as i64 == y {
            return true;
        }
        k = k + 1;
    }
    false
}

/// The picture that the points make: one line for each x from the least to the greatest,
/// each with one character for each y from the least to the greatest.
pub fn draw(points: &Vec<PointWithVelocity>) -> (lines: Vec<String>)
    requires
        points@.len() > 0,
    ensures
        forall|lo_x: i32, hi_x: i32, lo_y: i32, hi_y: i32|
            is_min_x(points@, lo_x) && is_max_x(points@, hi_x) && is_min_y(points@, lo_y)
                && is_max_y(points@, hi_y) ==> lines@.len() == hi_x - lo_x + 1 && forall|i: int|
                0 <= i < lines@.len() ==> (#[trigger] lines@[i])@ == picture_line(
                    points@,
                    lo_x + i,
                    lo_y as int,
                    hi_y as int,
                ),
{
    let lo_x = min_x(points);
    let hi_x = max_x(points);
    let lo_y = min_y(points);
    let hi_y = max_y(points);
    proof {
        let w = choose|j: int| 0 <= j < points@.len() && #[trigger] points@[j].x == lo_x;
        assert(hi_x >= points@[w].x);
        let v = choose|j: int| 0 <= j < points@.len() && #[trigger] points@[j].y == lo_y;
        assert(hi_y >= points@[v].y);
    }
    let mut lines: Vec<String> = Vec::new();
    let mut x: i64 = lo_x as i64;
    while x <= hi_x as i64
        invariant
            lo_x <= x <= hi_x + 1,
            lo_y <= hi_y,
            lines@.len() == x - lo_x,
            forall|i: int|
                0 <= i < lines@.len() ==> (#[trigger] lines@[i])@ == picture_line(
                    points@,
                    lo_x + i,
                    lo_y as int,
                    hi_y as int,
                ),
        decreases hi_x + 1 - x,
    {
        let mut line: Vec<char> = Vec::new();
        let mut y: i64 = lo_y as i64;
        while y <= hi_y as i64
            invariant
                lo_y <= y <= hi_y + 1,
                line@ == picture_line(points@, x as int, lo_y as int, hi_y as int).subrange(
                    0,
                    y - lo_y,
                ),
            decreases hi_y + 1 - y,
        {
            let c = if lit_at(points, x, y) {
                '#'
            } else {
                '.'
            };
            line.push(c);
            assert(line@ =~= picture_line(points@, x as int, lo_y as int, hi_y as int).subrange(
                0,
                y + 1 - lo_y,
            ));
            y = y + 1;
        }
        assert(line@ =~= picture_line(points@, x as int, lo_y as int, hi_y as int));
        lines.push(string_from_chars(&line));
        x = x + 1;
    }
    proof {
        lemma_extremes_unique(points@, lo_x as i32, hi_x as i32, lo_y as i32, hi_y as i32);
    }
    lines
}

} // verus!
