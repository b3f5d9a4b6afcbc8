//! One-pixel-wide lines between two grid points.
//!
//! The points of a line are given in closed form by [`line_point`]: the line
//! advances one pixel per step along the axis of its larger extent, and along
//! the other axis it follows the ideal line rounded to the nearest pixel, a
//! tie going to the pixel nearer the start. [`LineIterator`] produces exactly
//! these points with integer additions only.

use crate::geometry::Point;
use vstd::arithmetic::div_mod::{lemma_fundamental_div_mod, lemma_fundamental_div_mod_converse};
use vstd::math::{abs, max, min};
use vstd::prelude::*;

verus! {

/// A straight line between two points, both of which belong to it.
#[derive(Clone, Copy, Debug, PartialEq, Eq, Structural, PartialOrd, Ord, Hash, Default)]
pub struct Line {
    /// First point of the line.
    pub start: Point,
    /// Last point of the line.
    pub end: Point,
}

impl Line {
    /// Creates the line from `start` to `end`.
    pub fn new(start: Point, end: Point) -> (line: Line)
        ensures
            line.start == start,
            line.end == end,
    {
        Line { start, end }
    }
}

/// The coordinate `k` units away from `from` in the direction of `delta`.
/// A zero `delta` counts as positive.
pub open spec fn toward(from: int, delta: int, k: int) -> int {
    if delta < 0 {
        from - k
    } else {
        from + k
    }
}

/// How far a line has advanced along its minor axis after `k` steps along its
/// major axis: `k * minor / major` rounded to the nearest integer, where a tie
/// is rounded down.
pub open spec fn minor_advance(major: int, minor: int, k: int) -> int {
    if major <= 0 {
        0
    } else {
        (2 * k * minor + major - 1) / (2 * major)
    }
}

/// The number of points of the line from `a` to `b`.
pub open spec fn line_len(a: (int, int), b: (int, int)) -> nat {
    (max(abs(b.0 - a.0) as int, abs(b.1 - a.1) as int) + 1) as nat
}

/// The `k`-th point of the line from `a` to `b`, counted from zero.
pub open spec fn line_point(a: (int, int), b: (int, int), k: int) -> (int, int) {
    let dx = b.0 - a.0;
    let dy = b.1 - a.1;
    if abs(dy) <= abs(dx) {
        (toward(a.0, dx, k), toward(a.1, dy, minor_advance(abs(dx) as int, abs(dy) as int, k)))
    } else {
        (toward(a.0, dx, minor_advance(abs(dy) as int, abs(dx) as int, k)), toward(a.1, dy, k))
    }
}

/// All points of the line from `a` to `b`, in drawing order.
pub open spec fn line_points(a: (int, int), b: (int, int)) -> Seq<(int, int)> {
    Seq::new(line_len(a, b), |k: int| line_point(a, b, k))
}

/// The minor axis never runs ahead of the line's end, and reaches it together
/// with the major axis.
pub proof fn lemma_minor_advance_bounds(major: int, minor: int, k: int)
    requires
        0 <= minor <= major,
        0 <= k <= major,
    ensures
        0 <= minor_advance(major, minor, k) <= minor,
        minor_advance(major, minor, 0) == 0,
        minor_advance(major, minor, major) == minor,
{
    if major > 0 {
        let n = 2 * k * minor + major - 1;
        let q = n / (2 * major);
        let r = n % (2 * major);
        lemma_fundamental_div_mod(n, 2 * major);
        assert(0 <= r < 2 * major);
        assert(0 <= 2 * k * minor <= 2 * (major * minor)) by (nonlinear_arith)
            requires
                0 <= minor,
                0 <= k <= major,
        ;
        assert(q >= 0 && q <= minor) by (nonlinear_arith)
            requires
                n == (2 * major) * q + r,
                0 <= r < 2 * major,
                0 <= n <= 2 * (major * minor) + major - 1,
                major > 0,
                minor >= 0,
        ;
        lemma_fundamental_div_mod_converse(major - 1, 2 * major, 0, major - 1);
        assert(2 * 0 * minor + major - 1 == major - 1) by (nonlinear_arith);
        assert(2 * major * minor + major - 1 == minor * (2 * major) + (major - 1))
            by (nonlinear_arith);
        lemma_fundamental_div_mod_converse(
            2 * major * minor + major - 1,
            2 * major,
            minor,
            major - 1,
        );
    }
}

/// How the quotient and remainder of `(2 * k * minor + bias) / (2 * major)`
/// change when `k` grows by one: the remainder gains `2 * minor`, and where it
/// reaches `2 * major` it gives that much up and the quotient grows by one.
pub proof fn lemma_ratio_step(major: int, minor: int, bias: int, k: int)
    requires
        0 <= minor <= major,
        0 < major,
    ensures
        ({
            let q = (2 * k * minor + bias) / (2 * major);
            let r = (2 * k * minor + bias) % (2 * major);
            let carry = r + 2 * minor >= 2 * major;
            &&& 0 <= r < 2 * major
            &&& (2 * (k + 1) * minor + bias) / (2 * major) == if carry {
                q + 1
            } else {
                q
            }
            &&& (2 * (k + 1) * minor + bias) % (2 * major) == if carry {
                r + 2 * minor - 2 * major
            } else {
                r + 2 * minor
            }
        }),
{
    let n = 2 * k * minor + bias;
    let q = n / (2 * major);
    let r = n % (2 * major);
    lemma_fundamental_div_mod(n, 2 * major);
    assert(0 <= r < 2 * major);
    let n1 = 2 * (k + 1) * minor + bias;
    assert(n1 == n + 2 * minor) by (nonlinear_arith)
        requires
            n == 2 * k * minor + bias,
            n1 == 2 * (k + 1) * minor + bias,
    ;
    if r + 2 * minor >= 2 * major {
        assert(n1 == (q + 1) * (2 * major) + (r + 2 * minor - 2 * major)) by (nonlinear_arith)
            requires
                n1 == n + 2 * minor,
                n == (2 * major) * q + r,
        ;
        lemma_fundamental_div_mod_converse(n1, 2 * major, q + 1, r + 2 * minor - 2 * major);
    } else {
        assert(n1 == q * (2 * major) + (r + 2 * minor)) by (nonlinear_arith)
            requires
                n1 == n + 2 * minor,
                n == (2 * major) * q + r,
        ;
        lemma_fundamental_div_mod_converse(n1, 2 * major, q, r + 2 * minor);
    }
}

/// A line begins at its start, ends at its end, and stays between the two in
/// both coordinates.
pub proof fn lemma_line_point_between(a: (int, int), b: (int, int), k: int)
    requires
        0 <= k < line_len(a, b),
    ensures
        min(a.0, b.0) <= line_point(a, b, k).0 <= max(a.0, b.0),
        min(a.1, b.1) <= line_point(a, b, k).1 <= max(a.1, b.1),
        line_point(a, b, 0) == a,
        line_point(a, b, line_len(a, b) - 1) == b,
{
    let dx = b.0 - a.0;
    let dy = b.1 - a.1;
    let major = max(abs(dx) as int, abs(dy) as int);
    let minor = min(abs(dx) as int, abs(dy) as int);
    lemma_minor_advance_bounds(major, minor, k);
}

/// Moving both ends of a line by the same amount moves each of its points by
/// that amount.
pub proof fn lemma_line_point_shifted(a: (int, int), b: (int, int), by: (int, int), k: int)
    ensures
        line_len((a.0 + by.0, a.1 + by.1), (b.0 + by.0, b.1 + by.1)) == line_len(a, b),
        line_point((a.0 + by.0, a.1 + by.1), (b.0 + by.0, b.1 + by.1), k) == (
            line_point(a, b, k).0 + by.0,
            line_point(a, b, k).1 + by.1,
        ),
{
}

/// Whether the ideal line lies exactly half-way between two pixels after `k`
/// steps along its major axis.
pub open spec fn is_tie(major: int, minor: int, k: int) -> bool {
    major > 0 && (2 * k * minor + major) % (2 * major) == 0
}

/// Where the major extent is odd, the ideal line never lies half-way between
/// two pixels.
pub proof fn lemma_odd_major_has_no_tie(major: int, minor: int, k: int)
    requires
        major % 2 == 1,
    ensures
        !is_tie(major, minor, k),
{
    if major > 0 {
        let x = 2 * k * minor + major;
        lemma_fundamental_div_mod(x, 2 * major);
        let q = x / (2 * major);
        let t = k * minor;
        let u = major * q;
        assert(2 * k * minor == 2 * t) by (nonlinear_arith)
            requires
                t == k * minor,
        ;
        assert((2 * major) * q == 2 * u) by (nonlinear_arith)
            requires
                u == major * q,
        ;
        assert(x % 2 == 1);
        assert((2 * u) % 2 == 0);
    }
}

/// Counted from the end of the line, the minor axis has advanced by what is
/// left of its extent, unless the ideal line lies half-way between two pixels
/// there.
pub proof fn lemma_minor_advance_reflects(major: int, minor: int, k: int)
    requires
        0 <= minor <= major,
        0 < major,
        !is_tie(major, minor, k),
    ensures
        minor_advance(major, minor, major - k) == minor - minor_advance(major, minor, k),
{
    let x = 2 * k * minor + major;
    let q = x / (2 * major);
    let r = x % (2 * major);
    lemma_fundamental_div_mod(x, 2 * major);
    assert(1 <= r < 2 * major);
    // With no tie, rounding a half down and rounding it up agree.
    assert(x - 1 == q * (2 * major) + (r - 1)) by (nonlinear_arith)
        requires
            x == (2 * major) * q + r,
    ;
    lemma_fundamental_div_mod_converse(x - 1, 2 * major, q, r - 1);
    assert(minor_advance(major, minor, k) == q);
    let y = 2 * (major - k) * minor + major - 1;
    assert(y == (minor - q) * (2 * major) + (2 * major - 1 - r)) by (nonlinear_arith)
        requires
            y == 2 * (major - k) * minor + major - 1,
            x == 2 * k * minor + major,
            x == (2 * major) * q + r,
    ;
    lemma_fundamental_div_mod_converse(y, 2 * major, minor - q, 2 * major - 1 - r);
}

/// A line drawn from its end to its start passes through the same points,
/// in reverse order, unless the ideal line lies half-way between two pixels
/// somewhere.
pub proof fn lemma_line_point_reversed(a: (int, int), b: (int, int), k: int)
    requires
        0 <= k < line_len(a, b),
        !is_tie(
            max(abs(b.0 - a.0) as int, abs(b.1 - a.1) as int),
            min(abs(b.0 - a.0) as int, abs(b.1 - a.1) as int),
            k,
        ),
    ensures
        line_len(b, a) == line_len(a, b),
        line_point(b, a, line_len(a, b) - 1 - k) == line_point(a, b, k),
{
    let dx = b.0 - a.0;
    let dy = b.1 - a.1;
    let major = max(abs(dx) as int, abs(dy) as int);
    let minor = min(abs(dx) as int, abs(dy) as int);
    if major > 0 {
        lemma_minor_advance_reflects(major, minor, k);
        lemma_minor_advance_bounds(major, minor, k);
    }
}

/// Walks the points of a [`Line`] from its start to its end.
#[derive(Clone, Copy, Debug, PartialEq, Eq, PartialOrd, Ord, Hash)]
pub struct LineIterator {
    start: Point,
    end: Point,
    /// The point that comes next, while there is one.
    cur: Point,
    /// How many points have been handed out.
    taken: i64,
    /// Extent of the line along its major axis.
    major: i64,
    /// Extent of the line along its minor axis.
    minor: i64,
    /// Whether the major axis is the x axis.
    x_major: bool,
    /// Remainder of the division that defines the minor advance of `cur`.
    error: i64,
}

impl View for LineIterator {
    type V = Seq<(int, int)>;

    /// The points that are still to come, in order.
    closed spec fn view(&self) -> Seq<(int, int)> {
        line_points(self.start@, self.end@).skip(self.taken as int)
    }
}

impl LineIterator {
    /// The line that is being walked.
    pub closed spec fn line(&self) -> Line {
        Line { start: self.start, end: self.end }
    }

    /// How many points have been handed out.
    pub closed spec fn position(&self) -> nat {
        self.taken as nat
    }

    /// The fields agree with each other and with the closed form of the line.
    pub closed spec fn wf(&self) -> bool {
        let a = self.start@;
        let b = self.end@;
        let dx = b.0 - a.0;
        let dy = b.1 - a.1;
        &&& self.x_major == (abs(dy) <= abs(dx))
        &&& self.major == max(abs(dx) as int, abs(dy) as int)
        &&& self.minor == min(abs(dx) as int, abs(dy) as int)
        &&& 0 <= self.taken <= self.major + 1
        &&& self.taken <= self.major ==> {
            &&& self.cur@ == line_point(a, b, self.taken as int)
            &&& self.major > 0 ==> self.error == (2 * self.taken * self.minor + self.major - 1) % (
            2 * self.major)
        }
    }

    /// What a well-formed iterator still holds is the tail of its line.
    pub proof fn lemma_view(&self)
        requires
            self.wf(),
        ensures
            self.position() <= line_len(self.line().start@, self.line().end@),
            self@ == line_points(self.line().start@, self.line().end@).skip(
                self.position() as int,
            ),
            self@.len() == line_len(self.line().start@, self.line().end@) - self.position(),
    {
    }

    /// Starts a walk over `line`.
    pub fn new(line: &Line) -> (it: LineIterator)
        ensures
            it.wf(),
            it.line() == *line,
            it.position() == 0,
            it@ == line_points(line.start@, line.end@),
    {
        let dx: i64 = line.end.x as i64 - line.start.x as i64;
        let dy: i64 = line.end.y as i64 - line.start.y as i64;
        let adx: i64 = if dx < 0 {
            -dx
        } else {
            dx
        };
        let ady: i64 = if dy < 0 {
            -dy
        } else {
            dy
        };
        let x_major = ady <= adx;
        let major: i64 = if x_major {
            adx
        } else {
            ady
        };
        let minor: i64 = if x_major {
            ady
        } else {
            adx
        };
        proof {
            lemma_minor_advance_bounds(major as int, minor as int, 0);
            if major > 0 {
                assert(2 * 0 * minor + major - 1 == major - 1) by (nonlinear_arith);
                lemma_fundamental_div_mod_converse(major - 1, 2 * major, 0, major - 1);
            }
            assert(line_points(line.start@, line.end@).skip(0) =~= line_points(
                line.start@,
                line.end@,
            ));
        }
        LineIterator {
            start: line.start,
            end: line.end,
            cur: line.start,
            taken: 0,
            major,
            minor,
            x_major,
            error: if major > 0 {
                major - 1
            } else {
                0
            },
        }
    }

    /// Whether every point of the line has been handed out.
    pub fn is_done(&self) -> (done: bool)
        requires
            self.wf(),
        ensures
            done == (self@.len() == 0),
    {
        self.taken > self.major
    }

    /// Hands out the next point of the line, or `None` once the end point has
    /// been handed out.
    pub fn next(&mut self) -> (r: Option<Point>)
        requires
            old(self).wf(),
        ensures
            final(self).wf(),
            final(self).line() == old(self).line(),
            old(self)@.len() > 0 ==> {
                &&& r matches Some(p)
                &&& p@ == old(self)@[0]
                &&& final(self)@ == old(self)@.skip(1)
                &&& final(self).position() == old(self).position() + 1
            },
            old(self)@.len() == 0 ==> r is None && *final(self) == *old(self),
    {
        if self.taken > self.major {
            return None;
        }
        let p = self.cur;
        let ghost a = self.start@;
        let ghost b = self.end@;
        let ghost k = self.taken as int;
        if self.taken < self.major {
            proof {
                lemma_ratio_step(self.major as int, self.minor as int, self.major - 1, k);
                lemma_minor_advance_bounds(self.major as int, self.minor as int, k);
                lemma_minor_advance_bounds(self.major as int, self.minor as int, k + 1);
            }
            let mut error: i64 = self.error + 2 * self.minor;
            let carry = error >= 2 * self.major;
            if carry {
                error = error - 2 * self.major;
            }
            let x_back = self.end.x < self.start.x;
            let y_back = self.end.y < self.start.y;
            let mut x: i32 = self.cur.x;
            let mut y: i32 = self.cur.y;
            if self.x_major || carry {
                x = if x_back {
                    x - 1
                } else {
                    x + 1
                };
            }
            if !self.x_major || carry {
                y = if y_back {
                    y - 1
                } else {
                    y + 1
                };
            }
            self.cur = Point { x, y };
            self.error = error;
        }
        self.taken = self.taken + 1;
        proof {
            let pts = line_points(a, b);
            assert(old(self)@[0] == pts[k]);
            assert(self@ =~= old(self)@.skip(1));
        }
        Some(p)
    }
}

} // verus!
