//! The geometry of a thick line, in closed form.
//!
//! A thick line is drawn as its centre line followed by copies of it that are
//! shifted sideways, by turns to the left and to the right of the centre. The
//! two ends of each copy walk along *rails*: paths perpendicular to the centre
//! line that are traced with the same integer stepping as a thin line. Every
//! step of a rail uses up some of a thickness budget, and drawing stops once
//! the budget is spent.
//!
//! [`Band`] states which copies are drawn, and where.
//! [`Cursor`](crate::primitives::cursor::Cursor) states in which order their
//! points come.

use crate::primitives::line::{
    lemma_line_point_between, lemma_line_point_shifted, lemma_ratio_step, line_len, line_point,
    line_points, minor_advance, toward,
};
use crate::sqrt::{
    is_nearest_sqrt, lemma_nearest_sqrt, lemma_nearest_sqrt_is_nearest, nearest_sqrt,
};
use vstd::arithmetic::div_mod::{lemma_fundamental_div_mod, lemma_fundamental_div_mod_converse};
use vstd::math::{abs, max, min};
use vstd::prelude::*;

verus! {

/// The side thickness of a stroke of the given width along a centre line with
/// the given deltas: twice the width times the length of the line, rounded to
/// the nearest integer.
pub open spec fn stroke_thickness(width: nat, dx: int, dy: int) -> nat {
    nearest_sqrt((4 * width * width * (dx * dx + dy * dy)) as nat)
}

/// The side thickness is the integer nearest to twice the width times the
/// length of the centre line: with `t` for it and `s` for the real number
/// `2 * width * sqrt(dx * dx + dy * dy)`, it holds that `t - 1/2 <= s < t + 1/2`.
pub proof fn lemma_stroke_thickness(width: nat, dx: int, dy: int)
    ensures
        is_nearest_sqrt(
            stroke_thickness(width, dx, dy),
            (4 * width * width * (dx * dx + dy * dy)) as nat,
        ),
{
    lemma_nearest_sqrt_is_nearest((4 * width * width * (dx * dx + dy * dy)) as nat);
}

/// A stroke along a line without extent has no side thickness, whatever its
/// width.
pub proof fn lemma_stroke_thickness_of_point(width: nat)
    ensures
        stroke_thickness(width, 0, 0) == 0,
{
    assert(4 * width * width * (0 * 0 + 0 * 0) == 0) by (nonlinear_arith);
    assert(is_nearest_sqrt(0, 0)) by (nonlinear_arith);
    lemma_nearest_sqrt(0, 0);
}

/// How many steps along the major axis a left rail has taken after `j` steps
/// along the minor axis: `j * minor / major` rounded to the nearest integer,
/// where a tie is rounded down.
#[verifier::opaque]
pub open spec fn left_major_steps(major: int, minor: int, j: int) -> int {
    minor_advance(major, minor, j)
}

/// How many steps along the major axis a right rail has taken after `j`
/// steps along the minor axis: `j * minor / major` rounded to the nearest
/// integer, where a tie is rounded up. A rail of a line without extent steps
/// along both axes every time.
#[verifier::opaque]
pub open spec fn right_major_steps(major: int, minor: int, j: int) -> int {
    if major <= 0 {
        j
    } else {
        (2 * j * minor + major) / (2 * major)
    }
}

/// The error term of the left rail after `j` steps.
#[verifier::opaque]
pub open spec fn left_error(major: int, minor: int, j: int) -> int {
    if major <= 0 {
        0
    } else {
        (2 * j * minor + major - 1) % (2 * major) - major + 1
    }
}

/// The error term of the right rail after `j` steps.
#[verifier::opaque]
pub open spec fn right_error(major: int, minor: int, j: int) -> int {
    if major <= 0 {
        0
    } else {
        (2 * j * minor + major) % (2 * major) - major
    }
}

/// The geometry of a thick line: its centre line and its thickness budget.
pub struct Band {
    /// Start of the centre line.
    pub start: (int, int),
    /// End of the centre line.
    pub end: (int, int),
    /// The side thickness: how much the rails may use up.
    pub thickness: nat,
}

impl Band {
    /// Signed extent of the centre line along x.
    pub open spec fn dx(self) -> int {
        self.end.0 - self.start.0
    }

    /// Signed extent of the centre line along y.
    pub open spec fn dy(self) -> int {
        self.end.1 - self.start.1
    }

    /// Whether x is the major axis, along which the centre line extends
    /// further. Where the extents are equal, x is.
    pub open spec fn x_major(self) -> bool {
        abs(self.dy()) <= abs(self.dx())
    }

    /// Extent of the centre line along its major axis.
    pub open spec fn major(self) -> int {
        max(abs(self.dx()) as int, abs(self.dy()) as int)
    }

    /// Extent of the centre line along its minor axis.
    pub open spec fn minor(self) -> int {
        min(abs(self.dx()) as int, abs(self.dy()) as int)
    }

    /// One step along the major axis, in the direction of the centre line.
    /// A delta of zero counts as positive.
    pub open spec fn step_major(self) -> (int, int) {
        if self.x_major() {
            (toward(0, self.dx(), 1), 0)
        } else {
            (0, toward(0, self.dy(), 1))
        }
    }

    /// One step along the minor axis, in the direction of the centre line.
    /// A delta of zero counts as positive.
    pub open spec fn step_minor(self) -> (int, int) {
        if self.x_major() {
            (0, toward(0, self.dy(), 1))
        } else {
            (toward(0, self.dx(), 1), 0)
        }
    }

    /// Where the left rail is after `j` steps, relative to where it began.
    /// It moves against the line's direction along the minor axis, and with
    /// it along the major axis.
    #[verifier::opaque]
    pub open spec fn left_offset(self, j: int) -> (int, int) {
        let m = left_major_steps(self.major(), self.minor(), j);
        if self.x_major() {
            (toward(0, self.dx(), m), toward(0, self.dy(), -j))
        } else {
            (toward(0, self.dx(), -j), toward(0, self.dy(), m))
        }
    }

    /// Where the right rail is after `j` steps, relative to where it began.
    /// It moves with the line's direction along the minor axis, and against
    /// it along the major axis.
    #[verifier::opaque]
    pub open spec fn right_offset(self, j: int) -> (int, int) {
        let m = right_major_steps(self.major(), self.minor(), j);
        if self.x_major() {
            (toward(0, self.dx(), -m), toward(0, self.dy(), j))
        } else {
            (toward(0, self.dx(), j), toward(0, self.dy(), -m))
        }
    }

    /// How many steps a rail has taken to come to the offset `by`: as many as
    /// it lies away from where it began along the minor axis.
    pub open spec fn offset_steps(self, by: (int, int)) -> int {
        if self.x_major() {
            abs(by.1) as int
        } else {
            abs(by.0) as int
        }
    }

    /// How far segment `n` is shifted from the centre line. Segment 0 is the
    /// centre line; after it the rails take turns, the left one first.
    pub open spec fn rail_offset(self, n: int) -> (int, int) {
        if n <= 0 {
            (0, 0)
        } else if n % 2 == 1 {
            self.left_offset((n + 1) / 2)
        } else {
            self.right_offset(n / 2)
        }
    }

    /// The thickness counter after `n` rail steps. It starts at
    /// `major + minor`; every rail step adds `2 * major`, and `2 * minor` more
    /// where the rail also steps along the major axis.
    #[verifier::opaque]
    pub open spec fn thickness_used(self, n: int) -> int {
        self.major() + self.minor() + 2 * self.major() * n + 2 * self.minor() * (left_major_steps(
            self.major(),
            self.minor(),
            (n + 1) / 2,
        ) + right_major_steps(self.major(), self.minor(), n / 2))
    }

    /// Whether segment `n` is drawn: the centre line always is, and a later
    /// segment is if the counter had not passed the budget before its step.
    pub open spec fn has_segment(self, n: int) -> bool {
        n == 0 || (n > 0 && self.thickness_used(n - 1) <= self.thickness)
    }

    /// First point of segment `n`.
    pub open spec fn segment_start(self, n: int) -> (int, int) {
        (self.start.0 + self.rail_offset(n).0, self.start.1 + self.rail_offset(n).1)
    }

    /// Last point of segment `n`.
    pub open spec fn segment_end(self, n: int) -> (int, int) {
        (self.end.0 + self.rail_offset(n).0, self.end.1 + self.rail_offset(n).1)
    }

    /// The points of segment `n`, in drawing order.
    pub open spec fn segment(self, n: int) -> Seq<(int, int)> {
        line_points(self.segment_start(n), self.segment_end(n))
    }

    /// The thickness counter of a cap after `j` steps. A cap is a row of
    /// pixels perpendicular to the centre line, traced like a left rail; its
    /// counter starts at `major + minor` and grows with every step as that
    /// of the band does.
    #[verifier::opaque]
    pub open spec fn cap_used(self, j: int) -> int {
        self.major() + self.minor() + 2 * self.major() * j + 2 * self.minor() * left_major_steps(
            self.major(),
            self.minor(),
            j,
        )
    }

    /// Whether a cap has a point number `j`: it has its first point, and a
    /// later one if the counter had not passed the budget before the step
    /// to it.
    pub open spec fn has_cap_point(self, j: int) -> bool {
        j == 0 || (j > 0 && self.cap_used(j - 1) <= self.thickness)
    }

    /// Point number `j` of the cap that begins at `anchor`.
    pub open spec fn cap_point(self, anchor: (int, int), j: int) -> (int, int) {
        (anchor.0 + self.left_offset(j).0, anchor.1 + self.left_offset(j).1)
    }

    /// Whether the band draws the point `p`.
    pub open spec fn draws(self, p: (int, int)) -> bool {
        exists|n: int, k: int|
            self.has_segment(n) && 0 <= k < self.segment(n).len() && #[trigger] self.segment(
                n,
            )[k] == p
    }
}

/// A step of the left rail goes along the major axis too exactly when its
/// error term is above `major - 2 * minor`.
pub proof fn lemma_left_rail_step(major: int, minor: int, j: int)
    requires
        0 <= minor <= major,
    ensures
        ({
            let e = left_error(major, minor, j);
            let carry = e > major - 2 * minor;
            &&& -major <= e <= major
            &&& left_major_steps(major, minor, j + 1) == left_major_steps(major, minor, j) + if carry {
                1int
            } else {
                0int
            }
            &&& left_error(major, minor, j + 1) == e + 2 * minor - if carry {
                2 * major
            } else {
                0int
            }
        }),
{
    reveal(left_major_steps);
    reveal(left_error);
    if major > 0 {
        lemma_ratio_step(major, minor, major - 1, j);
    }
}

/// A step of the right rail goes along the major axis too exactly when its
/// error term is at least `major - 2 * minor`.
pub proof fn lemma_right_rail_step(major: int, minor: int, j: int)
    requires
        0 <= minor <= major,
    ensures
        ({
            let e = right_error(major, minor, j);
            let carry = e >= major - 2 * minor;
            &&& -major <= e <= major
            &&& right_major_steps(major, minor, j + 1) == right_major_steps(major, minor, j)
                + if carry {
                1int
            } else {
                0int
            }
            &&& right_error(major, minor, j + 1) == e + 2 * minor - if carry {
                2 * major
            } else {
                0int
            }
        }),
{
    reveal(right_major_steps);
    reveal(right_error);
    if major > 0 {
        lemma_ratio_step(major, minor, major, j);
    }
}

/// Before their first step the rails have taken no step along the major
/// axis, and have no error.
pub proof fn lemma_rails_at_start(major: int, minor: int)
    requires
        0 <= minor <= major,
    ensures
        left_major_steps(major, minor, 0) == 0,
        right_major_steps(major, minor, 0) == 0,
        left_error(major, minor, 0) == 0,
        right_error(major, minor, 0) == 0,
{
    reveal(left_major_steps);
    reveal(right_major_steps);
    reveal(left_error);
    reveal(right_error);
    if major > 0 {
        assert(2 * 0 * minor + major - 1 == major - 1) by (nonlinear_arith);
        assert(2 * 0 * minor + major == major) by (nonlinear_arith);
        lemma_fundamental_div_mod_converse(major - 1, 2 * major, 0, major - 1);
        lemma_fundamental_div_mod_converse(major, 2 * major, 0, major);
    }
}

/// A step of the left rail moves it against the minor step of the line, and
/// with its major step too where the error term asks for that.
pub proof fn lemma_left_offset_step(band: Band, j: int)
    requires
        0 <= j,
    ensures
        ({
            let along = left_error(band.major(), band.minor(), j) > band.major() - 2
                * band.minor();
            let from = band.left_offset(j);
            let to = band.left_offset(j + 1);
            &&& to.0 == from.0 - band.step_minor().0 + if along {
                band.step_major().0
            } else {
                0int
            }
            &&& to.1 == from.1 - band.step_minor().1 + if along {
                band.step_major().1
            } else {
                0int
            }
            &&& band.offset_steps(from) == j
            &&& band.offset_steps(to) == j + 1
            &&& band.left_offset(0) == (0int, 0int)
        }),
{
    reveal(Band::left_offset);
    lemma_left_rail_step(band.major(), band.minor(), j);
    lemma_rails_at_start(band.major(), band.minor());
}

/// A step of the right rail moves it with the minor step of the line, and
/// against its major step too where the error term asks for that.
pub proof fn lemma_right_offset_step(band: Band, j: int)
    requires
        0 <= j,
    ensures
        ({
            let along = right_error(band.major(), band.minor(), j) >= band.major() - 2
                * band.minor();
            let from = band.right_offset(j);
            let to = band.right_offset(j + 1);
            &&& to.0 == from.0 + band.step_minor().0 - if along {
                band.step_major().0
            } else {
                0int
            }
            &&& to.1 == from.1 + band.step_minor().1 - if along {
                band.step_major().1
            } else {
                0int
            }
            &&& band.offset_steps(from) == j
            &&& band.offset_steps(to) == j + 1
            &&& band.right_offset(0) == (0int, 0int)
        }),
{
    reveal(Band::right_offset);
    lemma_right_rail_step(band.major(), band.minor(), j);
    lemma_rails_at_start(band.major(), band.minor());
}

/// Before any rail step the thickness counter is `major + minor`, and the
/// rails have their error terms at zero.
pub proof fn lemma_thickness_start(band: Band)
    ensures
        band.thickness_used(0) == band.major() + band.minor(),
        left_error(band.major(), band.minor(), 0) == 0,
        right_error(band.major(), band.minor(), 0) == 0,
{
    reveal(Band::thickness_used);
    lemma_rails_at_start(band.major(), band.minor());
    assert(2 * band.major() * 0 == 0);
    assert(2 * band.minor() * 0 == 0);
}

/// What one rail step adds to the thickness counter. Step `n + 1` is a step
/// of the left rail where `n` is even, and of the right rail where it is odd.
pub proof fn lemma_thickness_step(band: Band, n: int)
    requires
        0 <= n,
    ensures
        ({
            let major = band.major();
            let minor = band.minor();
            let carry = if n % 2 == 0 {
                left_error(major, minor, n / 2) > major - 2 * minor
            } else {
                right_error(major, minor, n / 2) >= major - 2 * minor
            };
            band.thickness_used(n + 1) == band.thickness_used(n) + 2 * major + if carry {
                2 * minor
            } else {
                0int
            }
        }),
{
    reveal(Band::thickness_used);
    let major = band.major();
    let minor = band.minor();
    let l0 = left_major_steps(major, minor, (n + 1) / 2);
    let r0 = right_major_steps(major, minor, n / 2);
    let l1 = left_major_steps(major, minor, (n + 2) / 2);
    let r1 = right_major_steps(major, minor, (n + 1) / 2);
    if n % 2 == 0 {
        lemma_left_rail_step(major, minor, n / 2);
        assert((n + 2) / 2 == n / 2 + 1);
        assert((n + 1) / 2 == n / 2);
    } else {
        lemma_right_rail_step(major, minor, n / 2);
        assert((n + 2) / 2 == (n + 1) / 2);
        assert((n + 1) / 2 == n / 2 + 1);
    }
    assert(2 * major * (n + 1) == 2 * major * n + 2 * major) by (nonlinear_arith);
    assert(2 * minor * (l0 + r0 + 1) == 2 * minor * (l0 + r0) + 2 * minor) by (nonlinear_arith);
}

/// What one step adds to the thickness counter of a cap.
pub proof fn lemma_cap_step(band: Band, j: int)
    requires
        0 <= j,
    ensures
        band.cap_used(0) == band.major() + band.minor(),
        band.cap_used(j + 1) == band.cap_used(j) + 2 * band.major() + if left_error(
            band.major(),
            band.minor(),
            j,
        ) > band.major() - 2 * band.minor() {
            2 * band.minor()
        } else {
            0int
        },
{
    reveal(Band::cap_used);
    let major = band.major();
    let minor = band.minor();
    let l0 = left_major_steps(major, minor, j);
    lemma_left_rail_step(major, minor, j);
    lemma_rails_at_start(major, minor);
    assert(2 * major * 0 == 0);
    assert(2 * minor * 0 == 0);
    assert(2 * major * (j + 1) == 2 * major * j + 2 * major) by (nonlinear_arith);
    assert(2 * minor * (l0 + 1) == 2 * minor * l0 + 2 * minor) by (nonlinear_arith);
}

/// A squared length within `i32` bounds the deltas themselves.
pub proof fn lemma_short_deltas(dx: int, dy: int)
    requires
        dx * dx + dy * dy <= i32::MAX,
    ensures
        -46340 <= dx <= 46340,
        -46340 <= dy <= 46340,
        0 <= dx * dx,
        0 <= dy * dy,
{
    assert(0 <= dx * dx && 0 <= dy * dy) by (nonlinear_arith);
    assert(-46340 <= dx <= 46340) by (nonlinear_arith)
        requires
            dx * dx <= 2147483647,
    ;
    assert(-46340 <= dy <= 46340) by (nonlinear_arith)
        requires
            dy * dy <= 2147483647,
    ;
}

/// Over `j` steps a rail takes no more than `j` steps along the major axis,
/// and none backwards.
pub proof fn lemma_major_steps_bounds(major: int, minor: int, j: int)
    requires
        0 <= minor <= major,
        0 <= j,
    ensures
        0 <= left_major_steps(major, minor, j) <= j,
        0 <= right_major_steps(major, minor, j) <= j,
    decreases j,
{
    if j == 0 {
        lemma_rails_at_start(major, minor);
    } else {
        lemma_major_steps_bounds(major, minor, j - 1);
        lemma_left_rail_step(major, minor, j - 1);
        lemma_right_rail_step(major, minor, j - 1);
    }
}

impl Band {
    /// The extents of the centre line are ordered and not negative, and both
    /// are zero only where the line is a single point.
    pub proof fn lemma_major_minor(self)
        ensures
            0 <= self.minor() <= self.major(),
            self.major() == 0 <==> self.start == self.end,
    {
    }

    /// The thickness counter never decreases: every rail step adds at least
    /// `2 * major` to it, and at most `2 * major + 2 * minor`.
    pub proof fn lemma_thickness_grows(self, n: int)
        requires
            0 <= n,
        ensures
            self.thickness_used(n) + 2 * self.major() <= self.thickness_used(n + 1),
            self.thickness_used(n + 1) <= self.thickness_used(n) + 2 * self.major() + 2
                * self.minor(),
            self.thickness_used(n) <= self.thickness_used(n + 1),
    {
        lemma_thickness_step(self, n);
    }

    /// After `n` rail steps the thickness counter is at least
    /// `(2 * n + 1) * major`.
    pub proof fn lemma_thickness_lower_bound(self, n: int)
        requires
            0 <= n,
        ensures
            self.thickness_used(n) >= (2 * n + 1) * self.major(),
        decreases n,
    {
        let major = self.major();
        if n == 0 {
            lemma_thickness_start(self);
            assert((2 * 0 + 1) * major == major) by (nonlinear_arith);
        } else {
            self.lemma_thickness_lower_bound(n - 1);
            self.lemma_thickness_grows(n - 1);
            assert((2 * n + 1) * major == (2 * (n - 1) + 1) * major + 2 * major)
                by (nonlinear_arith);
        }
    }

    /// The thickness counter after fewer steps is no larger.
    pub proof fn lemma_thickness_monotone(self, m: int, n: int)
        requires
            0 <= m <= n,
        ensures
            self.thickness_used(m) <= self.thickness_used(n),
        decreases n - m,
    {
        if m < n {
            self.lemma_thickness_monotone(m, n - 1);
            self.lemma_thickness_grows(n - 1);
        }
    }

    /// Every segment before a segment that is drawn is drawn too.
    pub proof fn lemma_segments_are_consecutive(self, m: int, n: int)
        requires
            0 <= m <= n,
            self.has_segment(n),
        ensures
            self.has_segment(m),
    {
        if m > 0 {
            self.lemma_thickness_monotone(m - 1, n - 1);
        }
    }

    /// The drawing of a line with extent ends: the segments that are drawn
    /// are numbered from zero to no more than `thickness + 1`.
    pub proof fn lemma_drawing_ends(self, n: int)
        requires
            self.major() > 0,
            self.has_segment(n),
        ensures
            0 <= n <= self.thickness + 1,
    {
        if n > 0 {
            self.lemma_thickness_lower_bound(n - 1);
            assert((2 * (n - 1) + 1) * self.major() >= 2 * (n - 1) + 1) by (nonlinear_arith)
                requires
                    self.major() >= 1,
                    n >= 1,
            ;
        }
    }

    /// The centre line is drawn, whatever the thickness.
    pub proof fn lemma_centre_line_is_drawn(self, k: int)
        requires
            0 <= k < line_len(self.start, self.end),
        ensures
            self.draws(line_point(self.start, self.end, k)),
            self.segment(0) == line_points(self.start, self.end),
    {
        assert(self.segment_start(0) == self.start);
        assert(self.segment_end(0) == self.end);
        assert(self.has_segment(0));
        assert(self.segment(0)[k] == line_point(self.start, self.end, k));
    }

    /// Every segment is the centre line, moved by the offset of its rail.
    pub proof fn lemma_segment_is_shifted_centre_line(self, n: int, k: int)
        requires
            0 <= k < self.segment(n).len(),
        ensures
            self.segment(n).len() == line_len(self.start, self.end),
            self.segment(n)[k] == (
                line_point(self.start, self.end, k).0 + self.rail_offset(n).0,
                line_point(self.start, self.end, k).1 + self.rail_offset(n).1,
            ),
    {
        lemma_line_point_shifted(self.start, self.end, self.rail_offset(n), k);
    }

    /// The drawing of a line without extent never ends: its thickness
    /// counter stays at zero, and so within any budget. Its centre line is
    /// the single point at which it starts.
    pub proof fn lemma_point_never_ends(self, n: int)
        requires
            self.start == self.end,
            0 <= n,
        ensures
            self.thickness_used(n) == 0,
            self.has_segment(n),
            self.segment(0) == seq![self.start],
    {
        reveal(Band::thickness_used);
        let l = left_major_steps(0, 0, (n + 1) / 2);
        let r = right_major_steps(0, 0, n / 2);
        assert(2 * 0 * n == 0 && 2 * 0 * (l + r) == 0) by (nonlinear_arith);
        if n > 0 {
            let l1 = left_major_steps(0, 0, n / 2);
            let r1 = right_major_steps(0, 0, (n - 1) / 2);
            assert(2 * 0 * (n - 1) == 0 && 2 * 0 * (l1 + r1) == 0) by (nonlinear_arith);
        }
        assert(self.segment(0) =~= seq![self.start]);
    }

    /// The rails of a line without extent leave every bounded part of the
    /// grid: the segment with the number that is given back is drawn, and
    /// starts `bound` below where the line lies.
    pub proof fn lemma_point_leaves_the_grid(self, bound: int) -> (n: int)
        requires
            self.start == self.end,
            0 < bound,
        ensures
            self.has_segment(n),
            self.segment_start(n).1 == self.start.1 - bound,
    {
        reveal(Band::left_offset);
        let n = 2 * bound - 1;
        self.lemma_point_never_ends(n);
        assert((n + 1) / 2 == bound);
        n
    }

    /// How far from the centre line a segment can lie, along either axis.
    pub open spec fn reach(self) -> int {
        self.thickness as int / (4 * self.major()) + 1
    }

    /// No rail of a line with extent moves further than `reach` from where
    /// it began, along either axis, while its segments are drawn.
    pub proof fn lemma_rail_within_reach(self, n: int)
        requires
            self.major() > 0,
            self.has_segment(n),
        ensures
            -self.reach() <= self.rail_offset(n).0 <= self.reach(),
            -self.reach() <= self.rail_offset(n).1 <= self.reach(),
    {
        reveal(Band::left_offset);
        reveal(Band::right_offset);
        let major = self.major();
        let minor = self.minor();
        let t = self.thickness as int;
        let q = t / (4 * major);
        lemma_fundamental_div_mod(t, 4 * major);
        assert(q >= 0) by (nonlinear_arith)
            requires
                t == (4 * major) * q + t % (4 * major),
                0 <= t % (4 * major) < 4 * major,
                t >= 0,
                major > 0,
        ;
        if n > 0 {
            let j = (n + 1) / 2;
            self.lemma_thickness_lower_bound(n - 1);
            assert(j <= q + 1) by (nonlinear_arith)
                requires
                    t == (4 * major) * q + t % (4 * major),
                    0 <= t % (4 * major) < 4 * major,
                    (2 * (n - 1) + 1) * major <= t,
                    2 * j <= n + 1,
                    major > 0,
            ;
            lemma_major_steps_bounds(major, minor, j);
            lemma_major_steps_bounds(major, minor, n / 2);
        }
    }

    /// Every point that a line with extent draws lies within the box around
    /// its centre line, made larger by `reach` on every side.
    pub proof fn lemma_drawn_within_reach(self, p: (int, int))
        requires
            self.major() > 0,
            self.draws(p),
        ensures
            min(self.start.0, self.end.0) - self.reach() <= p.0 <= max(self.start.0, self.end.0)
                + self.reach(),
            min(self.start.1, self.end.1) - self.reach() <= p.1 <= max(self.start.1, self.end.1)
                + self.reach(),
    {
        let (n, k) = choose|n: int, k: int|
            self.has_segment(n) && 0 <= k < self.segment(n).len() && #[trigger] self.segment(
                n,
            )[k] == p;
        self.lemma_segment_is_shifted_centre_line(n, k);
        self.lemma_rail_within_reach(n);
        lemma_line_point_between(self.start, self.end, k);
    }
}

} // verus!
