//! Rows of pixels perpendicular to a line, for the caps at its ends.

use crate::geometry::{representable, Point};
use crate::primitives::band::{
    left_error, lemma_cap_step, lemma_left_offset_step, lemma_left_rail_step,
    lemma_short_deltas, lemma_thickness_start, Band,
};
use crate::primitives::line::Line;
use vstd::prelude::*;

verus! {

/// A place in a cap: `taken` points of the cap of `band` that begins at
/// `anchor` have been handed out.
pub struct CapCursor {
    /// The band of the line that the cap belongs to.
    pub band: Band,
    /// Where the cap begins.
    pub anchor: (int, int),
    /// How many points have been handed out.
    pub taken: int,
}

/// Walks a cap: a row of pixels that begins at an anchor and runs
/// perpendicular to a line, to its left, as far as a thickness budget allows.
#[derive(Clone, Copy, Debug, PartialEq, Eq, PartialOrd, Ord, Hash)]
pub struct PerpLineIterator {
    start: Point,
    end: Point,
    anchor: Point,
    /// The point handed out last, or the anchor where none has been.
    cur: Point,
    started: bool,
    error: i32,
    threshold: i32,
    e_diag: i32,
    e_square: i32,
    dx: i32,
    dy: i32,
    step_major: Point,
    step_minor: Point,
    side_thickness: u64,
    tk: u64,
}

impl View for PerpLineIterator {
    type V = CapCursor;

    /// Where the walk stands.
    closed spec fn view(&self) -> CapCursor {
        CapCursor {
            band: self.band(),
            anchor: self.anchor@,
            taken: if self.started {
                self.steps() + 1
            } else {
                0
            },
        }
    }
}

impl PerpLineIterator {
    spec fn band(&self) -> Band {
        Band { start: self.start@, end: self.end@, thickness: self.side_thickness as nat }
    }

    /// How many steps have been taken from the anchor.
    spec fn steps(&self) -> int {
        self.band().offset_steps((self.cur.x - self.anchor.x, self.cur.y - self.anchor.y))
    }

    /// The fields agree with each other and with the closed form of the cap.
    pub closed spec fn wf(&self) -> bool {
        let b = self.band();
        let major = b.major();
        let minor = b.minor();
        let j = self.steps();
        &&& b.dx() * b.dx() + b.dy() * b.dy() <= i32::MAX
        &&& self.side_thickness < 0x4_0000_0000_0000
        &&& self.dx == major
        &&& self.dy == minor
        &&& self.threshold == major - 2 * minor
        &&& self.e_diag == -2 * major
        &&& self.e_square == 2 * minor
        &&& self.step_major@ == b.step_major()
        &&& self.step_minor@ == b.step_minor()
        &&& !self.started ==> j == 0
        &&& b.has_cap_point(j)
        &&& self.cur@ == b.cap_point(self.anchor@, j)
        &&& self.error == left_error(major, minor, j)
        &&& self.tk == b.cap_used(j)
    }

    /// Whether the step that the next call may have to take leads to a point
    /// of the grid.
    pub open spec fn step_fits(&self) -> bool {
        let c = self@;
        c.taken > 0 && c.band.has_cap_point(c.taken) ==> representable(
            c.band.cap_point(c.anchor, c.taken),
        )
    }

    /// Starts the cap at `anchor` of a line with the given side thickness.
    pub fn new(line: &Line, anchor: Point, side_thickness: u64) -> (it: Self)
        requires
            (line.end@.0 - line.start@.0) * (line.end@.0 - line.start@.0) + (line.end@.1
                - line.start@.1) * (line.end@.1 - line.start@.1) <= i32::MAX,
            side_thickness < 0x4_0000_0000_0000,
        ensures
            it.wf(),
            it@ == (CapCursor {
                band: Band {
                    start: line.start@,
                    end: line.end@,
                    thickness: side_thickness as nat,
                },
                anchor: anchor@,
                taken: 0,
            }),
    {
        proof {
            lemma_short_deltas(line.end@.0 - line.start@.0, line.end@.1 - line.start@.1);
        }
        let dx: i32 = line.end.x - line.start.x;
        let dy: i32 = line.end.y - line.start.y;
        let abs_dx: i32 = if dx < 0 {
            -dx
        } else {
            dx
        };
        let abs_dy: i32 = if dy < 0 {
            -dy
        } else {
            dy
        };
        let dir_x: i32 = if dx < 0 {
            -1
        } else {
            1
        };
        let dir_y: i32 = if dy < 0 {
            -1
        } else {
            1
        };
        let y_major = abs_dy > abs_dx;
        let major: i32 = if y_major {
            abs_dy
        } else {
            abs_dx
        };
        let minor: i32 = if y_major {
            abs_dx
        } else {
            abs_dy
        };
        proof {
            let band = Band {
                start: line.start@,
                end: line.end@,
                thickness: side_thickness as nat,
            };
            lemma_thickness_start(band);
            lemma_left_offset_step(band, 0);
            lemma_cap_step(band, 0);
        }
        Self {
            start: line.start,
            end: line.end,
            anchor,
            cur: anchor,
            started: false,
            error: 0,
            threshold: major - 2 * minor,
            e_diag: -(2 * major),
            e_square: 2 * minor,
            dx: major,
            dy: minor,
            step_major: if y_major {
                Point::new(0, dir_y)
            } else {
                Point::new(dir_x, 0)
            },
            step_minor: if y_major {
                Point::new(dir_x, 0)
            } else {
                Point::new(0, dir_y)
            },
            side_thickness,
            tk: (major + minor) as u64,
        }
    }

    /// Whether the next call of [`next`](Self::next) can be made: whether
    /// the step it may have to take leads to a point of the grid.
    pub fn can_step(&self) -> (b: bool)
        requires
            self.wf(),
        ensures
            b == self.step_fits(),
    {
        if !self.started || self.tk > self.side_thickness {
            return true;
        }
        let ghost b = self.band();
        let ghost j = self.steps();
        proof {
            lemma_left_rail_step(b.major(), b.minor(), j);
            lemma_left_offset_step(b, j);
        }
        let along_major = self.error > self.threshold;
        let x: i64 = self.cur.x as i64 - self.step_minor.x as i64 + if along_major {
            self.step_major.x as i64
        } else {
            0
        };
        let y: i64 = self.cur.y as i64 - self.step_minor.y as i64 + if along_major {
            self.step_major.y as i64
        } else {
            0
        };
        assert(b.cap_point(self.anchor@, j + 1) == (x as int, y as int));
        -2147483648 <= x && x <= 2147483647 && -2147483648 <= y && y <= 2147483647
    }

    /// Hands out the next point of the cap, or `None` once the thickness
    /// counter has passed the budget.
    pub fn next(&mut self) -> (r: Option<Point>)
        requires
            old(self).wf(),
            old(self).step_fits(),
        ensures
            final(self).wf(),
            final(self)@.band == old(self)@.band,
            final(self)@.anchor == old(self)@.anchor,
            old(self)@.band.has_cap_point(old(self)@.taken) ==> {
                &&& r matches Some(p)
                &&& p@ == old(self)@.band.cap_point(old(self)@.anchor, old(self)@.taken)
                &&& final(self)@.taken == old(self)@.taken + 1
            },
            !old(self)@.band.has_cap_point(old(self)@.taken) ==> r is None && *final(self) == *old(
                self,
            ),
    {
        if !self.started {
            self.started = true;
            return Some(self.cur);
        }
        if self.tk > self.side_thickness {
            return None;
        }
        let ghost b = self.band();
        let ghost j = self.steps();
        proof {
            lemma_short_deltas(b.dx(), b.dy());
            lemma_cap_step(b, j);
            lemma_left_rail_step(b.major(), b.minor(), j);
            lemma_left_offset_step(b, j);
        }
        if self.error > self.threshold {
            self.cur = self.cur.plus(self.step_major);
            self.error = self.error + self.e_diag;
            self.tk = self.tk + 2 * (self.dy as u64);
        }
        self.cur = self.cur.minus(self.step_minor);
        self.error = self.error + self.e_square;
        self.tk = self.tk + 2 * (self.dx as u64);
        Some(self.cur)
    }
}

} // verus!
