//! Lines with a stroke width.
//!
//! [`ThickLine`] describes such a line, and [`ThickLineIterator`] produces its
//! pixels one at a time, with integer additions only. Which pixels these
//! are is stated by [`Band`](crate::primitives::band::Band), and in which
//! order they come by [`Cursor`].
//!
//! A line is drawn pixel by pixel with [`ThickLineIterator::next`], which
//! asks of its caller that the line has a stroke colour and that its rails
//! stay on the grid, or as a whole with [`ThickLine::pixels`], which asks
//! nothing and gives nothing where the line cannot be drawn.

use crate::drawable::Pixel;
use crate::geometry::{representable, Point};
use crate::pixelcolor::PixelColor;
use crate::primitives::band::{
    left_error, lemma_left_offset_step, lemma_left_rail_step, lemma_right_offset_step,
    lemma_right_rail_step, lemma_short_deltas, lemma_thickness_start, lemma_thickness_step,
    right_error, stroke_thickness, Band,
};
use crate::primitives::cursor::Cursor;
use crate::primitives::line::{line_len, Line, LineIterator};
use crate::primitives::perp_line::{CapCursor, PerpLineIterator};
use crate::sqrt::rounded_sqrt;
use crate::style::PrimitiveStyle;
use vstd::prelude::*;

verus! {

/// The side thickness of a stroke: twice its width times the length of its
/// centre line, rounded to the nearest integer.
pub fn side_thickness(stroke_width: u32, dx: i32, dy: i32) -> (t: u64)
    requires
        dx * dx + dy * dy <= i32::MAX,
    ensures
        t == stroke_thickness(stroke_width as nat, dx as int, dy as int),
        t < 0x4_0000_0000_0000,
{
    proof {
        lemma_short_deltas(dx as int, dy as int);
    }
    let w: u128 = stroke_width as u128;
    let x: i64 = dx as i64;
    let y: i64 = dy as i64;
    assert(0 <= x * x <= 0x7fff_ffff && 0 <= y * y <= 0x7fff_ffff) by (nonlinear_arith)
        requires
            -46340 <= x <= 46340,
            -46340 <= y <= 46340,
    ;
    let d2: u128 = (x * x + y * y) as u128;
    assert(4 * w * w < 0x4_0000_0000_0000_0000) by (nonlinear_arith)
        requires
            0 <= w < 0x1_0000_0000,
    ;
    assert(4 * w * w * d2 < 0x2_0000_0000_0000_0000_0000_0000) by (nonlinear_arith)
        requires
            0 <= 4 * w * w < 0x4_0000_0000_0000_0000,
            0 <= d2 < 0x8000_0000,
    ;
    let n: u128 = 4 * w * w * d2;
    let r: u128 = rounded_sqrt(n);
    assert(r < 0x4_0000_0000_0000) by (nonlinear_arith)
        requires
            r > 0 ==> (2 * r - 1) * (2 * r - 1) <= 4 * n,
            n < 0x2_0000_0000_0000_0000_0000_0000,
    ;
    r as u64
}

/// Whether `v` is a coordinate that a [`Point`] can hold.
fn fits(v: i64) -> (b: bool)
    ensures
        b == (i32::MIN <= v <= i32::MAX),
{
    -2147483648 <= v && v <= 2147483647
}

/// A straight line with a stroke width.
#[derive(Clone, Debug, PartialEq, Eq, PartialOrd, Ord, Hash)]
pub struct ThickLine<C: PixelColor> {
    start: Point,
    end: Point,
    style: PrimitiveStyle<C>,
    draw_extra: bool,
}

impl<C: PixelColor> ThickLine<C> {
    /// Start of the centre line.
    pub closed spec fn start(&self) -> Point {
        self.start
    }

    /// End of the centre line.
    pub closed spec fn end(&self) -> Point {
        self.end
    }

    /// The style the line is drawn with.
    pub closed spec fn style(&self) -> PrimitiveStyle<C> {
        self.style
    }

    /// Whether caps are asked for at the ends of the line.
    pub closed spec fn draw_extra(&self) -> bool {
        self.draw_extra
    }

    /// The square of the length of the centre line.
    pub open spec fn squared_length(&self) -> int {
        let dx = self.end()@.0 - self.start()@.0;
        let dy = self.end()@.1 - self.start()@.1;
        dx * dx + dy * dy
    }

    /// The geometry of the line: its centre line, and the side thickness that
    /// follows from its stroke width and its length.
    pub open spec fn band(&self) -> Band {
        Band {
            start: self.start()@,
            end: self.end()@,
            thickness: stroke_thickness(
                self.style().stroke_width as nat,
                self.end()@.0 - self.start()@.0,
                self.end()@.1 - self.start()@.1,
            ),
        }
    }

    /// Describes the line from `start` to `end`, drawn with `style`. Any
    /// values are accepted, a width of zero and equal end points among them.
    pub fn new(start: Point, end: Point, style: PrimitiveStyle<C>, draw_extra: bool) -> (line:
        Self)
        ensures
            line.start() == start,
            line.end() == end,
            line.style() == style,
            line.draw_extra() == draw_extra,
    {
        Self { start, end, style, draw_extra }
    }

    /// Lines with the same ends and the same stroke width are drawn alike,
    /// point for point and in the same order.
    pub proof fn lemma_equal_lines_draw_alike(&self, other: &Self, i: nat)
        requires
            self.start() == other.start(),
            self.end() == other.end(),
            self.style().stroke_width == other.style().stroke_width,
        ensures
            self.band() == other.band(),
            Cursor::first(self.band()).nth(i) == Cursor::first(other.band()).nth(i),
    {
    }

    /// Whether the line is short enough to be drawn: the square of its
    /// length must not exceed `i32::MAX`.
    pub fn is_drawable(&self) -> (b: bool)
        ensures
            b == (self.squared_length() <= i32::MAX),
    {
        let dx: i64 = self.end.x as i64 - self.start.x as i64;
        let dy: i64 = self.end.y as i64 - self.start.y as i64;
        if dx < -46340 || dx > 46340 || dy < -46340 || dy > 46340 {
            proof {
                if self.squared_length() <= i32::MAX {
                    lemma_short_deltas(dx as int, dy as int);
                }
            }
            return false;
        }
        assert(0 <= dx * dx <= 2147395600 && 0 <= dy * dy <= 2147395600) by (nonlinear_arith)
            requires
                -46340 <= dx <= 46340,
                -46340 <= dy <= 46340,
        ;
        dx * dx + dy * dy <= 2147483647
    }

    /// Whether segment `n` of `band` has both its ends on the grid.
    pub open spec fn segment_on_grid(band: Band, n: int) -> bool {
        &&& representable(band.segment_start(n))
        &&& representable(band.segment_end(n))
    }

    /// Whether every segment that the line draws has both its ends on the
    /// grid. A line without extent never has: its rails go on without end.
    pub open spec fn fits_the_grid(&self) -> bool {
        forall|n: int| #[trigger]
            self.band().has_segment(n) ==> Self::segment_on_grid(self.band(), n)
    }

    /// Whether the line can be drawn as a whole: it is short enough, it has
    /// a stroke colour, and it fits the grid.
    pub open spec fn can_be_drawn(&self) -> bool {
        &&& self.squared_length() <= i32::MAX
        &&& self.style().stroke_color is Some
        &&& self.fits_the_grid()
    }

    /// Whether `pixels` is the whole drawing of the line: its points in the
    /// order in which they are drawn, each in the stroke colour.
    pub open spec fn is_drawing(&self, pixels: Seq<Pixel<C>>) -> bool {
        let first = Cursor::first(self.band());
        &&& forall|i: int|
            0 <= i < pixels.len() ==> first.nth(i as nat) == Some((#[trigger] pixels[i]).0@)
                && Some(pixels[i].1) == self.style().stroke_color
        &&& first.nth(pixels.len()) is None
    }

    /// The whole drawing of the line, where it can be drawn as a whole.
    pub fn pixels(&self) -> (r: Option<Vec<Pixel<C>>>)
        ensures
            match r {
                Some(pixels) => self.can_be_drawn() && self.is_drawing(pixels@),
                None => !self.can_be_drawn(),
            },
    {
        if !self.is_drawable() || self.style.stroke_color.is_none() {
            return None;
        }
        let ghost band = self.band();
        let ghost first = Cursor::first(band);
        if self.start.x == self.end.x && self.start.y == self.end.y {
            proof {
                let n = band.lemma_point_leaves_the_grid(0x1_0000_0000);
                assert(!Self::segment_on_grid(band, n));
            }
            return None;
        }
        let mut it = ThickLineIterator::new(self, self.style);
        let ghost last = 0int;
        let ghost reached = 0int;
        proof {
            last = band.lemma_last_segment(0);
            it.lemma_segment_on_grid();
        }
        let mut out: Vec<Pixel<C>> = Vec::new();
        loop
            invariant
                it.wf(),
                it.stroke_color() == self.style().stroke_color,
                self.style().stroke_color is Some,
                band == self.band(),
                first == Cursor::first(band),
                band.major() > 0,
                band.has_segment(last),
                !band.has_segment(last + 1),
                it@ == first.skip(out@.len()),
                it@.band == band,
                it@.segment == reached,
                forall|i: int|
                    0 <= i < out@.len() ==> first.nth(i as nat) == Some((#[trigger] out@[i]).0@)
                        && Some(out@[i].1) == self.style().stroke_color,
                forall|n: int|
                    0 <= n <= reached ==> Self::segment_on_grid(band, n),
            decreases (last + 1) * line_len(band.start, band.end) - out@.len(),
        {
            proof {
                it.lemma_view_valid();
            }
            if !it.can_step() {
                assert(band.has_segment(reached + 1));
                assert(!Self::segment_on_grid(band, reached + 1));
                return None;
            }
            let ghost before = it@;
            match it.next() {
                Some(pixel) => {
                    proof {
                        first.lemma_skip_one_more(out@.len());
                        band.lemma_drawing_is_finite(last, out@.len());
                        it.lemma_segment_on_grid();
                        assert(before.next_position() is Some);
                        assert(it@.band == band);
                        assert(it@.segment == reached || it@.segment == reached + 1);
                        assert(Self::segment_on_grid(band, it@.segment));
                        reached = it@.segment;
                    }
                    out.push(pixel);
                },
                None => {
                    proof {
                        assert(before.next_position() is None);
                        assert(first.nth(out@.len()) is None);
                        assert forall|n: int| #[trigger] band.has_segment(n) implies
                            Self::segment_on_grid(band, n) by {
                            if n > reached {
                                band.lemma_segments_are_consecutive(reached + 1, n);
                            }
                        }
                    }
                    return Some(out);
                },
            }
        }
    }

    /// Starts drawing the line with its own style.
    pub fn into_iter(self) -> (it: ThickLineIterator<C>)
        requires
            self.squared_length() <= i32::MAX,
        ensures
            it.wf(),
            it@ == Cursor::first(self.band()),
            it.stroke_color() == self.style().stroke_color,
            it.draw_extra() == self.draw_extra(),
            it.thickness_counter() == self.band().major() + self.band().minor(),
            ThickLineIterator::<C>::is_cap_of(it.cap(), self.band(), self.draw_extra()),
    {
        let style = self.style;
        ThickLineIterator::new(&self, style)
    }
}

/// The rail that takes the next step.
#[derive(Clone, Copy, Debug, PartialEq, Eq, Structural, PartialOrd, Ord, Hash)]
enum Side {
    Left,
    Right,
}

/// Produces the pixels of a [`ThickLine`] one at a time: the centre line
/// first, then the segments between the two ends of the left and of the right
/// rail by turns.
#[derive(Clone, Debug, PartialEq, Eq, PartialOrd, Ord, Hash)]
pub struct ThickLineIterator<C: PixelColor> {
    error_l: i32,
    error_r: i32,
    threshold: i32,
    e_diag: i32,
    e_square: i32,
    /// Extent of the centre line along its major axis.
    dx: i32,
    /// Extent of the centre line along its minor axis.
    dy: i32,
    style: PrimitiveStyle<C>,
    side_thickness: u64,
    draw_extra: bool,
    start: Point,
    end: Point,
    start_l: Point,
    start_r: Point,
    end_l: Point,
    end_r: Point,
    /// One step along the axis of the larger delta.
    step_major: Point,
    /// One step along the axis of the smaller delta.
    step_minor: Point,
    /// The thickness counter.
    tk: u64,
    side: Side,
    /// The thin line that is being drawn.
    joiner: LineIterator,
    /// The cap at the start of the line, where caps are asked for.
    extra_perp: Option<PerpLineIterator>,
}

impl<C: PixelColor> View for ThickLineIterator<C> {
    type V = Cursor;

    /// Where the drawing stands.
    closed spec fn view(&self) -> Cursor {
        Cursor {
            band: self.band(),
            segment: self.left_steps() + self.right_steps(),
            offset: self.joiner.position() as int,
        }
    }
}

impl<C: PixelColor> ThickLineIterator<C> {
    /// The colour that the pixels are given.
    pub closed spec fn stroke_color(&self) -> Option<C> {
        self.style.stroke_color
    }

    /// Whether caps are asked for at the ends of the line.
    pub closed spec fn draw_extra(&self) -> bool {
        self.draw_extra
    }

    /// The cap at the start of the line, where caps are asked for.
    pub closed spec fn cap(&self) -> Option<PerpLineIterator> {
        self.extra_perp
    }

    /// The thickness counter.
    pub closed spec fn thickness_counter(&self) -> int {
        self.tk as int
    }

    /// The error terms of the left and of the right rail.
    pub closed spec fn error_terms(&self) -> (int, int) {
        (self.error_l as int, self.error_r as int)
    }

    /// The three constants of the rail walk: the threshold above which, or
    /// for the right rail from which, an error term asks for a step along
    /// the major axis; what such a step adds to the error term; and what
    /// the step along the minor axis adds.
    pub closed spec fn constants(&self) -> (int, int, int) {
        (self.threshold as int, self.e_diag as int, self.e_square as int)
    }

    /// Whether the left rail takes the next step.
    pub closed spec fn left_turn(&self) -> bool {
        self.side is Left
    }

    /// The two ends of the left rail.
    pub closed spec fn left_rail(&self) -> ((int, int), (int, int)) {
        (self.start_l@, self.end_l@)
    }

    /// The two ends of the right rail.
    pub closed spec fn right_rail(&self) -> ((int, int), (int, int)) {
        (self.start_r@, self.end_r@)
    }

    /// Whether `cap` is the cap that goes with a drawing of `band`: none
    /// where no caps are asked for, else a cap of that band that begins at
    /// the start of its centre line and has handed out nothing yet.
    pub open spec fn is_cap_of(cap: Option<PerpLineIterator>, band: Band, draw_extra: bool) -> bool {
        match cap {
            Some(perp) => {
                &&& draw_extra
                &&& perp.wf()
                &&& perp@ == (CapCursor { band, anchor: band.start, taken: 0 })
            },
            None => !draw_extra,
        }
    }

    spec fn band(&self) -> Band {
        Band { start: self.start@, end: self.end@, thickness: self.side_thickness as nat }
    }

    /// How many steps the left rail has taken.
    spec fn left_steps(&self) -> int {
        self.band().offset_steps((self.start_l.x - self.start.x, self.start_l.y - self.start.y))
    }

    /// How many steps the right rail has taken.
    spec fn right_steps(&self) -> int {
        self.band().offset_steps((self.start_r.x - self.start.x, self.start_r.y - self.start.y))
    }

    /// The fields agree with each other and with the closed form of the band.
    pub closed spec fn wf(&self) -> bool {
        let b = self.band();
        let major = b.major();
        let minor = b.minor();
        let jl = self.left_steps();
        let jr = self.right_steps();
        let n = jl + jr;
        &&& b.dx() * b.dx() + b.dy() * b.dy() <= i32::MAX
        &&& self.side_thickness < 0x4_0000_0000_0000
        &&& self.dx == major
        &&& self.dy == minor
        &&& self.threshold == major - 2 * minor
        &&& self.e_diag == -2 * major
        &&& self.e_square == 2 * minor
        &&& self.step_major@ == b.step_major()
        &&& self.step_minor@ == b.step_minor()
        &&& jl == jr || jl == jr + 1
        &&& self.side is Left <==> jl == jr
        &&& self.start_l@ == (b.start.0 + b.left_offset(jl).0, b.start.1 + b.left_offset(jl).1)
        &&& self.end_l@ == (b.end.0 + b.left_offset(jl).0, b.end.1 + b.left_offset(jl).1)
        &&& self.start_r@ == (b.start.0 + b.right_offset(jr).0, b.start.1 + b.right_offset(jr).1)
        &&& self.end_r@ == (b.end.0 + b.right_offset(jr).0, b.end.1 + b.right_offset(jr).1)
        &&& self.error_l == left_error(major, minor, jl)
        &&& self.error_r == right_error(major, minor, jr)
        &&& self.tk == b.thickness_used(n)
        &&& b.has_segment(n)
        &&& self.joiner.wf()
        &&& self.joiner.line().start@ == b.segment_start(n)
        &&& self.joiner.line().end@ == b.segment_end(n)
        &&& Self::is_cap_of(self.extra_perp, b, self.draw_extra)
    }

    /// A well-formed iterator stands at a place that drawing can come to,
    /// and its thickness counter is that of the band after as many rail
    /// steps as it has taken.
    pub proof fn lemma_view_valid(&self)
        requires
            self.wf(),
        ensures
            self@.valid(),
            self.thickness_counter() == self@.band.thickness_used(self@.segment),
    {
        self.joiner.lemma_view();
    }

    /// The state of a well-formed iterator follows from the place at which
    /// it stands. After `n` rail steps the left rail has taken
    /// `(n + 1) / 2` of them and the right rail `n / 2`, and it is the turn
    /// of the left rail where `n` is even. The constants are
    /// `major - 2 * minor`, `-2 * major` and `2 * minor`.
    pub proof fn lemma_state(&self)
        requires
            self.wf(),
        ensures
            ({
                let band = self@.band;
                let n = self@.segment;
                let left = band.left_offset((n + 1) / 2);
                let right = band.right_offset(n / 2);
                &&& 0 <= band.minor() <= band.major() <= 46340
                &&& self.constants() == (
                    band.major() - 2 * band.minor(),
                    -2 * band.major(),
                    2 * band.minor(),
                )
                &&& self.left_turn() == (n % 2 == 0)
                &&& self.error_terms() == (
                    left_error(band.major(), band.minor(), (n + 1) / 2),
                    right_error(band.major(), band.minor(), n / 2),
                )
                &&& self.left_rail() == (
                    (band.start.0 + left.0, band.start.1 + left.1),
                    (band.end.0 + left.0, band.end.1 + left.1),
                )
                &&& self.right_rail() == (
                    (band.start.0 + right.0, band.start.1 + right.1),
                    (band.end.0 + right.0, band.end.1 + right.1),
                )
            }),
    {
        let b = self.band();
        lemma_short_deltas(b.dx(), b.dy());
        let jl = self.left_steps();
        let jr = self.right_steps();
        assert((jl + jr + 1) / 2 == jl && (jl + jr) / 2 == jr);
    }

    /// The segment that a well-formed iterator draws has both its ends on
    /// the grid.
    pub proof fn lemma_segment_on_grid(&self)
        requires
            self.wf(),
        ensures
            representable(self@.band.segment_start(self@.segment)),
            representable(self@.band.segment_end(self@.segment)),
    {
    }

    /// No rail step of a line with extent leaves the coordinates a [`Point`]
    /// can hold, if the ends of the line keep a distance of the band's reach
    /// from the limits of these coordinates.
    pub proof fn lemma_step_fits(&self)
        requires
            self.wf(),
            self@.band.major() > 0,
            i32::MIN + self@.band.reach() <= self@.band.start.0 <= i32::MAX - self@.band.reach(),
            i32::MIN + self@.band.reach() <= self@.band.start.1 <= i32::MAX - self@.band.reach(),
            i32::MIN + self@.band.reach() <= self@.band.end.0 <= i32::MAX - self@.band.reach(),
            i32::MIN + self@.band.reach() <= self@.band.end.1 <= i32::MAX - self@.band.reach(),
        ensures
            self.step_fits(),
    {
        let c = self@;
        if c.band.has_segment(c.segment + 1) {
            c.band.lemma_rail_within_reach(c.segment + 1);
        }
    }

    /// Whether the rail step that the next call may have to take keeps both
    /// ends of the rail within the coordinates a [`Point`] can hold. Nothing
    /// is asked while the current segment has points left, or where no
    /// segment follows.
    pub open spec fn step_fits(&self) -> bool {
        let c = self@;
        (c.offset >= c.band.segment(c.segment).len() && c.band.has_segment(c.segment + 1)) ==> {
            &&& representable(c.band.segment_start(c.segment + 1))
            &&& representable(c.band.segment_end(c.segment + 1))
        }
    }

    /// Starts drawing `line` in the colour of `style`. The width of the
    /// stroke is that of the line's own style.
    pub fn new(line: &ThickLine<C>, style: PrimitiveStyle<C>) -> (it: Self)
        requires
            line.squared_length() <= i32::MAX,
        ensures
            it.wf(),
            it@ == Cursor::first(line.band()),
            it.stroke_color() == style.stroke_color,
            it.draw_extra() == line.draw_extra(),
            it.thickness_counter() == line.band().major() + line.band().minor(),
            Self::is_cap_of(it.cap(), line.band(), line.draw_extra()),
    {
        proof {
            lemma_short_deltas(line.end@.0 - line.start@.0, line.end@.1 - line.start@.1);
        }
        let dx: i32 = line.end.x - line.start.x;
        let dy: i32 = line.end.y - line.start.y;

        let direction = if dx >= 0 {
            if dy >= 0 {
                Point::new(1, 1)
            } else {
                Point::new(1, -1)
            }
        } else {
            if dy >= 0 {
                Point::new(-1, 1)
            } else {
                Point::new(-1, -1)
            }
        };

        let side_thickness = side_thickness(line.style.stroke_width, dx, dy);

        let abs_dx: i32 = if dx < 0 {
            -dx
        } else {
            dx
        };
        let abs_dy: i32 = if dy < 0 {
            -dy
        } else {
            dy
        };

        // The axis of the larger delta is the major one.
        let y_major = abs_dy > abs_dx;
        let major: i32 = if y_major {
            abs_dy
        } else {
            abs_dx
        };
        let minor: i32 = if y_major {
            abs_dx
        } else {
            abs_dy
        };
        let step_major = if y_major {
            Point::new(0, direction.y)
        } else {
            Point::new(direction.x, 0)
        };
        let step_minor = if y_major {
            Point::new(direction.x, 0)
        } else {
            Point::new(0, direction.y)
        };

        proof {
            let band = Band {
                start: line.start@,
                end: line.end@,
                thickness: side_thickness as nat,
            };
            lemma_left_offset_step(band, 0);
            lemma_right_offset_step(band, 0);
            lemma_left_rail_step(major as int, minor as int, 0);
            lemma_right_rail_step(major as int, minor as int, 0);
            lemma_thickness_start(band);
        }

        let extra_perp = if line.draw_extra {
            Some(PerpLineIterator::new(&Line::new(line.start, line.end), line.start, side_thickness))
        } else {
            None
        };

        Self {
            step_major,
            step_minor,
            error_l: 0,
            error_r: 0,
            dx: major,
            dy: minor,
            start: line.start,
            end: line.end,
            threshold: major - 2 * minor,
            e_diag: -(2 * major),
            e_square: 2 * minor,
            style,
            draw_extra: line.draw_extra,
            side_thickness,
            tk: (major + minor) as u64,
            side: Side::Left,
            start_l: line.start,
            start_r: line.start,
            end_l: line.end,
            end_r: line.end,
            joiner: LineIterator::new(&Line::new(line.start, line.end)),
            extra_perp,
        }
    }

    /// The cap at the start of the line, for the caller to draw: the
    /// iterator itself produces no pixel of it. There is one exactly where
    /// caps are asked for.
    pub fn extra_perp(&self) -> (cap: Option<PerpLineIterator>)
        requires
            self.wf(),
        ensures
            cap == self.cap(),
            Self::is_cap_of(cap, self@.band, self.draw_extra()),
    {
        self.extra_perp
    }

    /// Whether the next call of [`next`](Self::next) can be made: whether
    /// the rail step it may have to take keeps both ends of the rail within
    /// the coordinates a [`Point`] can hold.
    pub fn can_step(&self) -> (b: bool)
        requires
            self.wf(),
        ensures
            b == self.step_fits(),
    {
        proof {
            self.joiner.lemma_view();
        }
        if !self.joiner.is_done() || self.tk > self.side_thickness {
            return true;
        }
        let ghost b = self.band();
        let ghost jl = self.left_steps();
        let ghost jr = self.right_steps();
        let ghost n = jl + jr;
        proof {
            lemma_short_deltas(b.dx(), b.dy());
            lemma_left_rail_step(b.major(), b.minor(), jl);
            lemma_right_rail_step(b.major(), b.minor(), jr);
            lemma_left_offset_step(b, jl);
            lemma_right_offset_step(b, jr);
        }
        let left = match self.side {
            Side::Left => true,
            Side::Right => false,
        };
        let along_major = if left {
            self.error_l > self.threshold
        } else {
            self.error_r >= self.threshold
        };
        // The step of the left rail, and the opposite of that of the right.
        let step_x: i64 = self.step_minor.x as i64 - if along_major {
            self.step_major.x as i64
        } else {
            0
        };
        let step_y: i64 = self.step_minor.y as i64 - if along_major {
            self.step_major.y as i64
        } else {
            0
        };
        let from = if left {
            self.start_l
        } else {
            self.start_r
        };
        let to = if left {
            self.end_l
        } else {
            self.end_r
        };
        let from_x: i64 = if left {
            from.x as i64 - step_x
        } else {
            from.x as i64 + step_x
        };
        let from_y: i64 = if left {
            from.y as i64 - step_y
        } else {
            from.y as i64 + step_y
        };
        let to_x: i64 = if left {
            to.x as i64 - step_x
        } else {
            to.x as i64 + step_x
        };
        let to_y: i64 = if left {
            to.y as i64 - step_y
        } else {
            to.y as i64 + step_y
        };
        proof {
            if left {
                assert(n % 2 == 0 && (n + 2) / 2 == jl + 1 && n / 2 == jl);
            } else {
                assert(n % 2 == 1 && (n + 1) / 2 == jr + 1 && n / 2 == jr);
            }
            assert(b.segment_start(n + 1) == (from_x as int, from_y as int));
            assert(b.segment_end(n + 1) == (to_x as int, to_y as int));
        }
        fits(from_x) && fits(from_y) && fits(to_x) && fits(to_y)
    }

    /// Lets the rail whose turn it is take one step, and starts the segment
    /// between its two ends.
    fn advance_rail(&mut self)
        requires
            old(self).wf(),
            old(self).tk <= old(self).side_thickness,
            representable(old(self)@.band.segment_start(old(self)@.segment + 1)),
            representable(old(self)@.band.segment_end(old(self)@.segment + 1)),
        ensures
            final(self).wf(),
            final(self).style == old(self).style,
            final(self).draw_extra == old(self).draw_extra,
            final(self).extra_perp == old(self).extra_perp,
            final(self).tk >= old(self).tk,
            final(self)@.band == old(self)@.band,
            final(self)@.segment == old(self)@.segment + 1,
            final(self)@.offset == 0,
    {
        let ghost b = self.band();
        let ghost jl = self.left_steps();
        let ghost jr = self.right_steps();
        let ghost n = jl + jr;
        proof {
            lemma_short_deltas(b.dx(), b.dy());
            lemma_thickness_step(b, n);
            lemma_left_rail_step(b.major(), b.minor(), jl);
            lemma_right_rail_step(b.major(), b.minor(), jr);
            lemma_left_offset_step(b, jl);
            lemma_right_offset_step(b, jr);
        }
        match self.side {
            Side::Left => {
                assert(n % 2 == 0 && (n + 2) / 2 == jl + 1 && n / 2 == jl);
                if self.error_l > self.threshold {
                    self.start_l = self.start_l.plus(self.step_major);
                    self.end_l = self.end_l.plus(self.step_major);
                    self.error_l = self.error_l + self.e_diag;
                    self.tk = self.tk + 2 * (self.dy as u64);
                }
                self.start_l = self.start_l.minus(self.step_minor);
                self.end_l = self.end_l.minus(self.step_minor);
                self.error_l = self.error_l + self.e_square;
                self.tk = self.tk + 2 * (self.dx as u64);
                self.side = Side::Right;
                self.joiner = LineIterator::new(&Line::new(self.start_l, self.end_l));
            },
            Side::Right => {
                assert(n % 2 == 1 && (n + 1) / 2 == jr + 1 && n / 2 == jr);
                if self.error_r >= self.threshold {
                    self.start_r = self.start_r.minus(self.step_major);
                    self.end_r = self.end_r.minus(self.step_major);
                    self.error_r = self.error_r + self.e_diag;
                    self.tk = self.tk + 2 * (self.dy as u64);
                }
                self.start_r = self.start_r.plus(self.step_minor);
                self.end_r = self.end_r.plus(self.step_minor);
                self.error_r = self.error_r + self.e_square;
                self.tk = self.tk + 2 * (self.dx as u64);
                self.side = Side::Left;
                self.joiner = LineIterator::new(&Line::new(self.start_r, self.end_r));
            },
        }
    }

    /// Produces the next pixel, or `None` once the band is drawn.
    ///
    /// While the current segment has points left, the next of them is
    /// produced. Otherwise drawing ends if the thickness counter has passed
    /// the budget; if it has not, the rail whose turn it is takes a step, and
    /// the first point of the segment between its two ends is produced.
    ///
    /// A pixel can only be produced if the style has a stroke colour, and a
    /// rail can only step where [`step_fits`](Self::step_fits) holds, which
    /// [`can_step`](Self::can_step) tells.
    pub fn next(&mut self) -> (r: Option<Pixel<C>>)
        requires
            old(self).wf(),
            old(self)@.produced() is Some ==> old(self).stroke_color() is Some,
            old(self).step_fits(),
        ensures
            final(self).wf(),
            final(self).stroke_color() == old(self).stroke_color(),
            final(self).draw_extra() == old(self).draw_extra(),
            final(self).cap() == old(self).cap(),
            final(self).thickness_counter() >= old(self).thickness_counter(),
            final(self)@ == old(self)@.advance(),
            match old(self)@.produced() {
                Some(p) => {
                    &&& r matches Some(pixel)
                    &&& pixel.0@ == p
                    &&& Some(pixel.1) == old(self).stroke_color()
                },
                None => r is None && *final(self) == *old(self),
            },
    {
        proof {
            self.joiner.lemma_view();
        }
        match self.joiner.next() {
            Some(point) => {
                return Some(Pixel(point, self.style.stroke_color.unwrap()));
            },
            None => {},
        }
        if self.tk > self.side_thickness {
            return None;
        }
        self.advance_rail();
        proof {
            self.joiner.lemma_view();
        }
        match self.joiner.next() {
            Some(point) => Some(Pixel(point, self.style.stroke_color.unwrap())),
            None => None,
        }
    }
}

} // verus!
