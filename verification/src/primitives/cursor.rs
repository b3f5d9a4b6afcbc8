//! The order in which the points of a thick line are drawn.
//!
//! A [`Cursor`] is a place in the drawing of a
//! [`Band`](crate::primitives::band::Band): the centre line comes first, then
//! the segments of the rails one after the other, each from its start to its
//! end.

use crate::primitives::band::Band;
use crate::primitives::line::{lemma_line_point_shifted, line_len, line_point};
use vstd::arithmetic::div_mod::lemma_fundamental_div_mod;
use vstd::prelude::*;

verus! {

/// A place in the drawing of a band: `offset` points of segment `segment`
/// have been drawn, and all of the segments before it.
pub struct Cursor {
    /// The band that is drawn.
    pub band: Band,
    /// The segment that is being drawn.
    pub segment: int,
    /// How many of its points have been drawn.
    pub offset: int,
}

impl Cursor {
    /// The place at which drawing of `band` starts.
    pub open spec fn first(band: Band) -> Cursor {
        Cursor { band, segment: 0, offset: 0 }
    }

    /// The segment and index of the point that is drawn next, if there is
    /// one: the next point of the current segment while it has one, else the
    /// first point of the segment after it, if that is drawn.
    pub open spec fn next_position(self) -> Option<(int, int)> {
        if self.offset < self.band.segment(self.segment).len() {
            Some((self.segment, self.offset))
        } else if self.band.has_segment(self.segment + 1) {
            Some((self.segment + 1, 0int))
        } else {
            None
        }
    }

    /// The point that is drawn next, if there is one.
    pub open spec fn produced(self) -> Option<(int, int)> {
        match self.next_position() {
            Some((n, k)) => Some(self.band.segment(n)[k]),
            None => None,
        }
    }

    /// The place just behind the point that is drawn next. Where nothing is
    /// left to draw, the place stays as it is.
    pub open spec fn advance(self) -> Cursor {
        match self.next_position() {
            Some((n, k)) => Cursor { band: self.band, segment: n, offset: k + 1 },
            None => self,
        }
    }

    /// The place after `i` more points.
    pub open spec fn skip(self, i: nat) -> Cursor
        decreases i,
    {
        if i == 0 {
            self
        } else {
            self.advance().skip((i - 1) as nat)
        }
    }

    /// The point that is drawn after `i` others, if there are that many.
    pub open spec fn nth(self, i: nat) -> Option<(int, int)> {
        self.skip(i).produced()
    }

    /// Whether drawing can come to this place: its segment is drawn, and its
    /// offset lies within the segment.
    pub open spec fn valid(self) -> bool {
        &&& 0 <= self.segment
        &&& self.band.has_segment(self.segment)
        &&& 0 <= self.offset <= self.band.segment(self.segment).len()
    }

    /// Drawing one point keeps the place valid, and keeps the band.
    pub proof fn lemma_advance_valid(self)
        requires
            self.valid(),
        ensures
            self.advance().valid(),
            self.advance().band == self.band,
    {
    }

    /// Drawing any number of points keeps the place valid, and keeps the
    /// band.
    pub proof fn lemma_skip_valid(self, i: nat)
        requires
            self.valid(),
        ensures
            self.skip(i).valid(),
            self.skip(i).band == self.band,
        decreases i,
    {
        if i > 0 {
            self.lemma_advance_valid();
            self.advance().lemma_skip_valid((i - 1) as nat);
        }
    }

    /// Drawing `i + 1` points is drawing `i` points and then one more.
    pub proof fn lemma_skip_one_more(self, i: nat)
        ensures
            self.skip(i + 1) == self.skip(i).advance(),
        decreases i,
    {
        assert(self.skip(i + 1) == self.advance().skip(i));
        if i > 0 {
            self.advance().lemma_skip_one_more((i - 1) as nat);
            assert(self.skip(i) == self.advance().skip((i - 1) as nat));
        } else {
            assert(self.advance().skip(0) == self.advance());
            assert(self.skip(0) == self);
        }
    }

    /// What is drawn next from a valid place is a point of the band.
    pub proof fn lemma_produced_is_drawn(self)
        requires
            self.valid(),
            self.produced() is Some,
        ensures
            self.band.draws(self.produced()->0),
    {
        let (n, k) = self.next_position()->0;
        assert(self.band.has_segment(n));
        assert(self.band.segment(n)[k] == self.produced()->0);
    }

    /// Where nothing is left to draw, nothing is drawn, however often it is
    /// tried.
    pub proof fn lemma_skip_of_end(self, i: nat)
        requires
            self.next_position() is None,
        ensures
            self.skip(i) == self,
        decreases i,
    {
        if i > 0 {
            self.lemma_skip_of_end((i - 1) as nat);
        }
    }

    /// Drawing `i` points and then `j` more is drawing `i + j` points.
    pub proof fn lemma_skip_skip(self, i: nat, j: nat)
        ensures
            self.skip(i).skip(j) == self.skip(i + j),
        decreases i,
    {
        if i > 0 {
            self.advance().lemma_skip_skip((i - 1) as nat, j);
            assert(self.skip(i + j) == self.advance().skip((i + j - 1) as nat));
        }
    }

    /// From a place in the drawing of a line without extent there is always
    /// a next point.
    pub proof fn lemma_point_always_produces(self)
        requires
            self.band.start == self.band.end,
            0 <= self.segment,
        ensures
            self.produced() is Some,
    {
        self.band.lemma_point_never_ends(self.segment + 1);
    }
}

impl Band {
    /// Every point that drawing produces, after any number of others, is a
    /// point that the band draws.
    pub proof fn lemma_nth_is_drawn(self, i: nat)
        requires
            Cursor::first(self).nth(i) is Some,
        ensures
            self.draws(Cursor::first(self).nth(i)->0),
    {
        Cursor::first(self).lemma_skip_valid(i);
        Cursor::first(self).skip(i).lemma_produced_is_drawn();
    }

    /// Drawing begins with the centre line, point for point.
    pub proof fn lemma_centre_line_comes_first(self, k: nat)
        requires
            k < line_len(self.start, self.end),
        ensures
            Cursor::first(self).nth(k) == Some(line_point(self.start, self.end, k as int)),
    {
        self.lemma_centre_line_is_drawn(k as int);
        let i = self.lemma_drawn_is_produced(0, k as int);
        assert(0 * line_len(self.start, self.end) + k == k);
    }

    /// Every point of a segment that is drawn is produced by drawing: point
    /// `k` of segment `n` comes after all points of the segments before it
    /// and `k` points of its own.
    pub proof fn lemma_drawn_is_produced(self, n: int, k: int) -> (i: nat)
        requires
            0 <= n,
            self.has_segment(n),
            0 <= k < self.segment(n).len(),
        ensures
            i == n * line_len(self.start, self.end) + k,
            Cursor::first(self).nth(i) == Some(self.segment(n)[k]),
            Cursor::first(self).skip(i).advance() == (Cursor {
                band: self,
                segment: n,
                offset: k + 1,
            }),
        decreases n, k,
    {
        let len = line_len(self.start, self.end) as int;
        let first = Cursor::first(self);
        lemma_line_point_shifted(self.start, self.end, self.rail_offset(n), k);
        if k > 0 {
            let i = self.lemma_drawn_is_produced(n, k - 1);
            first.lemma_skip_one_more(i);
            (i + 1) as nat
        } else if n > 0 {
            lemma_line_point_shifted(self.start, self.end, self.rail_offset(n - 1), k);
            self.lemma_segments_are_consecutive(n - 1, n);
            let i = self.lemma_drawn_is_produced(n - 1, len - 1);
            first.lemma_skip_one_more(i);
            assert((n - 1) * len + (len - 1) + 1 == n * len) by (nonlinear_arith);
            (i + 1) as nat
        } else {
            assert(0 * len + 0 == 0);
            0
        }
    }

    /// The number of the last segment that a line with extent draws, found
    /// by counting on from a segment that is drawn.
    pub proof fn lemma_last_segment(self, n: int) -> (last: int)
        requires
            self.major() > 0,
            self.has_segment(n),
        ensures
            n <= last,
            self.has_segment(last),
            !self.has_segment(last + 1),
        decreases self.thickness + 1 - n,
    {
        self.lemma_drawing_ends(n);
        if self.has_segment(n + 1) {
            self.lemma_drawing_ends(n + 1);
            self.lemma_last_segment(n + 1)
        } else {
            n
        }
    }

    /// The drawing of a line with extent is finite. With `last` for the
    /// number of its last segment, it produces `(last + 1) * line_len` points
    /// and then no more.
    pub proof fn lemma_drawing_is_finite(self, last: int, i: nat)
        requires
            self.major() > 0,
            self.has_segment(last),
            !self.has_segment(last + 1),
        ensures
            Cursor::first(self).nth(i) is Some <==> i < (last + 1) * line_len(self.start, self.end),
    {
        let len = line_len(self.start, self.end) as int;
        let first = Cursor::first(self);
        let count = (last + 1) * len;
        assert(count == last * len + len) by (nonlinear_arith)
            requires
                count == (last + 1) * len,
        ;
        lemma_line_point_shifted(self.start, self.end, self.rail_offset(last), 0);
        if i < count {
            let n = i as int / len;
            let k = i as int % len;
            lemma_fundamental_div_mod(i as int, len);
            assert(0 <= n <= last) by (nonlinear_arith)
                requires
                    i == len * n + k,
                    0 <= k < len,
                    0 <= i < last * len + len,
            ;
            self.lemma_segments_are_consecutive(n, last);
            lemma_line_point_shifted(self.start, self.end, self.rail_offset(n), 0);
            let at = self.lemma_drawn_is_produced(n, k);
            assert(n * len == len * n) by (nonlinear_arith);
        } else {
            let before = self.lemma_drawn_is_produced(last, len - 1);
            first.lemma_skip_one_more(before);
            let end = first.skip((before + 1) as nat);
            assert(end.next_position() is None);
            end.lemma_skip_of_end((i - count) as nat);
            first.lemma_skip_skip((before + 1) as nat, (i - count) as nat);
        }
    }
}

} // verus!
