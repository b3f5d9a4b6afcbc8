//! What becomes of a thick line when its ends are swapped.
//!
//! Swapping the ends turns the direction of the line, and with it the sides
//! of its rails and the way in which half-way cases are rounded. Where
//! neither makes a difference, the line keeps its set of points.

use crate::primitives::band::{left_major_steps, right_major_steps, Band};
use crate::primitives::line::{is_tie, lemma_line_point_reversed, lemma_odd_major_has_no_tie};
use vstd::arithmetic::div_mod::{lemma_fundamental_div_mod, lemma_fundamental_div_mod_converse};
use vstd::prelude::*;

verus! {

/// Where the ideal rail does not lie half-way between two pixels after `j`
/// steps, the left and the right rail have taken equally many steps along
/// the major axis.
pub proof fn lemma_no_tie_same_steps(major: int, minor: int, j: int)
    requires
        0 < major,
        !is_tie(major, minor, j),
    ensures
        left_major_steps(major, minor, j) == right_major_steps(major, minor, j),
{
    reveal(left_major_steps);
    reveal(right_major_steps);
    let x = 2 * j * minor + major;
    let q = x / (2 * major);
    let r = x % (2 * major);
    lemma_fundamental_div_mod(x, 2 * major);
    assert(x - 1 == q * (2 * major) + (r - 1)) by (nonlinear_arith)
        requires
            x == (2 * major) * q + r,
    ;
    lemma_fundamental_div_mod_converse(x - 1, 2 * major, q, r - 1);
}

/// A rail of a line along an axis never steps along that axis.
pub proof fn lemma_straight_rails(major: int, j: int)
    requires
        0 < major,
    ensures
        left_major_steps(major, 0, j) == 0,
        right_major_steps(major, 0, j) == 0,
{
    reveal(left_major_steps);
    reveal(right_major_steps);
    assert(2 * j * 0 == 0) by (nonlinear_arith);
    lemma_fundamental_div_mod_converse(major - 1, 2 * major, 0, major - 1);
    lemma_fundamental_div_mod_converse(major, 2 * major, 0, major);
}

impl Band {
    /// The band with the same thickness around the centre line in the
    /// opposite direction.
    pub open spec fn reversed(self) -> Band {
        Band { start: self.end, end: self.start, thickness: self.thickness }
    }

    /// Whether the ideal centre line and the ideal rails never lie half-way
    /// between two pixels. This is so, for one, where the major extent is
    /// odd.
    pub open spec fn has_no_ties(self) -> bool {
        forall|j: int| 0 <= j ==> !#[trigger] is_tie(self.major(), self.minor(), j)
    }

    /// There are no ties where the major extent is odd, where the line runs
    /// along an axis, and where it runs along a diagonal.
    pub proof fn lemma_no_ties(self)
        requires
            self.major() % 2 == 1 || self.minor() == 0 || self.minor() == self.major(),
        ensures
            self.has_no_ties(),
    {
        let major = self.major();
        let minor = self.minor();
        assert forall|j: int| 0 <= j implies !#[trigger] is_tie(major, minor, j) by {
            if major > 0 {
                if major % 2 == 1 {
                    lemma_odd_major_has_no_tie(major, minor, j);
                } else if minor == 0 {
                    assert(2 * j * minor == 0) by (nonlinear_arith)
                        requires
                            minor == 0,
                    ;
                    lemma_fundamental_div_mod_converse(major, 2 * major, 0, major);
                } else {
                    assert(2 * j * minor + major == j * (2 * major) + major) by (nonlinear_arith)
                        requires
                            minor == major,
                    ;
                    lemma_fundamental_div_mod_converse(
                        2 * j * minor + major,
                        2 * major,
                        j,
                        major,
                    );
                }
            }
        }
    }

    /// Whether the band draws as many segments to the right of its centre
    /// line as to the left: every segment of the left rail is followed by a
    /// segment of the right rail.
    pub open spec fn has_rails_in_pairs(self) -> bool {
        forall|n: int| n % 2 == 1 && #[trigger] self.has_segment(n) ==> self.has_segment(n + 1)
    }

    /// The segment of the reversed band that lies where segment `n` of this
    /// band lies. For a line along an axis a delta of zero counts as positive
    /// in both directions, and the rails stay on their sides; for any other
    /// line the left rail of one is the right rail of the other.
    pub open spec fn mirrored(self, n: int) -> int {
        if self.minor() == 0 || n <= 0 {
            n
        } else if n % 2 == 1 {
            n + 1
        } else {
            n - 1
        }
    }

    /// Reversing a band changes neither its thickness counter nor which
    /// segments it draws.
    pub proof fn lemma_reversed_thickness(self, n: int)
        ensures
            self.reversed().major() == self.major(),
            self.reversed().minor() == self.minor(),
            self.reversed().thickness_used(n) == self.thickness_used(n),
            self.reversed().has_segment(n) == self.has_segment(n),
            self.reversed().reversed() == self,
    {
        reveal(Band::thickness_used);
    }

    /// Without ties, a segment of the reversed band passes through the same
    /// points as the segment of this band that it mirrors, in reverse order.
    pub proof fn lemma_reversed_segment(self, n: int, k: int)
        requires
            self.has_no_ties(),
            0 <= n,
            0 <= k < self.segment(n).len(),
        ensures
            self.reversed().segment(self.mirrored(n)).len() == self.segment(n).len(),
            self.reversed().segment(self.mirrored(n))[self.segment(n).len() - 1 - k]
                == self.segment(n)[k],
    {
        let major = self.major();
        let minor = self.minor();
        let rev = self.reversed();
        let m = self.mirrored(n);
        let a = self.segment_start(n);
        let b = self.segment_end(n);
        assert(rev.rail_offset(m) == self.rail_offset(n)) by {
            reveal(Band::left_offset);
            reveal(Band::right_offset);
            if major > 0 && n > 0 {
                let j = (n + 1) / 2;
                assert(!is_tie(major, minor, j));
                assert(!is_tie(major, minor, n / 2));
                lemma_no_tie_same_steps(major, minor, j);
                lemma_no_tie_same_steps(major, minor, n / 2);
                if minor == 0 {
                    lemma_straight_rails(major, j);
                    lemma_straight_rails(major, n / 2);
                }
            }
        }
        assert(rev.segment_start(m) == b);
        assert(rev.segment_end(m) == a);
        assert(!is_tie(major, minor, k));
        lemma_line_point_reversed(a, b, k);
    }

    /// Without ties, and with rails drawn in pairs unless the line runs along
    /// an axis, what a band draws the reversed band draws too.
    proof fn lemma_reversed_draws(self, p: (int, int))
        requires
            self.has_no_ties(),
            self.minor() == 0 || self.has_rails_in_pairs(),
            self.draws(p),
        ensures
            self.reversed().draws(p),
    {
        let (n, k) = choose|n: int, k: int|
            self.has_segment(n) && 0 <= k < self.segment(n).len() && #[trigger] self.segment(
                n,
            )[k] == p;
        let m = self.mirrored(n);
        let rev = self.reversed();
        self.lemma_reversed_segment(n, k);
        self.lemma_reversed_thickness(m);
        if m < n {
            self.lemma_segments_are_consecutive(m, n);
        }
        let i = self.segment(n).len() - 1 - k;
        assert(rev.has_segment(m));
        assert(rev.segment(m)[i] == p);
    }

    /// Swapping the ends of a line leaves the set of its points as it is, if
    /// the ideal line and rails never lie half-way between two pixels, and if
    /// the band draws as many segments on one side as on the other or the
    /// line runs along an axis.
    pub proof fn lemma_reversed_draws_the_same(self, p: (int, int))
        requires
            self.has_no_ties(),
            self.minor() == 0 || self.has_rails_in_pairs(),
        ensures
            self.draws(p) <==> self.reversed().draws(p),
    {
        let rev = self.reversed();
        if self.draws(p) {
            self.lemma_reversed_draws(p);
        }
        if rev.draws(p) {
            self.lemma_reversed_thickness(0);
            assert(rev.has_no_ties());
            assert(rev.minor() == 0 || rev.has_rails_in_pairs()) by {
                if rev.minor() != 0 {
                    assert forall|n: int| n % 2 == 1 && #[trigger] rev.has_segment(n) implies
                        rev.has_segment(n + 1) by {
                        self.lemma_reversed_thickness(n);
                        self.lemma_reversed_thickness(n + 1);
                    }
                }
            }
            rev.lemma_reversed_draws(p);
        }
    }
}

} // verus!
