//! Whether a set of regions covers the whole monitor.
//!
//! A point lies in a region when it is on or right of the region's left edge
//! and strictly left of its right edge, and likewise vertically. The regions
//! cover the monitor when every point of the unit square [0, 1) x [0, 1)
//! lies in one of them. It suffices to look at the points whose coordinates
//! are 0 or a region's right (bottom) edge: any other point shares its
//! covering region with the nearest such point to its upper left.

use vstd::prelude::*;

use crate::edid::{all_regions_fit, lemma_fitting_fractions, rat_zero, region_fits};
use crate::protocol::SplitRegion;
use crate::ratio::{rat_lt, rat_sum};

verus! {

/// `a <= b` for fractions with positive denominators.
pub open spec fn rat_le(a: (int, int), b: (int, int)) -> bool {
    !rat_lt(b, a)
}

/// One as a fraction.
pub open spec fn rat_one() -> (int, int) {
    (1, 1)
}

/// The right edge of a region.
pub open spec fn right_edge(r: SplitRegion) -> (int, int) {
    rat_sum(r.x@, r.width@)
}

/// The bottom edge of a region.
pub open spec fn bottom_edge(r: SplitRegion) -> (int, int) {
    rat_sum(r.y@, r.height@)
}

/// Every fraction of the region has a positive denominator.
pub open spec fn positive_denominators(r: SplitRegion) -> bool {
    r.x@.1 > 0 && r.y@.1 > 0 && r.width@.1 > 0 && r.height@.1 > 0
}

/// The point `(px, py)` lies in region `r`.
pub open spec fn contains_point(r: SplitRegion, px: (int, int), py: (int, int)) -> bool {
    &&& rat_le(r.x@, px)
    &&& rat_lt(px, right_edge(r))
    &&& rat_le(r.y@, py)
    &&& rat_lt(py, bottom_edge(r))
}

/// Some region of `rs` holds the point `(px, py)`.
pub open spec fn point_covered(rs: Seq<SplitRegion>, px: (int, int), py: (int, int)) -> bool {
    exists|i: int| 0 <= i < rs.len() && contains_point(#[trigger] rs[i], px, py)
}

/// `(px, py)` is a point of the monitor, the unit square [0, 1) x [0, 1).
pub open spec fn in_unit_square(px: (int, int), py: (int, int)) -> bool {
    &&& px.1 > 0
    &&& py.1 > 0
    &&& rat_le(rat_zero(), px)
    &&& rat_lt(px, rat_one())
    &&& rat_le(rat_zero(), py)
    &&& rat_lt(py, rat_one())
}

/// Every point of the monitor lies in some region of `rs`.
pub open spec fn regions_cover(rs: Seq<SplitRegion>) -> bool {
    forall|px: (int, int), py: (int, int)| in_unit_square(px, py) ==> #[trigger] point_covered(rs, px, py)
}

/// The horizontal coordinate of candidate `a`: the right edge of region `a`,
/// or 0 for `a == rs.len()`.
pub open spec fn x_candidate(rs: Seq<SplitRegion>, a: int) -> (int, int) {
    if 0 <= a < rs.len() {
        right_edge(rs[a])
    } else {
        rat_zero()
    }
}

/// The vertical coordinate of candidate `b`: the bottom edge of region `b`,
/// or 0 for `b == rs.len()`.
pub open spec fn y_candidate(rs: Seq<SplitRegion>, b: int) -> (int, int) {
    if 0 <= b < rs.len() {
        bottom_edge(rs[b])
    } else {
        rat_zero()
    }
}

/// The candidate point `(a, b)` lies in some region when it is on the monitor.
pub open spec fn candidate_covered(rs: Seq<SplitRegion>, a: int, b: int) -> bool {
    rat_lt(x_candidate(rs, a), rat_one()) && rat_lt(y_candidate(rs, b), rat_one()) ==> point_covered(
        rs,
        x_candidate(rs, a),
        y_candidate(rs, b),
    )
}

/// Every candidate point on the monitor lies in some region.
pub open spec fn candidates_covered(rs: Seq<SplitRegion>) -> bool {
    forall|a: int, b: int| 0 <= a <= rs.len() && 0 <= b <= rs.len() ==> #[trigger] candidate_covered(rs, a, b)
}

/// Every region has positive denominators and lies on the monitor.
pub open spec fn regions_well_placed(rs: Seq<SplitRegion>) -> bool {
    &&& forall|i: int| 0 <= i < rs.len() ==> positive_denominators(#[trigger] rs[i])
    &&& all_regions_fit(rs)
}

/// Whether `n1 / d1 < n2 / d2`, computed without multiplying.
pub fn fraction_less(n1: u128, d1: u128, n2: u128, d2: u128) -> (r: bool)
    requires
        d1 > 0,
        d2 > 0,
    ensures
        r == (n1 * d2 < n2 * d1),
    decreases d1 + d2,
{
    let q1 = n1 / d1;
    let q2 = n2 / d2;
    let r1 = n1 % d1;
    let r2 = n2 % d2;
    proof {
        vstd::arithmetic::div_mod::lemma_fundamental_div_mod(n1 as int, d1 as int);
        vstd::arithmetic::div_mod::lemma_fundamental_div_mod(n2 as int, d2 as int);
        assert(n1 * d2 - n2 * d1 == (q1 - q2) * d1 * d2 + r1 * d2 - r2 * d1) by (nonlinear_arith)
            requires
                n1 == d1 * q1 + r1,
                n2 == d2 * q2 + r2,
        ;
        assert(0 <= r1 * d2 < d1 * d2 && 0 <= r2 * d1 < d1 * d2) by (nonlinear_arith)
            requires
                0 <= r1 < d1,
                0 <= r2 < d2,
                d1 > 0,
                d2 > 0,
        ;
    }
    if q1 < q2 {
        proof {
            assert((q1 - q2) * d1 * d2 <= -(d1 * d2)) by (nonlinear_arith)
                requires
                    q1 - q2 <= -1,
                    d1 > 0,
                    d2 > 0,
            ;
        }
        return true;
    }
    if q1 > q2 {
        proof {
            assert((q1 - q2) * d1 * d2 >= d1 * d2) by (nonlinear_arith)
                requires
                    q1 - q2 >= 1,
                    d1 > 0,
                    d2 > 0,
            ;
        }
        return false;
    }
    assert((q1 - q2) * d1 * d2 == 0) by (nonlinear_arith)
        requires
            q1 == q2,
    ;
    if r2 == 0 {
        return false;
    }
    if r1 == 0 {
        proof {
            assert(r2 * d1 > 0) by (nonlinear_arith)
                requires
                    r2 > 0,
                    d1 > 0,
            ;
        }
        return true;
    }
    fraction_less(d2, r2, d1, r1)
}

/// `<=` is transitive on fractions with positive denominators.
pub proof fn lemma_le_trans(a: (int, int), b: (int, int), c: (int, int))
    requires
        a.1 > 0,
        b.1 > 0,
        c.1 > 0,
        rat_le(a, b),
        rat_le(b, c),
    ensures
        rat_le(a, c),
{
    assert(a.0 * c.1 * b.1 <= c.0 * a.1 * b.1) by (nonlinear_arith)
        requires
            a.0 * b.1 <= b.0 * a.1,
            b.0 * c.1 <= c.0 * b.1,
            a.1 > 0,
            c.1 > 0,
    ;
    assert(a.0 * c.1 <= c.0 * a.1) by (nonlinear_arith)
        requires
            a.0 * c.1 * b.1 <= c.0 * a.1 * b.1,
            b.1 > 0,
    ;
}

/// `a <= b < c` gives `a < c` for fractions with positive denominators.
pub proof fn lemma_le_lt_trans(a: (int, int), b: (int, int), c: (int, int))
    requires
        a.1 > 0,
        b.1 > 0,
        c.1 > 0,
        rat_le(a, b),
        rat_lt(b, c),
    ensures
        rat_lt(a, c),
{
    assert(a.0 * c.1 * b.1 < c.0 * a.1 * b.1) by (nonlinear_arith)
        requires
            a.0 * b.1 <= b.0 * a.1,
            b.0 * c.1 < c.0 * b.1,
            a.1 > 0,
            c.1 > 0,
    ;
    assert(a.0 * c.1 < c.0 * a.1) by (nonlinear_arith)
        requires
            a.0 * c.1 * b.1 < c.0 * a.1 * b.1,
            b.1 > 0,
    ;
}

/// The edges of a region with positive denominators have positive
/// denominators, and those of a region on the monitor are not negative.
pub proof fn lemma_edges(r: SplitRegion)
    requires
        positive_denominators(r),
    ensures
        right_edge(r).1 > 0,
        bottom_edge(r).1 > 0,
        region_fits(r) ==> rat_le(rat_zero(), right_edge(r)) && rat_le(rat_zero(), bottom_edge(r)),
{
    assert(r.x@.1 * r.width@.1 > 0) by (nonlinear_arith)
        requires
            r.x@.1 > 0,
            r.width@.1 > 0,
    ;
    assert(r.y@.1 * r.height@.1 > 0) by (nonlinear_arith)
        requires
            r.y@.1 > 0,
            r.height@.1 > 0,
    ;
    if region_fits(r) {
        assert(r.x@.0 * r.width@.1 + r.width@.0 * r.x@.1 >= 0) by (nonlinear_arith)
            requires
                r.x@.0 >= 0,
                r.width@.0 > 0,
                r.x@.1 > 0,
                r.width@.1 > 0,
        ;
        assert(r.y@.0 * r.height@.1 + r.height@.0 * r.y@.1 >= 0) by (nonlinear_arith)
            requires
                r.y@.0 >= 0,
                r.height@.0 > 0,
                r.y@.1 > 0,
                r.height@.1 > 0,
        ;
    }
}

/// Among the first `k` regions and the origin, the candidate with the
/// largest right edge at or left of `px`.
proof fn lemma_best_x(rs: Seq<SplitRegion>, k: int, px: (int, int)) -> (c: int)
    requires
        0 <= k <= rs.len(),
        regions_well_placed(rs),
        px.1 > 0,
        rat_le(rat_zero(), px),
    ensures
        0 <= c <= rs.len(),
        c < rs.len() ==> c < k,
        rat_le(x_candidate(rs, c), px),
        forall|j: int|
            0 <= j < k && rat_le(right_edge(#[trigger] rs[j]), px) ==> rat_le(
                right_edge(rs[j]),
                x_candidate(rs, c),
            ),
    decreases k,
{
    if k == 0 {
        rs.len() as int
    } else {
        let c0 = lemma_best_x(rs, k - 1, px);
        let e = right_edge(rs[k - 1]);
        lemma_edges(rs[k - 1]);
        if c0 < rs.len() {
            lemma_edges(rs[c0]);
        }
        if rat_le(e, px) && rat_le(x_candidate(rs, c0), e) {
            assert forall|j: int|
                0 <= j < k && rat_le(right_edge(#[trigger] rs[j]), px) implies rat_le(
                right_edge(rs[j]),
                x_candidate(rs, k - 1),
            ) by {
                if j < k - 1 {
                    lemma_edges(rs[j]);
                    lemma_le_trans(right_edge(rs[j]), x_candidate(rs, c0), e);
                }
            }
            k - 1
        } else {
            c0
        }
    }
}

/// Among the first `k` regions and the origin, the candidate with the
/// largest bottom edge at or above `py`.
proof fn lemma_best_y(rs: Seq<SplitRegion>, k: int, py: (int, int)) -> (c: int)
    requires
        0 <= k <= rs.len(),
        regions_well_placed(rs),
        py.1 > 0,
        rat_le(rat_zero(), py),
    ensures
        0 <= c <= rs.len(),
        c < rs.len() ==> c < k,
        rat_le(y_candidate(rs, c), py),
        forall|j: int|
            0 <= j < k && rat_le(bottom_edge(#[trigger] rs[j]), py) ==> rat_le(
                bottom_edge(rs[j]),
                y_candidate(rs, c),
            ),
    decreases k,
{
    if k == 0 {
        rs.len() as int
    } else {
        let c0 = lemma_best_y(rs, k - 1, py);
        let e = bottom_edge(rs[k - 1]);
        lemma_edges(rs[k - 1]);
        if c0 < rs.len() {
            lemma_edges(rs[c0]);
        }
        if rat_le(e, py) && rat_le(y_candidate(rs, c0), e) {
            assert forall|j: int|
                0 <= j < k && rat_le(bottom_edge(#[trigger] rs[j]), py) implies rat_le(
                bottom_edge(rs[j]),
                y_candidate(rs, k - 1),
            ) by {
                if j < k - 1 {
                    lemma_edges(rs[j]);
                    lemma_le_trans(bottom_edge(rs[j]), y_candidate(rs, c0), e);
                }
            }
            k - 1
        } else {
            c0
        }
    }
}

/// Regions on the monitor cover it exactly when every candidate point on the
/// monitor lies in some region.
pub proof fn lemma_candidates_decide(rs: Seq<SplitRegion>)
    requires
        regions_well_placed(rs),
    ensures
        regions_cover(rs) <==> candidates_covered(rs),
{
    if candidates_covered(rs) {
        assert forall|px: (int, int), py: (int, int)| in_unit_square(px, py) implies #[trigger] point_covered(
            rs,
            px,
            py,
        ) by {
            let a = lemma_best_x(rs, rs.len() as int, px);
            let b = lemma_best_y(rs, rs.len() as int, py);
            let ex = x_candidate(rs, a);
            let ey = y_candidate(rs, b);
            if a < rs.len() {
                lemma_edges(rs[a]);
            }
            if b < rs.len() {
                lemma_edges(rs[b]);
            }
            lemma_le_lt_trans(ex, px, rat_one());
            lemma_le_lt_trans(ey, py, rat_one());
            assert(candidate_covered(rs, a, b));
            let i = choose|i: int| 0 <= i < rs.len() && contains_point(#[trigger] rs[i], ex, ey);
            let r = rs[i];
            lemma_edges(r);
            lemma_le_trans(r.x@, ex, px);
            lemma_le_trans(r.y@, ey, py);
            if !rat_lt(px, right_edge(r)) {
                assert(rat_le(right_edge(rs[i]), px));
            }
            if !rat_lt(py, bottom_edge(r)) {
                assert(rat_le(bottom_edge(rs[i]), py));
            }
            assert(contains_point(rs[i], px, py));
        }
    }
    if regions_cover(rs) {
        assert forall|a: int, b: int| 0 <= a <= rs.len() && 0 <= b <= rs.len() implies #[trigger] candidate_covered(
            rs,
            a,
            b,
        ) by {
            if a < rs.len() {
                lemma_edges(rs[a]);
            }
            if b < rs.len() {
                lemma_edges(rs[b]);
            }
            if rat_lt(x_candidate(rs, a), rat_one()) && rat_lt(y_candidate(rs, b), rat_one()) {
                assert(in_unit_square(x_candidate(rs, a), y_candidate(rs, b)));
                assert(point_covered(rs, x_candidate(rs, a), y_candidate(rs, b)));
            }
        }
    }
}

/// The pair of a fraction as a mathematical fraction.
pub open spec fn as_fraction(p: (u128, u128)) -> (int, int) {
    (p.0 as int, p.1 as int)
}

/// The numerator and denominator of `q`, for a fraction between 0 and 2.
fn unsigned_parts(q: &crate::ratio::Ratio) -> (p: (u128, u128))
    requires
        0 <= q@.0 <= 2 * q@.1,
    ensures
        as_fraction(p) == q@,
        p.0 <= 0x2_0000_0000,
        0 < p.1 <= 0xffff_ffff,
{
    let d = q.denominator();
    (q.numerator() as u128, d as u128)
}

/// The sum `q + w` of two fractions between 0 and 2.
fn sum_parts(q: (u128, u128), w: (u128, u128)) -> (p: (u128, u128))
    requires
        q.0 <= 0x2_0000_0000,
        0 < q.1 <= 0xffff_ffff,
        w.0 <= 0x2_0000_0000,
        0 < w.1 <= 0xffff_ffff,
    ensures
        as_fraction(p) == rat_sum(as_fraction(q), as_fraction(w)),
        p.1 > 0,
{
    proof {
        assert(q.0 * w.1 <= 0x2_0000_0000 * 0xffff_ffff) by (nonlinear_arith)
            requires
                q.0 <= 0x2_0000_0000,
                w.1 <= 0xffff_ffff,
        ;
        assert(w.0 * q.1 <= 0x2_0000_0000 * 0xffff_ffff) by (nonlinear_arith)
            requires
                w.0 <= 0x2_0000_0000,
                q.1 <= 0xffff_ffff,
        ;
        assert(0 < q.1 * w.1 <= 0xffff_ffff * 0xffff_ffff) by (nonlinear_arith)
            requires
                0 < q.1 <= 0xffff_ffff,
                0 < w.1 <= 0xffff_ffff,
        ;
    }
    (q.0 * w.1 + w.0 * q.1, q.1 * w.1)
}

/// Whether region `r`, which lies on the monitor, holds the point `(px, py)`.
fn region_contains(r: &SplitRegion, px: (u128, u128), py: (u128, u128)) -> (c: bool)
    requires
        positive_denominators(*r),
        region_fits(*r),
        px.1 > 0,
        py.1 > 0,
    ensures
        c == contains_point(*r, as_fraction(px), as_fraction(py)),
{
    proof {
        lemma_fitting_fractions(r.x@, r.width@);
        lemma_fitting_fractions(r.y@, r.height@);
    }
    let x = unsigned_parts(&r.x);
    let w = unsigned_parts(&r.width);
    let y = unsigned_parts(&r.y);
    let h = unsigned_parts(&r.height);
    let right = sum_parts(x, w);
    let bottom = sum_parts(y, h);
    !fraction_less(px.0, px.1, x.0, x.1) && fraction_less(px.0, px.1, right.0, right.1)
        && !fraction_less(py.0, py.1, y.0, y.1) && fraction_less(py.0, py.1, bottom.0, bottom.1)
}

/// The right edge of region `r`, which lies on the monitor.
fn right_edge_parts(r: &SplitRegion) -> (p: (u128, u128))
    requires
        positive_denominators(*r),
        region_fits(*r),
    ensures
        as_fraction(p) == right_edge(*r),
        p.1 > 0,
{
    proof {
        lemma_fitting_fractions(r.x@, r.width@);
    }
    sum_parts(unsigned_parts(&r.x), unsigned_parts(&r.width))
}

/// The bottom edge of region `r`, which lies on the monitor.
fn bottom_edge_parts(r: &SplitRegion) -> (p: (u128, u128))
    requires
        positive_denominators(*r),
        region_fits(*r),
    ensures
        as_fraction(p) == bottom_edge(*r),
        p.1 > 0,
{
    proof {
        lemma_fitting_fractions(r.y@, r.height@);
    }
    sum_parts(unsigned_parts(&r.y), unsigned_parts(&r.height))
}

/// Whether some region holds the point `(px, py)`.
fn point_in_some_region(regions: &[SplitRegion], px: (u128, u128), py: (u128, u128)) -> (c: bool)
    requires
        regions_well_placed(regions@),
        px.1 > 0,
        py.1 > 0,
    ensures
        c == point_covered(regions@, as_fraction(px), as_fraction(py)),
{
    let mut i: usize = 0;
    while i < regions.len()
        invariant
            i <= regions@.len(),
            regions_well_placed(regions@),
            px.1 > 0,
            py.1 > 0,
            forall|k: int| 0 <= k < i ==> !contains_point(#[trigger] regions@[k], as_fraction(px), as_fraction(py)),
        decreases regions@.len() - i,
    {
        if region_contains(&regions[i], px, py) {
            return true;
        }
        i = i + 1;
    }
    false
}

/// Whether every candidate point in the column at `ex` that lies on the
/// monitor lies in some region.
fn column_covered(regions: &[SplitRegion], ex: (u128, u128)) -> (c: bool)
    requires
        regions_well_placed(regions@),
        ex.1 > 0,
    ensures
        c == forall|b: int|
            0 <= b <= regions@.len() ==> (rat_lt(as_fraction(ex), rat_one()) && rat_lt(
                #[trigger] y_candidate(regions@, b),
                rat_one(),
            ) ==> point_covered(regions@, as_fraction(ex), y_candidate(regions@, b))),
{
    let ghost rs = regions@;
    if ex.0 >= ex.1 {
        return true;
    }
    let mut b: usize = 0;
    while b < regions.len()
        invariant
            b <= rs.len(),
            rs == regions@,
            regions_well_placed(rs),
            ex.1 > 0,
            ex.0 < ex.1,
            forall|k: int|
                0 <= k < b ==> (rat_lt(#[trigger] y_candidate(rs, k), rat_one()) ==> point_covered(
                    rs,
                    as_fraction(ex),
                    y_candidate(rs, k),
                )),
        decreases rs.len() - b,
    {
        let ey = bottom_edge_parts(&regions[b]);
        if ey.0 < ey.1 && !point_in_some_region(regions, ex, ey) {
            assert(!(rat_lt(y_candidate(rs, b as int), rat_one()) ==> point_covered(
                rs,
                as_fraction(ex),
                y_candidate(rs, b as int),
            )));
            return false;
        }
        b = b + 1;
    }
    let zero: (u128, u128) = (0, 1);
    assert(y_candidate(rs, rs.len() as int) == as_fraction(zero));
    point_in_some_region(regions, ex, zero)
}

/// Whether regions that lie on the monitor cover it.
pub fn covers_monitor(regions: &[SplitRegion]) -> (c: bool)
    requires
        regions_well_placed(regions@),
    ensures
        c == regions_cover(regions@),
{
    let ghost rs = regions@;
    proof {
        lemma_candidates_decide(rs);
    }
    let mut a: usize = 0;
    while a < regions.len()
        invariant
            a <= rs.len(),
            rs == regions@,
            regions_well_placed(rs),
            forall|k: int, b: int|
                0 <= k < a && 0 <= b <= rs.len() ==> #[trigger] candidate_covered(rs, k, b),
        decreases rs.len() - a,
    {
        let ex = right_edge_parts(&regions[a]);
        if !column_covered(regions, ex) {
            assert(!candidates_covered(rs)) by {
                let b = choose|b: int|
                    0 <= b <= rs.len() && !(rat_lt(as_fraction(ex), rat_one()) && rat_lt(
                        #[trigger] y_candidate(rs, b),
                        rat_one(),
                    ) ==> point_covered(rs, as_fraction(ex), y_candidate(rs, b)));
                assert(!candidate_covered(rs, a as int, b));
            }
            return false;
        }
        assert forall|b: int| 0 <= b <= rs.len() implies #[trigger] candidate_covered(rs, a as int, b) by {
            assert(x_candidate(rs, a as int) == as_fraction(ex));
            let _ = y_candidate(rs, b);
        }
        a = a + 1;
    }
    let zero: (u128, u128) = (0, 1);
    let last = column_covered(regions, zero);
    assert(x_candidate(rs, rs.len() as int) == as_fraction(zero));
    if !last {
        assert(!candidates_covered(rs)) by {
            let b = choose|b: int|
                0 <= b <= rs.len() && !(rat_lt(as_fraction(zero), rat_one()) && rat_lt(
                    #[trigger] y_candidate(rs, b),
                    rat_one(),
                ) ==> point_covered(rs, as_fraction(zero), y_candidate(rs, b)));
            assert(!candidate_covered(rs, rs.len() as int, b));
        }
        return false;
    }
    assert forall|a: int, b: int| 0 <= a <= rs.len() && 0 <= b <= rs.len() implies #[trigger] candidate_covered(
        rs,
        a,
        b,
    ) by {
        if a == rs.len() {
            let _ = y_candidate(rs, b);
        }
    }
    true
}

} // verus!
