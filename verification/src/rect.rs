//! Axis-aligned rectangles in fixed-point screen coordinates, `y` growing
//! downwards.

use vstd::prelude::*;
use crate::kmath::{
    half, half_spec, lemma_quotient_between, ratio, ratio_spec, scale, scale_spec, Point, Scalar,
    UNIT,
};

verus! {

/// The largest width or height for which every operation of [`Rect`] stays
/// within the machine range.
pub const EXTENT_MAX: i128 = 0x100_0000_0000;

/// The largest distance of a corner from the origin for which every
/// operation of [`Rect`] stays within the machine range.
pub const POSITION_MAX: i128 = 0x1_0000_0000_0000_0000_0000_0000;

/// Whether `a` is representable as a scalar.
pub open spec fn fits(a: int) -> bool {
    i128::MIN <= a <= i128::MAX
}

/// Whether `a` can be the coordinate of a corner in every operation.
pub open spec fn moderate(a: int) -> bool {
    -POSITION_MAX <= a <= POSITION_MAX
}

/// A rectangle: its top left corner `(x, y)`, its width and its height.
#[derive(Clone, Copy, Debug, PartialEq, Eq, Structural)]
pub struct Rect {
    pub x: Scalar,
    pub y: Scalar,
    pub w: Scalar,
    pub h: Scalar,
}

impl Rect {
    /// The rectangle with corner `(x, y)`, width `w` and height `h`, where all
    /// four numbers are representable.
    pub open spec fn of(x: int, y: int, w: int, h: int) -> Rect {
        Rect { x: x as i128, y: y as i128, w: w as i128, h: h as i128 }
    }

    /// The part of `self` that starts at the fractions `(x, y)` of its extent
    /// and takes up the fractions `(w, h)` of it.
    pub open spec fn child_spec(self, x: Scalar, y: Scalar, w: Scalar, h: Scalar) -> Rect {
        Rect::of(
            self.x + scale_spec(x as int, self.w as int),
            self.y + scale_spec(y as int, self.h as int),
            scale_spec(self.w as int, w as int),
            scale_spec(self.h as int, h as int),
        )
    }

    /// Whether `child_spec` can be computed within the machine range.
    pub open spec fn child_fits(self, x: Scalar, y: Scalar, w: Scalar, h: Scalar) -> bool {
        &&& fits(x * self.w)
        &&& fits(y * self.h)
        &&& fits(self.w * w)
        &&& fits(self.h * h)
        &&& fits(self.x + scale_spec(x as int, self.w as int))
        &&& fits(self.y + scale_spec(y as int, self.h as int))
    }

    /// Inclusive on all four sides.
    pub open spec fn contains_spec(self, p: Point) -> bool {
        &&& self.x <= p.x <= self.x + self.w
        &&& self.y <= p.y <= self.y + self.h
    }

    /// `self` grown by `d` on every side; shrunk where `d` is negative.
    pub open spec fn dilate_spec(self, d: Scalar) -> Rect {
        Rect::of(self.x - d, self.y - d, self.w + 2 * d, self.h + 2 * d)
    }

    /// The width of `self` divided by its height.
    pub open spec fn aspect_spec(self) -> int {
        ratio_spec(self.w as int, self.h as int)
    }

    /// The largest centred part of `self` whose width divided by its height
    /// is `a`: as wide as `self` where `a` exceeds the aspect ratio of `self`,
    /// as high as `self` otherwise.
    pub open spec fn child_with_aspect_ratio_spec(self, a: Scalar) -> Rect {
        let own = self.aspect_spec();
        if a > own {
            let height = ratio_spec(own, a as int);
            self.child_spec(0, half_spec(UNIT - height) as i128, UNIT, height as i128)
        } else {
            let width = ratio_spec(a as int, own);
            self.child_spec(half_spec(UNIT - width) as i128, 0, width as i128, UNIT)
        }
    }

    /// Whether `inner` has no negative extent and lies within `self`.
    pub open spec fn encloses(self, inner: Rect) -> bool {
        &&& self.x <= inner.x
        &&& self.y <= inner.y
        &&& 0 <= inner.w
        &&& 0 <= inner.h
        &&& inner.x + inner.w <= self.x + self.w
        &&& inner.y + inner.h <= self.y + self.h
    }

    /// The rectangle with top left corner `(x, y)`, width `w` and height `h`.
    pub fn new(x: Scalar, y: Scalar, w: Scalar, h: Scalar) -> (r: Rect)
        ensures
            r == (Rect { x, y, w, h }),
    {
        Rect { x, y, w, h }
    }

    /// The part of `self` that starts at the fractions `(x, y)` of its extent
    /// and takes up the fractions `(w, h)` of it.
    pub fn child(&self, x: Scalar, y: Scalar, w: Scalar, h: Scalar) -> (r: Rect)
        requires
            self.child_fits(x, y, w, h),
        ensures
            r == self.child_spec(x, y, w, h),
            r.x == self.x + scale_spec(x as int, self.w as int),
            r.y == self.y + scale_spec(y as int, self.h as int),
            r.w == scale_spec(self.w as int, w as int),
            r.h == scale_spec(self.h as int, h as int),
    {
        Rect::new(
            self.x + scale(x, self.w),
            self.y + scale(y, self.h),
            scale(self.w, w),
            scale(self.h, h),
        )
    }

    /// Whether `p` lies in `self` or on its rim. No rectangle of negative
    /// width or height contains a point.
    pub fn contains(&self, p: Point) -> (b: bool)
        ensures
            b == self.contains_spec(p),
    {
        let within_x = match self.x.checked_add(self.w) {
            Some(right) => p.x <= right,
            None => self.w > 0,
        };
        let within_y = match self.y.checked_add(self.h) {
            Some(bot) => p.y <= bot,
            None => self.h > 0,
        };
        p.x >= self.x && within_x && p.y >= self.y && within_y
    }

    /// Where `p` lies within `self`, as fractions of its width and height.
    pub fn relative_pos(&self, p: Point) -> (r: Option<Point>)
        requires
            self.contains_spec(p) ==> self.w > 0 && self.h > 0 && fits(self.w * UNIT) && fits(
                self.h * UNIT,
            ),
        ensures
            r is Some <==> self.contains_spec(p),
            r matches Some(q) ==> q.x == ratio_spec(p.x - self.x, self.w as int) && q.y
                == ratio_spec(p.y - self.y, self.h as int),
    {
        if self.contains(p) {
            let dx = p.x - self.x;
            let dy = p.y - self.y;
            assert(0 <= dx * UNIT <= self.w * UNIT) by (nonlinear_arith)
                requires
                    0 <= dx <= self.w,
            ;
            assert(0 <= dy * UNIT <= self.h * UNIT) by (nonlinear_arith)
                requires
                    0 <= dy <= self.h,
            ;
            Some(Point::new(ratio(dx, self.w), ratio(dy, self.h)))
        } else {
            None
        }
    }

    /// The middle of `self`.
    pub fn centroid(&self) -> (p: Point)
        requires
            fits(self.x + half_spec(self.w as int)),
            fits(self.y + half_spec(self.h as int)),
        ensures
            p.x == self.x + half_spec(self.w as int),
            p.y == self.y + half_spec(self.h as int),
    {
        Point::new(self.x + half(self.w), self.y + half(self.h))
    }

    /// The rectangle of width `w` and height `h` around the centre `(x, y)`.
    pub fn new_centered(x: Scalar, y: Scalar, w: Scalar, h: Scalar) -> (r: Rect)
        requires
            fits(x - half_spec(w as int)),
            fits(y - half_spec(h as int)),
        ensures
            r.x == x - half_spec(w as int),
            r.y == y - half_spec(h as int),
            r.w == w,
            r.h == h,
    {
        Rect::new(x - half(w), y - half(h), w, h)
    }

    /// The largest centred part of `self` whose width divided by its height
    /// is `a`.
    pub fn child_with_aspect_ratio(&self, a: Scalar) -> (r: Rect)
        requires
            can_fit(*self, a),
        ensures
            r == self.child_with_aspect_ratio_spec(a),
            a >= 0 ==> self.encloses(r),
            a > self.aspect_spec() ==> {
                &&& r.x == self.x
                &&& r.w == self.w
                &&& r.h == scale_spec(self.h as int, ratio_spec(self.aspect_spec(), a as int))
                &&& r.y == self.y + scale_spec(
                    half_spec(UNIT - ratio_spec(self.aspect_spec(), a as int)),
                    self.h as int,
                )
            },
            a <= self.aspect_spec() ==> {
                &&& r.y == self.y
                &&& r.h == self.h
                &&& r.w == scale_spec(self.w as int, ratio_spec(a as int, self.aspect_spec()))
                &&& r.x == self.x + scale_spec(
                    half_spec(UNIT - ratio_spec(a as int, self.aspect_spec())),
                    self.w as int,
                )
            },
    {
        proof {
            lemma_aspect_bounds(self.w as int, self.h as int);
        }
        let own = ratio(self.w, self.h);
        if a > own {
            proof {
                lemma_ratio_below_unit(own as int, a as int);
            }
            let height = ratio(own, a);
            let inset = half(UNIT - height);
            proof {
                lemma_fraction_of(inset as int, self.h as int);
                lemma_fraction_of(height as int, self.h as int);
                lemma_fraction_of(UNIT as int, self.w as int);
                lemma_fitted_part_enclosed(*self, a);
            }
            self.child(0, inset, UNIT, height)
        } else {
            proof {
                lemma_ratio_at_most_unit(a as int, own as int);
            }
            let width = ratio(a, own);
            let inset = half(UNIT - width);
            proof {
                lemma_fraction_of(inset as int, self.w as int);
                lemma_fraction_of(width as int, self.w as int);
                lemma_fraction_of(UNIT as int, self.h as int);
                if a >= 0 {
                    lemma_fitted_part_enclosed(*self, a);
                }
            }
            self.child(inset, 0, width, UNIT)
        }
    }

    /// `self` moved by `v`.
    pub fn translate(&self, v: Point) -> (r: Rect)
        requires
            fits(self.x + v.x),
            fits(self.y + v.y),
        ensures
            r.x == self.x + v.x,
            r.y == self.y + v.y,
            r.w == self.w,
            r.h == self.h,
    {
        Rect::new(self.x + v.x, self.y + v.y, self.w, self.h)
    }

    /// `self` grown by `d` on every side; shrunk where `d` is negative.
    pub fn dilate(&self, d: Scalar) -> (r: Rect)
        requires
            fits(self.x - d),
            fits(self.y - d),
            fits(2 * d),
            fits(self.w + 2 * d),
            fits(self.h + 2 * d),
        ensures
            r == self.dilate_spec(d),
            r.x == self.x - d,
            r.y == self.y - d,
            r.w == self.w + 2 * d,
            r.h == self.h + 2 * d,
    {
        Rect::new(self.x - d, self.y - d, self.w + 2 * d, self.h + 2 * d)
    }

    /// The `x` of the left side.
    pub fn left(self) -> (s: Scalar)
        ensures
            s == self.x,
    {
        self.x
    }

    /// The `x` of the right side.
    pub fn right(self) -> (s: Scalar)
        requires
            fits(self.x + self.w),
        ensures
            s == self.x + self.w,
    {
        self.x + self.w
    }

    /// The `y` of the upper side.
    pub fn top(self) -> (s: Scalar)
        ensures
            s == self.y,
    {
        self.y
    }

    /// The `y` of the lower side.
    pub fn bot(self) -> (s: Scalar)
        requires
            fits(self.y + self.h),
        ensures
            s == self.y + self.h,
    {
        self.y + self.h
    }
}

/// Whether a part of `self` can be fitted to the aspect ratio `a` within
/// the machine range.
pub open spec fn can_fit(r: Rect, a: Scalar) -> bool {
    &&& moderate(r.x as int)
    &&& moderate(r.y as int)
    &&& 0 < r.w <= EXTENT_MAX
    &&& 0 < r.h <= EXTENT_MAX
    &&& r.aspect_spec() > 0
    &&& -EXTENT_MAX <= a
}

/// The part of a rectangle that is fitted to an aspect ratio lies within
/// that rectangle.
pub proof fn lemma_fitted_part_enclosed(r: Rect, a: Scalar)
    requires
        can_fit(r, a),
        a >= 0,
    ensures
        r.encloses(r.child_with_aspect_ratio_spec(a)),
{
    lemma_aspect_bounds(r.w as int, r.h as int);
    let own = r.aspect_spec();
    if a > own {
        lemma_ratio_below_unit(own, a as int);
        let height = ratio_spec(own, a as int);
        let inset = half_spec(UNIT - height);
        lemma_fraction_of(inset, r.h as int);
        lemma_fraction_of(height, r.h as int);
        lemma_fraction_of(UNIT as int, r.w as int);
        lemma_child_enclosed(r, 0, inset as i128, UNIT, height as i128);
    } else {
        lemma_ratio_at_most_unit(a as int, own);
        vstd::arithmetic::div_mod::lemma_div_pos_is_pos(a * UNIT, own);
        let width = ratio_spec(a as int, own);
        let inset = half_spec(UNIT - width);
        lemma_fraction_of(inset, r.w as int);
        lemma_fraction_of(width, r.w as int);
        lemma_fraction_of(UNIT as int, r.h as int);
        lemma_child_enclosed(r, inset as i128, 0, width as i128, UNIT);
    }
}

/// A part given by fractions that lie within the unit square lies within the
/// rectangle it is taken from.
pub proof fn lemma_child_enclosed(r: Rect, x: Scalar, y: Scalar, w: Scalar, h: Scalar)
    requires
        0 <= r.w,
        0 <= r.h,
        0 <= x,
        0 <= y,
        0 <= w,
        0 <= h,
        x + w <= UNIT,
        y + h <= UNIT,
        r.child_fits(x, y, w, h),
    ensures
        r.encloses(r.child_spec(x, y, w, h)),
{
    lemma_parts_within(x as int, w as int, r.w as int);
    lemma_parts_within(y as int, h as int, r.h as int);
}

/// Two fractions of a length that add up to at most one take up, one after
/// the other, at most that length.
proof fn lemma_parts_within(f: int, g: int, len: int)
    requires
        0 <= f,
        0 <= g,
        f + g <= UNIT,
        0 <= len,
    ensures
        0 <= scale_spec(f, len),
        0 <= scale_spec(len, g),
        scale_spec(f, len) + scale_spec(len, g) <= len,
{
    assert(0 <= f * len && 0 <= len * g && f * len + len * g <= len * UNIT) by (nonlinear_arith)
        requires
            0 <= f,
            0 <= g,
            f + g <= UNIT,
            0 <= len,
    ;
}

/// Taking a part of a rectangle of moderate size and position, by fractions
/// of moderate size, stays within the machine range.
pub proof fn lemma_child_fits(r: Rect, x: Scalar, y: Scalar, w: Scalar, h: Scalar)
    requires
        moderate(r.x as int),
        moderate(r.y as int),
        0 <= r.w <= EXTENT_MAX,
        0 <= r.h <= EXTENT_MAX,
        -EXTENT_MAX * UNIT <= x <= EXTENT_MAX * UNIT,
        -EXTENT_MAX * UNIT <= y <= EXTENT_MAX * UNIT,
        -EXTENT_MAX * UNIT <= w <= EXTENT_MAX * UNIT,
        -EXTENT_MAX * UNIT <= h <= EXTENT_MAX * UNIT,
    ensures
        r.child_fits(x, y, w, h),
{
    lemma_fraction_of(x as int, r.w as int);
    lemma_fraction_of(y as int, r.h as int);
    lemma_fraction_of(w as int, r.w as int);
    lemma_fraction_of(h as int, r.h as int);
}

/// The aspect ratio of a rectangle of moderate size is moderate too.
proof fn lemma_aspect_bounds(w: int, h: int)
    requires
        0 < w <= EXTENT_MAX,
        0 < h <= EXTENT_MAX,
    ensures
        0 <= w * UNIT <= EXTENT_MAX * UNIT,
        0 <= ratio_spec(w, h) <= EXTENT_MAX * UNIT,
{
    assert(0 <= w * UNIT <= EXTENT_MAX * UNIT && h * 0 <= w * UNIT <= h * (EXTENT_MAX * UNIT))
        by (nonlinear_arith)
        requires
            0 < w <= EXTENT_MAX,
            0 < h,
    ;
    lemma_quotient_between(w * UNIT, h, 0, EXTENT_MAX * UNIT);
}

/// A smaller number divided by a larger one is a fraction below one.
proof fn lemma_ratio_below_unit(a: int, b: int)
    requires
        0 <= a < b,
        a <= EXTENT_MAX * UNIT,
    ensures
        0 <= a * UNIT <= EXTENT_MAX * UNIT * UNIT,
        0 <= ratio_spec(a, b) < UNIT,
{
    assert(0 <= a * UNIT <= EXTENT_MAX * UNIT * UNIT && a * UNIT < b * UNIT) by (nonlinear_arith)
        requires
            0 <= a < b,
            a <= EXTENT_MAX * UNIT,
    ;
    vstd::arithmetic::div_mod::lemma_multiply_divide_lt(a * UNIT, b, UNIT as int);
    vstd::arithmetic::div_mod::lemma_div_pos_is_pos(a * UNIT, b);
}

/// A number divided by one at least as large is a fraction of at most one;
/// a negative number gives a negative fraction that is no larger in size.
proof fn lemma_ratio_at_most_unit(a: int, b: int)
    requires
        -EXTENT_MAX <= a <= b,
        0 < b <= EXTENT_MAX * UNIT,
    ensures
        -EXTENT_MAX * UNIT <= a * UNIT <= EXTENT_MAX * UNIT * UNIT,
        -EXTENT_MAX * UNIT <= ratio_spec(a, b) <= UNIT,
{
    assert(-EXTENT_MAX * UNIT <= a * UNIT <= EXTENT_MAX * UNIT * UNIT && b * (-EXTENT_MAX * UNIT)
        <= a * UNIT <= b * UNIT) by (nonlinear_arith)
        requires
            -EXTENT_MAX <= a <= b,
            0 < b <= EXTENT_MAX * UNIT,
    ;
    lemma_quotient_between(a * UNIT, b, -EXTENT_MAX * UNIT, UNIT as int);
}

/// Taking a moderate fraction of a moderate length stays in range.
proof fn lemma_fraction_of(f: int, len: int)
    requires
        -EXTENT_MAX * UNIT <= f <= EXTENT_MAX * UNIT,
        0 <= len <= EXTENT_MAX,
    ensures
        fits(f * len),
        fits(len * f),
        -EXTENT_MAX * EXTENT_MAX <= scale_spec(f, len) <= EXTENT_MAX * EXTENT_MAX,
{
    assert(-EXTENT_MAX * UNIT * EXTENT_MAX <= f * len <= EXTENT_MAX * UNIT * EXTENT_MAX && f * len
        == len * f) by (nonlinear_arith)
        requires
            -EXTENT_MAX * UNIT <= f <= EXTENT_MAX * UNIT,
            0 <= len <= EXTENT_MAX,
    ;
}

} // verus!
