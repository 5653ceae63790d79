use vstd::prelude::*;

verus! {

/// Whether `b` lies between `a` and `c`, whichever of the two is the smaller.
pub open spec fn between(a: int, b: int, c: int) -> bool {
    (a <= b && b <= c) || (c <= b && b <= a)
}

/// The smaller of two integers.
pub open spec fn lower(a: int, b: int) -> int {
    if a <= b {
        a
    } else {
        b
    }
}

/// The larger of two integers.
pub open spec fn upper(a: int, b: int) -> int {
    if a >= b {
        a
    } else {
        b
    }
}

/// The absolute value of an integer.
pub open spec fn magnitude(v: int) -> int {
    if v < 0 {
        -v
    } else {
        v
    }
}

/// The sign of an integer: -1, 0 or 1.
pub open spec fn sign(v: int) -> int {
    if v < 0 {
        -1
    } else if v == 0 {
        0
    } else {
        1
    }
}

/// The value of magnitude `size` that has the sign of `toward`: `size` times
/// the sign.
pub open spec fn directed(size: int, toward: int) -> int {
    if toward < 0 {
        -size
    } else if toward == 0 {
        0
    } else {
        size
    }
}

/// Division that rounds toward zero, as machine integers divide.
pub open spec fn trunc_div(n: int, d: int) -> int
    recommends
        d != 0,
{
    if (n >= 0) == (d > 0) {
        magnitude(n) / magnitude(d)
    } else {
        -(magnitude(n) / magnitude(d))
    }
}

/// Tests whether `b` lies in the closed interval spanned by `a` and `c`.
pub fn lesseq_lesseq(a: i32, b: i32, c: i32) -> (r: bool)
    ensures
        r == between(a as int, b as int, c as int),
{
    (a <= b && b <= c) || (c <= b && b <= a)
}

/// A closed interval on a line, given by its two ends in either order.
pub struct Interval {
    pub a: int,
    pub b: int,
}

impl Interval {
    /// The least point of the interval.
    pub open spec fn low(self) -> int {
        lower(self.a, self.b)
    }

    /// The greatest point of the interval.
    pub open spec fn high(self) -> int {
        upper(self.a, self.b)
    }

    /// Whether `p` is a point of the interval.
    pub open spec fn contains(self, p: int) -> bool {
        self.low() <= p <= self.high()
    }

    /// Whether the two intervals share a point; touching ends count.
    pub open spec fn overlaps(self, other: Interval) -> bool {
        upper(self.low(), other.low()) <= lower(self.high(), other.high())
    }

    /// The same interval with its ends exchanged.
    pub open spec fn flipped(self) -> Interval {
        Interval { a: self.b, b: self.a }
    }
}

/// Two intervals overlap exactly when some point belongs to both.
pub proof fn lemma_overlap_shares_point(s: Interval, t: Interval)
    ensures
        s.overlaps(t) <==> exists|p: int| s.contains(p) && t.contains(p),
{
    if s.overlaps(t) {
        let p = upper(s.low(), t.low());
        assert(s.contains(p) && t.contains(p));
    }
}

/// Overlap does not depend on which interval is asked, nor on the order in
/// which an interval's ends are given.
pub proof fn lemma_overlap_symmetric(s: Interval, t: Interval)
    ensures
        s.overlaps(t) == t.overlaps(s),
        s.overlaps(t) == s.flipped().overlaps(t),
        s.overlaps(t) == s.overlaps(t.flipped()),
{
}

/// An interval of integers on one axis.
pub struct Segmet1D {
    x1: i32,
    x2: i32,
}

impl View for Segmet1D {
    type V = Interval;

    closed spec fn view(&self) -> Interval {
        Interval { a: self.x1 as int, b: self.x2 as int }
    }
}

impl Segmet1D {
    pub fn new(x1: i32, x2: i32) -> (s: Self)
        ensures
            s@ == (Interval { a: x1 as int, b: x2 as int }),
    {
        Self { x1, x2 }
    }

    /// Whether the two intervals share a point.
    pub fn intersect(&self, other: &Self) -> (r: bool)
        ensures
            r == self@.overlaps(other@),
    {
        lesseq_lesseq(self.x1, other.x1, self.x2) || lesseq_lesseq(self.x1, other.x2, self.x2)
            || lesseq_lesseq(other.x1, self.x1, other.x2) || lesseq_lesseq(
            other.x1,
            self.x2,
            other.x2,
        )
    }
}

/// A segment of the plane between two points with integer coordinates.
pub struct Segment {
    pub x1: int,
    pub y1: int,
    pub x2: int,
    pub y2: int,
}

impl Segment {
    /// The coefficient of `x` in the equation of the line through the segment.
    #[verifier::inline]
    pub open spec fn alpha(self) -> int {
        self.y1 - self.y2
    }

    /// The coefficient of `y` in the equation of the line through the segment.
    #[verifier::inline]
    pub open spec fn beta(self) -> int {
        self.x2 - self.x1
    }

    /// The constant of the line's equation: every point `(x, y)` of the line
    /// satisfies `alpha * x + beta * y == gamma`.
    #[verifier::inline]
    pub open spec fn gamma(self) -> int {
        self.x2 * (self.y1 - self.y2) - self.y2 * (self.x1 - self.x2)
    }

    /// Whether `(x, y)` lies on the line through the segment.
    pub open spec fn on_line(self, x: int, y: int) -> bool {
        self.alpha() * x + self.beta() * y == self.gamma()
    }

    /// Whether `(x, y)` lies in the segment's bounding box, borders included.
    pub open spec fn in_box(self, x: int, y: int) -> bool {
        between(self.x1, x, self.x2) && between(self.y1, y, self.y2)
    }

    /// The determinant of the two lines' equations; zero exactly when the
    /// segments are parallel, collinear or degenerate.
    pub open spec fn determinant(self, other: Segment) -> int {
        self.alpha() * other.beta() - other.alpha() * self.beta()
    }

    /// Whether the two segments have the same direction: the cross product of
    /// their direction vectors vanishes.
    pub open spec fn parallel(self, other: Segment) -> bool {
        (self.x2 - self.x1) * (other.y2 - other.y1) == (self.y2 - self.y1) * (other.x2
            - other.x1)
    }

    /// Where the two lines cross, by Cramer's rule, each coordinate rounded
    /// toward zero.
    pub open spec fn crossing(self, other: Segment) -> (int, int)
        recommends
            self.determinant(other) != 0,
    {
        (
            trunc_div(
                other.beta() * self.gamma() - self.beta() * other.gamma(),
                self.determinant(other),
            ),
            trunc_div(
                self.alpha() * other.gamma() - other.alpha() * self.gamma(),
                self.determinant(other),
            ),
        )
    }

    /// The point at which the two segments meet: the crossing of their lines
    /// where it falls into both bounding boxes, and nothing where the lines
    /// do not cross in one point or cross elsewhere.
    pub open spec fn meet(self, other: Segment) -> Option<(int, int)> {
        if self.determinant(other) == 0 {
            None
        } else {
            let p = self.crossing(other);
            if self.in_box(p.0, p.1) && other.in_box(p.0, p.1) {
                Some(p)
            } else {
                None
            }
        }
    }

    /// Whether the segment crosses the upright segment `wall` squarely: it is
    /// not upright itself, it reaches the wall's abscissa, and the wall is at
    /// least as high as the segment, at both ends.
    pub open spec fn crosses_upright(self, wall: Segment) -> bool {
        &&& wall.x1 == wall.x2
        &&& wall.y1 != wall.y2
        &&& self.x1 != self.x2
        &&& between(self.x1, wall.x1, self.x2)
        &&& wall.y_min() <= self.y_min()
        &&& self.y_max() <= wall.y_max()
    }

    /// Whether the segment crosses the level segment `wall` squarely: it is
    /// not level itself, it reaches the wall's ordinate, and the wall is at
    /// least as wide as the segment, at both ends.
    pub open spec fn crosses_level(self, wall: Segment) -> bool {
        &&& wall.y1 == wall.y2
        &&& wall.x1 != wall.x2
        &&& self.y1 != self.y2
        &&& between(self.y1, wall.y1, self.y2)
        &&& lower(wall.x1, wall.x2) <= lower(self.x1, self.x2)
        &&& upper(self.x1, self.x2) <= upper(wall.x1, wall.x2)
    }

    /// The lesser of the two ends' ordinates.
    pub open spec fn y_min(self) -> int {
        lower(self.y1, self.y2)
    }

    /// The greater of the two ends' ordinates.
    pub open spec fn y_max(self) -> int {
        upper(self.y1, self.y2)
    }
}

/// Segments of one direction have a vanishing determinant, and only they.
pub proof fn lemma_parallel_determinant(s: Segment, t: Segment)
    ensures
        s.parallel(t) <==> s.determinant(t) == 0,
{
    assert(s.determinant(t) == (s.x2 - s.x1) * (t.y2 - t.y1) - (s.y2 - s.y1) * (t.x2 - t.x1))
        by (nonlinear_arith);
}

/// Parallel segments never meet, not even where one lies on the other.
pub proof fn lemma_parallel_never_meet(s: Segment, t: Segment)
    requires
        s.parallel(t),
    ensures
        s.meet(t) is None,
{
    lemma_parallel_determinant(s, t);
}

/// A point at which two segments meet lies in the bounding box of each.
pub proof fn lemma_meet_in_both_boxes(s: Segment, t: Segment)
    ensures
        s.meet(t) matches Some(p) ==> s.in_box(p.0, p.1) && t.in_box(p.0, p.1),
{
}

/// Where the lines through two segments have one point in common and its
/// coordinates are whole numbers, that point is their crossing.
pub proof fn lemma_crossing_is_the_common_point(s: Segment, t: Segment, x: int, y: int)
    requires
        s.determinant(t) != 0,
        s.on_line(x, y),
        t.on_line(x, y),
    ensures
        s.crossing(t) == (x, y),
{
    let det = s.determinant(t);
    let (a1, b1, c1) = (s.alpha(), s.beta(), s.gamma());
    let (a2, b2, c2) = (t.alpha(), t.beta(), t.gamma());
    let num_x = b2 * c1 - b1 * c2;
    let num_y = a1 * c2 - a2 * c1;
    assert(b2 * c1 == b2 * a1 * x + b2 * b1 * y) by (nonlinear_arith)
        requires
            a1 * x + b1 * y == c1,
    ;
    assert(b1 * c2 == b1 * a2 * x + b1 * b2 * y) by (nonlinear_arith)
        requires
            a2 * x + b2 * y == c2,
    ;
    assert(a1 * c2 == a1 * a2 * x + a1 * b2 * y) by (nonlinear_arith)
        requires
            a2 * x + b2 * y == c2,
    ;
    assert(a2 * c1 == a2 * a1 * x + a2 * b1 * y) by (nonlinear_arith)
        requires
            a1 * x + b1 * y == c1,
    ;
    assert(num_x == x * det) by (nonlinear_arith)
        requires
            det == a1 * b2 - a2 * b1,
            num_x == b2 * c1 - b1 * c2,
            b2 * c1 == b2 * a1 * x + b2 * b1 * y,
            b1 * c2 == b1 * a2 * x + b1 * b2 * y,
    ;
    assert(num_y == y * det) by (nonlinear_arith)
        requires
            det == a1 * b2 - a2 * b1,
            num_y == a1 * c2 - a2 * c1,
            a1 * c2 == a1 * a2 * x + a1 * b2 * y,
            a2 * c1 == a2 * a1 * x + a2 * b1 * y,
    ;
    lemma_trunc_div_exact(x, det);
    lemma_trunc_div_exact(y, det);
}

/// Both ends of a segment lie on the line through it.
pub proof fn lemma_ends_on_line(s: Segment)
    ensures
        s.on_line(s.x1, s.y1),
        s.on_line(s.x2, s.y2),
{
    assert(s.on_line(s.x1, s.y1) && s.on_line(s.x2, s.y2)) by (nonlinear_arith)
        requires
            s.on_line(s.x1, s.y1) == ((s.y1 - s.y2) * s.x1 + (s.x2 - s.x1) * s.y1 == s.x2 * (s.y1
                - s.y2) - s.y2 * (s.x1 - s.x2)),
            s.on_line(s.x2, s.y2) == ((s.y1 - s.y2) * s.x2 + (s.x2 - s.x1) * s.y2 == s.x2 * (s.y1
                - s.y2) - s.y2 * (s.x1 - s.x2)),
    ;
}

/// A quotient that is a whole number is not changed by rounding.
pub proof fn lemma_trunc_div_exact(k: int, d: int)
    requires
        d != 0,
    ensures
        trunc_div(k * d, d) == k,
{
    let n = k * d;
    let m = magnitude(d);
    assert(magnitude(n) == m * magnitude(k)) by (nonlinear_arith)
        requires
            n == k * d,
            m == magnitude(d),
    ;
    vstd::arithmetic::div_mod::lemma_div_multiples_vanish(magnitude(k), m);
    assert(k > 0 ==> ((n >= 0) == (d > 0))) by (nonlinear_arith)
        requires
            n == k * d,
            d != 0,
    ;
    assert(k < 0 ==> ((n >= 0) != (d > 0))) by (nonlinear_arith)
        requires
            n == k * d,
            d != 0,
    ;
}

/// Rounding toward zero does not leave a range with whole ends: a quotient
/// that lies between `lo` and `hi` is rounded to a number between them.
pub proof fn lemma_trunc_div_between(n: int, d: int, lo: int, hi: int)
    requires
        d != 0,
        d > 0 ==> lo * d <= n <= hi * d,
        d < 0 ==> hi * d <= n <= lo * d,
    ensures
        lo <= trunc_div(n, d) <= hi,
{
    let m = magnitude(d);
    let a = magnitude(n);
    let q = a / m;
    vstd::arithmetic::div_mod::lemma_fundamental_div_mod(a, m);
    vstd::arithmetic::div_mod::lemma_mod_bound(a, m);
    // a == m * q + r with 0 <= r < m
    assert(a == m * q + a % m);
    if (n >= 0) == (d > 0) {
        // the quotient is a / m, and n / d is not negative
        assert(lo * m <= a && a <= hi * m) by (nonlinear_arith)
            requires
                d != 0,
                m == magnitude(d),
                a == magnitude(n),
                (n >= 0) == (d > 0),
                d > 0 ==> lo * d <= n <= hi * d,
                d < 0 ==> hi * d <= n <= lo * d,
        ;
        assert(lo <= q && q <= hi) by (nonlinear_arith)
            requires
                m > 0,
                a == m * q + a % m,
                0 <= a % m < m,
                lo * m <= a,
                a <= hi * m,
        ;
    } else {
        assert(lo * m <= -a && -a <= hi * m) by (nonlinear_arith)
            requires
                d != 0,
                m == magnitude(d),
                a == magnitude(n),
                (n >= 0) != (d > 0),
                d > 0 ==> lo * d <= n <= hi * d,
                d < 0 ==> hi * d <= n <= lo * d,
        ;
        assert(lo <= -q && -q <= hi) by (nonlinear_arith)
            requires
                m > 0,
                a == m * q + a % m,
                0 <= a % m < m,
                lo * m <= -a,
                -a <= hi * m,
        ;
    }
}

/// A segment that is not upright meets an upright wall wherever it reaches
/// the wall's abscissa, if the wall is long enough for it: at that abscissa
/// exactly, and at an ordinate between its own ends.
pub proof fn lemma_meets_upright_wall(s: Segment, wall: Segment)
    requires
        s.crosses_upright(wall),
    ensures
        s.meet(wall) matches Some(p) && p.0 == wall.x1 && between(s.y1, p.1, s.y2) && (wall.x1
            == s.x1 ==> p.1 == s.y1) && (wall.x1 == s.x2 ==> p.1 == s.y2),
{
    let x = wall.x1;
    let d = s.x2 - s.x1;
    let w = wall.y2 - wall.y1;
    let t = s.x2 - x;
    let n = (s.y1 - s.y2) * t + s.y2 * d;
    let det = s.determinant(wall);
    assert(det == w * d) by (nonlinear_arith)
        requires
            det == (s.y1 - s.y2) * (wall.x2 - wall.x1) - (wall.y1 - wall.y2) * (s.x2 - s.x1),
            wall.x1 == wall.x2,
            w == wall.y2 - wall.y1,
            d == s.x2 - s.x1,
    ;
    assert(det != 0) by (nonlinear_arith)
        requires
            det == w * d,
            w != 0,
            d != 0,
    ;
    let num_x = wall.beta() * s.gamma() - s.beta() * wall.gamma();
    assert(num_x == x * det) by (nonlinear_arith)
        requires
            num_x == (wall.x2 - wall.x1) * s.gamma() - (s.x2 - s.x1) * (wall.x2 * (wall.y1
                - wall.y2) - wall.y2 * (wall.x1 - wall.x2)),
            wall.x1 == wall.x2,
            x == wall.x1,
            det == w * d,
            w == wall.y2 - wall.y1,
            d == s.x2 - s.x1,
    ;
    lemma_trunc_div_exact(x, det);
    let num_y = s.alpha() * wall.gamma() - wall.alpha() * s.gamma();
    assert(num_y == w * n) by (nonlinear_arith)
        requires
            num_y == (s.y1 - s.y2) * (wall.x2 * (wall.y1 - wall.y2) - wall.y2 * (wall.x1
                - wall.x2)) - (wall.y1 - wall.y2) * (s.x2 * (s.y1 - s.y2) - s.y2 * (s.x1 - s.x2)),
            wall.x1 == wall.x2,
            x == wall.x1,
            w == wall.y2 - wall.y1,
            d == s.x2 - s.x1,
            t == s.x2 - x,
            n == (s.y1 - s.y2) * t + s.y2 * d,
    ;
    let lo = s.y_min();
    let hi = s.y_max();
    // n / d lies between the ordinates of the ends, for t lies between 0 and d
    assert(d > 0 ==> lo * d <= n <= hi * d) by (nonlinear_arith)
        requires
            n == (s.y1 - s.y2) * t + s.y2 * d,
            d > 0 ==> 0 <= t <= d,
            lo == if s.y1 < s.y2 { s.y1 } else { s.y2 },
            hi == if s.y1 > s.y2 { s.y1 } else { s.y2 },
    ;
    assert(d < 0 ==> hi * d <= n <= lo * d) by (nonlinear_arith)
        requires
            n == (s.y1 - s.y2) * t + s.y2 * d,
            d < 0 ==> d <= t <= 0,
            lo == if s.y1 < s.y2 { s.y1 } else { s.y2 },
            hi == if s.y1 > s.y2 { s.y1 } else { s.y2 },
    ;
    assert(det > 0 ==> lo * det <= num_y <= hi * det) by (nonlinear_arith)
        requires
            det == w * d,
            num_y == w * n,
            d > 0 ==> lo * d <= n <= hi * d,
            d < 0 ==> hi * d <= n <= lo * d,
            d != 0,
            w != 0,
    ;
    assert(det < 0 ==> hi * det <= num_y <= lo * det) by (nonlinear_arith)
        requires
            det == w * d,
            num_y == w * n,
            d > 0 ==> lo * d <= n <= hi * d,
            d < 0 ==> hi * d <= n <= lo * d,
            d != 0,
            w != 0,
    ;
    lemma_trunc_div_between(num_y, det, lo, hi);
    if x == s.x1 {
        assert(num_y == s.y1 * det) by (nonlinear_arith)
            requires
                num_y == w * n,
                det == w * d,
                n == (s.y1 - s.y2) * t + s.y2 * d,
                t == d,
        ;
        lemma_trunc_div_exact(s.y1, det);
    }
    if x == s.x2 {
        assert(num_y == s.y2 * det) by (nonlinear_arith)
            requires
                num_y == w * n,
                det == w * d,
                n == (s.y1 - s.y2) * t + s.y2 * d,
                t == 0,
        ;
        lemma_trunc_div_exact(s.y2, det);
    }
}

/// A segment that is not level meets a level wall wherever it reaches the
/// wall's ordinate, if the wall is long enough for it: at that ordinate
/// exactly, and at an abscissa between its own ends.
pub proof fn lemma_meets_level_wall(s: Segment, wall: Segment)
    requires
        s.crosses_level(wall),
    ensures
        s.meet(wall) matches Some(p) && p.1 == wall.y1 && between(s.x1, p.0, s.x2) && (wall.y1
            == s.y1 ==> p.0 == s.x1) && (wall.y1 == s.y2 ==> p.0 == s.x2),
{
    let y = wall.y1;
    let e = s.y1 - s.y2;
    let w = wall.x2 - wall.x1;
    let t = s.y2 - y;
    let n = s.x2 * e + (s.x2 - s.x1) * t;
    let det = s.determinant(wall);
    assert(det == e * w) by (nonlinear_arith)
        requires
            det == (s.y1 - s.y2) * (wall.x2 - wall.x1) - (wall.y1 - wall.y2) * (s.x2 - s.x1),
            wall.y1 == wall.y2,
            w == wall.x2 - wall.x1,
            e == s.y1 - s.y2,
    ;
    assert(det != 0) by (nonlinear_arith)
        requires
            det == e * w,
            w != 0,
            e != 0,
    ;
    let num_y = s.alpha() * wall.gamma() - wall.alpha() * s.gamma();
    assert(num_y == y * det) by (nonlinear_arith)
        requires
            num_y == (s.y1 - s.y2) * (wall.x2 * (wall.y1 - wall.y2) - wall.y2 * (wall.x1
                - wall.x2)) - (wall.y1 - wall.y2) * s.gamma(),
            wall.y1 == wall.y2,
            y == wall.y1,
            det == e * w,
            w == wall.x2 - wall.x1,
            e == s.y1 - s.y2,
    ;
    lemma_trunc_div_exact(y, det);
    let num_x = wall.beta() * s.gamma() - s.beta() * wall.gamma();
    assert(num_x == w * n) by (nonlinear_arith)
        requires
            num_x == (wall.x2 - wall.x1) * (s.x2 * (s.y1 - s.y2) - s.y2 * (s.x1 - s.x2)) - (s.x2
                - s.x1) * (wall.x2 * (wall.y1 - wall.y2) - wall.y2 * (wall.x1 - wall.x2)),
            wall.y1 == wall.y2,
            y == wall.y1,
            w == wall.x2 - wall.x1,
            e == s.y1 - s.y2,
            t == s.y2 - y,
            n == s.x2 * e + (s.x2 - s.x1) * t,
    ;
    let lo = lower(s.x1, s.x2);
    let hi = upper(s.x1, s.x2);
    // n / e lies between the abscissas of the ends, for -t lies between 0 and e
    assert(e > 0 ==> lo * e <= n <= hi * e) by (nonlinear_arith)
        requires
            n == s.x2 * e + (s.x2 - s.x1) * t,
            e > 0 ==> -e <= t <= 0,
            lo == if s.x1 <= s.x2 { s.x1 } else { s.x2 },
            hi == if s.x1 >= s.x2 { s.x1 } else { s.x2 },
    ;
    assert(e < 0 ==> hi * e <= n <= lo * e) by (nonlinear_arith)
        requires
            n == s.x2 * e + (s.x2 - s.x1) * t,
            e < 0 ==> 0 <= t <= -e,
            lo == if s.x1 <= s.x2 { s.x1 } else { s.x2 },
            hi == if s.x1 >= s.x2 { s.x1 } else { s.x2 },
    ;
    assert(det > 0 ==> lo * det <= num_x <= hi * det) by (nonlinear_arith)
        requires
            det == e * w,
            num_x == w * n,
            e > 0 ==> lo * e <= n <= hi * e,
            e < 0 ==> hi * e <= n <= lo * e,
            e != 0,
            w != 0,
    ;
    assert(det < 0 ==> hi * det <= num_x <= lo * det) by (nonlinear_arith)
        requires
            det == e * w,
            num_x == w * n,
            e > 0 ==> lo * e <= n <= hi * e,
            e < 0 ==> hi * e <= n <= lo * e,
            e != 0,
            w != 0,
    ;
    lemma_trunc_div_between(num_x, det, lo, hi);
    if y == s.y1 {
        assert(num_x == s.x1 * det) by (nonlinear_arith)
            requires
                num_x == w * n,
                det == e * w,
                n == s.x2 * e + (s.x2 - s.x1) * t,
                t == -e,
        ;
        lemma_trunc_div_exact(s.x1, det);
    }
    if y == s.y2 {
        assert(num_x == s.x2 * det) by (nonlinear_arith)
            requires
                num_x == w * n,
                det == e * w,
                n == s.x2 * e + (s.x2 - s.x1) * t,
                t == 0,
        ;
        lemma_trunc_div_exact(s.x2, det);
    }
}

/// A factor that numerator and denominator have in common does not change
/// the rounded quotient.
pub proof fn lemma_trunc_div_cancel(w: int, n: int, d: int)
    requires
        w != 0,
        d != 0,
    ensures
        trunc_div(w * n, w * d) == trunc_div(n, d),
{
    let wn = w * n;
    let wd = w * d;
    let mw = magnitude(w);
    assert(magnitude(wn) == mw * magnitude(n) && magnitude(wd) == mw * magnitude(d) && wd != 0)
        by (nonlinear_arith)
        requires
            wn == w * n,
            wd == w * d,
            mw == magnitude(w),
            w != 0,
            d != 0,
    ;
    vstd::arithmetic::div_mod::lemma_div_multiples_vanish_quotient(
        mw,
        magnitude(n),
        magnitude(d),
    );
    assert(n != 0 ==> ((wn >= 0) == (wd > 0)) == ((n >= 0) == (d > 0))) by (nonlinear_arith)
        requires
            wn == w * n,
            wd == w * d,
            w != 0,
            d != 0,
    ;
    assert(n == 0 ==> wn == 0) by (nonlinear_arith)
        requires
            wn == w * n,
    ;
}

impl Segment {
    /// The ordinate at which the line through the segment, which is not
    /// upright, has the abscissa `x`, rounded toward zero.
    pub open spec fn ordinate_at(self, x: int) -> int {
        trunc_div(
            (self.y2 - self.y1) * (x - self.x1) + self.y1 * (self.x2 - self.x1),
            self.x2 - self.x1,
        )
    }

    /// The abscissa at which the line through the segment, which is not
    /// level, has the ordinate `y`, rounded toward zero.
    pub open spec fn abscissa_at(self, y: int) -> int {
        trunc_div(
            (self.x2 - self.x1) * (y - self.y1) + self.x1 * (self.y2 - self.y1),
            self.y2 - self.y1,
        )
    }
}

/// Where a segment crosses an upright wall squarely, they meet at the wall's
/// abscissa and at the ordinate that the line through the segment has there.
pub proof fn lemma_upright_crossing(s: Segment, wall: Segment)
    requires
        s.crosses_upright(wall),
    ensures
        s.meet(wall) == Some((wall.x1, s.ordinate_at(wall.x1))),
{
    lemma_meets_upright_wall(s, wall);
    let x = wall.x1;
    let d = s.x2 - s.x1;
    let w = wall.y2 - wall.y1;
    let n = (s.y2 - s.y1) * (x - s.x1) + s.y1 * d;
    let det = s.determinant(wall);
    let num_y = s.alpha() * wall.gamma() - wall.alpha() * s.gamma();
    assert(det == w * d) by (nonlinear_arith)
        requires
            det == (s.y1 - s.y2) * (wall.x2 - wall.x1) - (wall.y1 - wall.y2) * (s.x2 - s.x1),
            wall.x1 == wall.x2,
            w == wall.y2 - wall.y1,
            d == s.x2 - s.x1,
    ;
    let t = s.x2 - x;
    let m = (s.y1 - s.y2) * t + s.y2 * d;
    assert(num_y == w * m) by (nonlinear_arith)
        requires
            num_y == (s.y1 - s.y2) * (wall.x2 * (wall.y1 - wall.y2) - wall.y2 * (wall.x1
                - wall.x2)) - (wall.y1 - wall.y2) * (s.x2 * (s.y1 - s.y2) - s.y2 * (s.x1 - s.x2)),
            wall.x1 == wall.x2,
            x == wall.x1,
            w == wall.y2 - wall.y1,
            d == s.x2 - s.x1,
            t == s.x2 - x,
            m == (s.y1 - s.y2) * t + s.y2 * d,
    ;
    assert(m == n) by (nonlinear_arith)
        requires
            d == s.x2 - s.x1,
            t == s.x2 - x,
            m == (s.y1 - s.y2) * t + s.y2 * d,
            n == (s.y2 - s.y1) * (x - s.x1) + s.y1 * d,
    ;
    lemma_trunc_div_cancel(w, n, d);
}

/// Where a segment crosses a level wall squarely, they meet at the wall's
/// ordinate and at the abscissa that the line through the segment has there.
pub proof fn lemma_level_crossing(s: Segment, wall: Segment)
    requires
        s.crosses_level(wall),
    ensures
        s.meet(wall) == Some((s.abscissa_at(wall.y1), wall.y1)),
{
    lemma_meets_level_wall(s, wall);
    let y = wall.y1;
    let e = s.y2 - s.y1;
    let w = wall.x1 - wall.x2;
    let n = (s.x2 - s.x1) * (y - s.y1) + s.x1 * e;
    let det = s.determinant(wall);
    let num_x = wall.beta() * s.gamma() - s.beta() * wall.gamma();
    assert(det == w * e) by (nonlinear_arith)
        requires
            det == (s.y1 - s.y2) * (wall.x2 - wall.x1) - (wall.y1 - wall.y2) * (s.x2 - s.x1),
            wall.y1 == wall.y2,
            w == wall.x1 - wall.x2,
            e == s.y2 - s.y1,
    ;
    let u = wall.x2 - wall.x1;
    let f = s.y1 - s.y2;
    let t = s.y2 - y;
    let m = s.x2 * f + (s.x2 - s.x1) * t;
    assert(num_x == u * m) by (nonlinear_arith)
        requires
            num_x == (wall.x2 - wall.x1) * (s.x2 * (s.y1 - s.y2) - s.y2 * (s.x1 - s.x2)) - (s.x2
                - s.x1) * (wall.x2 * (wall.y1 - wall.y2) - wall.y2 * (wall.x1 - wall.x2)),
            wall.y1 == wall.y2,
            y == wall.y1,
            u == wall.x2 - wall.x1,
            f == s.y1 - s.y2,
            t == s.y2 - y,
            m == s.x2 * f + (s.x2 - s.x1) * t,
    ;
    assert(m == -n) by (nonlinear_arith)
        requires
            f == s.y1 - s.y2,
            e == s.y2 - s.y1,
            t == s.y2 - y,
            m == s.x2 * f + (s.x2 - s.x1) * t,
            n == (s.x2 - s.x1) * (y - s.y1) + s.x1 * e,
    ;
    assert(num_x == w * n) by (nonlinear_arith)
        requires
            num_x == u * m,
            m == -n,
            u == -w,
    ;
    lemma_trunc_div_cancel(w, n, e);
}

/// On which side of a point of its way a line is rounded to. A line rises by
/// `rise` while it runs by `run`, from the height `y`, and `a` is a part of
/// the run and `c` a part of the rise. Where the line has run by `a` it has
/// risen by `c` at most, if `a` is no greater a part of the run than `c` is of
/// the rise, and by `c` at least if it is no smaller a part; and so has the
/// height to which it is rounded there.
pub proof fn lemma_rounded_height(y: int, rise: int, run: int, a: int, c: int)
    requires
        run != 0,
        between(0, a, run),
        between(0, c, rise),
    ensures
        magnitude(a) * magnitude(rise) <= magnitude(c) * magnitude(run) ==> between(
            y,
            trunc_div(rise * a + y * run, run),
            y + c,
        ),
        magnitude(a) * magnitude(rise) >= magnitude(c) * magnitude(run) ==> between(
            y + c,
            trunc_div(rise * a + y * run, run),
            y + rise,
        ),
{
    let n = rise * a + y * run;
    if magnitude(a) * magnitude(rise) <= magnitude(c) * magnitude(run) {
        let lo = lower(y, y + c);
        let hi = upper(y, y + c);
        if run > 0 {
            assert(lo * run <= n <= hi * run) by (nonlinear_arith)
                requires
                    n == rise * a + y * run,
                    run > 0,
                    0 <= a <= run,
                    between(0, c, rise),
                    magnitude(a) * magnitude(rise) <= magnitude(c) * magnitude(run),
                    lo == lower(y, y + c),
                    hi == upper(y, y + c),
            ;
        } else {
            assert(hi * run <= n <= lo * run) by (nonlinear_arith)
                requires
                    n == rise * a + y * run,
                    run < 0,
                    run <= a <= 0,
                    between(0, c, rise),
                    magnitude(a) * magnitude(rise) <= magnitude(c) * magnitude(run),
                    lo == lower(y, y + c),
                    hi == upper(y, y + c),
            ;
        }
        lemma_trunc_div_between(n, run, lo, hi);
    }
    if magnitude(a) * magnitude(rise) >= magnitude(c) * magnitude(run) {
        let lo = lower(y + c, y + rise);
        let hi = upper(y + c, y + rise);
        if run > 0 {
            assert(lo * run <= n <= hi * run) by (nonlinear_arith)
                requires
                    n == rise * a + y * run,
                    run > 0,
                    0 <= a <= run,
                    between(0, c, rise),
                    magnitude(a) * magnitude(rise) >= magnitude(c) * magnitude(run),
                    lo == lower(y + c, y + rise),
                    hi == upper(y + c, y + rise),
            ;
        } else {
            assert(hi * run <= n <= lo * run) by (nonlinear_arith)
                requires
                    n == rise * a + y * run,
                    run < 0,
                    run <= a <= 0,
                    between(0, c, rise),
                    magnitude(a) * magnitude(rise) >= magnitude(c) * magnitude(run),
                    lo == lower(y + c, y + rise),
                    hi == upper(y + c, y + rise),
            ;
        }
        lemma_trunc_div_between(n, run, lo, hi);
    }
}

/// A segment does not meet an upright wall whose abscissa it does not reach,
/// nor a level wall whose ordinate it does not reach.
pub proof fn lemma_misses_wall_out_of_reach(s: Segment, wall: Segment)
    requires
        (wall.x1 == wall.x2 && !between(s.x1, wall.x1, s.x2)) || (wall.y1 == wall.y2 && !between(
            s.y1,
            wall.y1,
            s.y2,
        )),
    ensures
        s.meet(wall) is None,
{
}

/// The absolute value of a machine integer, widened so that it always fits.
fn magnitude_of(v: i128) -> (m: u128)
    requires
        v > i128::MIN,
    ensures
        m == magnitude(v as int),
{
    if v < 0 {
        (-v) as u128
    } else {
        v as u128
    }
}

/// Divides rounding toward zero.
fn div_toward_zero(n: i128, d: i128) -> (q: i128)
    requires
        d != 0,
        n > i128::MIN,
        d > i128::MIN,
    ensures
        q == trunc_div(n as int, d as int),
{
    let un: u128 = magnitude_of(n);
    let ud: u128 = magnitude_of(d);
    let uq: u128 = un / ud;
    assert(uq <= un) by (nonlinear_arith)
        requires
            uq == un / ud,
            ud >= 1,
    ;
    if (n >= 0) == (d > 0) {
        uq as i128
    } else {
        -(uq as i128)
    }
}

/// A segment between two points with integer coordinates.
#[derive(Debug, Clone, Copy)]
pub struct Segmet2D {
    x1: i32,
    y1: i32,
    x2: i32,
    y2: i32,
}

impl View for Segmet2D {
    type V = Segment;

    closed spec fn view(&self) -> Segment {
        Segment { x1: self.x1 as int, y1: self.y1 as int, x2: self.x2 as int, y2: self.y2 as int }
    }
}

impl Segmet2D {
    pub fn new(x1: i32, y1: i32, x2: i32, y2: i32) -> (s: Self)
        ensures
            s@ == (Segment { x1: x1 as int, y1: y1 as int, x2: x2 as int, y2: y2 as int }),
    {
        Self { x1, y1, x2, y2 }
    }

    /// The point at which the two segments meet, if there is one.
    ///
    /// Segments that are parallel, or lie on one line, never meet. The
    /// arithmetic is carried out wide enough for every pair of segments.
    pub fn intersect(&self, other: &Self) -> (r: Option<(i32, i32)>)
        ensures
            match r {
                Some(p) => self@.meet(other@) == Some((p.0 as int, p.1 as int)),
                None => self@.meet(other@) is None,
            },
            self@.parallel(other@) ==> r is None,
            r matches Some(p) ==> self@.in_box(p.0 as int, p.1 as int) && other@.in_box(
                p.0 as int,
                p.1 as int,
            ),
            self@.crosses_upright(other@) ==> (r matches Some(p) && p.0 == other@.x1 && between(
                self@.y1,
                p.1 as int,
                self@.y2,
            )),
            self@.crosses_level(other@) ==> (r matches Some(p) && p.1 == other@.y1 && between(
                self@.x1,
                p.0 as int,
                self@.x2,
            )),
    {
        proof {
            if self@.crosses_upright(other@) {
                lemma_meets_upright_wall(self@, other@);
            }
            if self@.crosses_level(other@) {
                lemma_meets_level_wall(self@, other@);
            }
        }
        let alpha: i128 = self.y1 as i128 - self.y2 as i128;
        let beta: i128 = self.x2 as i128 - self.x1 as i128;
        let alpha_2: i128 = other.y1 as i128 - other.y2 as i128;
        let beta_2: i128 = other.x2 as i128 - other.x1 as i128;
        proof {
            lemma_parallel_determinant(self@, other@);
            lemma_product_bound(alpha as int, beta_2 as int, 0x1_0000_0000, 0x1_0000_0000);
            lemma_product_bound(alpha_2 as int, beta as int, 0x1_0000_0000, 0x1_0000_0000);
        }
        let denom: i128 = alpha * beta_2 - alpha_2 * beta;
        if denom == 0 {
            return None;
        }
        proof {
            lemma_product_bound(self.x2 as int, alpha as int, 0x1_0000_0000, 0x1_0000_0000);
            lemma_product_bound(self.y2 as int, -(beta as int), 0x1_0000_0000, 0x1_0000_0000);
            lemma_product_bound(other.x2 as int, alpha_2 as int, 0x1_0000_0000, 0x1_0000_0000);
            lemma_product_bound(other.y2 as int, -(beta_2 as int), 0x1_0000_0000, 0x1_0000_0000);
        }
        let gamma: i128 = self.x2 as i128 * alpha - self.y2 as i128 * (-beta);
        let gamma_2: i128 = other.x2 as i128 * alpha_2 - other.y2 as i128 * (-beta_2);
        proof {
            let wide: int = 0x2_0000_0000_0000_0000;
            lemma_product_bound(beta_2 as int, gamma as int, 0x1_0000_0000, wide);
            lemma_product_bound(beta as int, gamma_2 as int, 0x1_0000_0000, wide);
            lemma_product_bound(alpha as int, gamma_2 as int, 0x1_0000_0000, wide);
            lemma_product_bound(alpha_2 as int, gamma as int, 0x1_0000_0000, wide);
        }
        let res_x: i128 = div_toward_zero(beta_2 * gamma - beta * gamma_2, denom);
        let res_y: i128 = div_toward_zero(alpha * gamma_2 - alpha_2 * gamma, denom);
        assert((res_x as int, res_y as int) == self@.crossing(other@));
        if within(self.x1, res_x, self.x2) && within(other.x1, res_x, other.x2) && within(
            self.y1,
            res_y,
            self.y2,
        ) && within(other.y1, res_y, other.y2) {
            Some((res_x as i32, res_y as i32))
        } else {
            None
        }
    }

    pub fn change_x1(&mut self, new_x1: i32)
        ensures
            final(self)@ == (Segment { x1: new_x1 as int, ..old(self)@ }),
    {
        self.x1 = new_x1;
    }

    pub fn change_y1(&mut self, new_y1: i32)
        ensures
            final(self)@ == (Segment { y1: new_y1 as int, ..old(self)@ }),
    {
        self.y1 = new_y1;
    }

    pub fn change_x2(&mut self, new_x2: i32)
        ensures
            final(self)@ == (Segment { x2: new_x2 as int, ..old(self)@ }),
    {
        self.x2 = new_x2;
    }

    pub fn change_y2(&mut self, new_y2: i32)
        ensures
            final(self)@ == (Segment { y2: new_y2 as int, ..old(self)@ }),
    {
        self.y2 = new_y2;
    }

    pub fn y_min(&self) -> (r: i32)
        ensures
            r == self@.y_min(),
    {
        if self.y1 < self.y2 {
            self.y1
        } else {
            self.y2
        }
    }

    pub fn y_max(&self) -> (r: i32)
        ensures
            r == self@.y_max(),
    {
        if self.y1 > self.y2 {
            self.y1
        } else {
            self.y2
        }
    }
}

/// Tests whether the wide value `b` lies between the coordinates `a` and `c`.
fn within(a: i32, b: i128, c: i32) -> (r: bool)
    ensures
        r == between(a as int, b as int, c as int),
{
    (a as i128 <= b && b <= c as i128) || (c as i128 <= b && b <= a as i128)
}

/// A product is bounded by the product of its factors' bounds.
proof fn lemma_product_bound(a: int, b: int, bound_a: int, bound_b: int)
    requires
        -bound_a <= a <= bound_a,
        -bound_b <= b <= bound_b,
    ensures
        -(bound_a * bound_b) <= a * b <= bound_a * bound_b,
{
    assert(-(bound_a * bound_b) <= a * b <= bound_a * bound_b) by (nonlinear_arith)
        requires
            -bound_a <= a <= bound_a,
            -bound_b <= b <= bound_b,
    ;
}

} // verus!
