//! Scaling and fitting of polyline drawings into device space.
//!
//! Coordinates are fixed-point integers in hundredths of a device unit, so
//! every transform here is exact integer arithmetic. `scale_polylines`
//! applies a caller-chosen per-axis rational transform with no bounds
//! checking; `fit_polylines` derives a single uniform factor that places a
//! whole drawing inside the drawable rectangle without distortion and
//! centers it there.

use vstd::arithmetic::div_mod::{
    lemma_div_is_ordered, lemma_div_multiples_vanish, lemma_div_nonincreasing, lemma_div_of0,
    lemma_div_pos_is_pos, lemma_fundamental_div_mod, lemma_mod_bound,
};
use vstd::arithmetic::mul::lemma_mul_inequality;
use vstd::math::{max, min};
use vstd::prelude::*;

verus! {

/// Largest coordinate magnitude the geometry accepts; keeps all products in
/// range of the machine arithmetic below.
pub const COORD_LIMIT: i64 = 1000000000;

/// Largest magnitude of a scale-factor numerator or denominator.
pub const FACTOR_LIMIT: i64 = 1000000;

/// One point of a polyline, in fixed-point coordinates.
#[derive(Clone, Copy, PartialEq, Eq, Structural, Debug)]
pub struct Point {
    pub x: i64,
    pub y: i64,
}

/// One continuous pen-down stroke; points are drawn in order.
pub type Polyline = Vec<Point>;

pub open spec fn point_wf(p: Point) -> bool {
    &&& -COORD_LIMIT <= p.x <= COORD_LIMIT
    &&& -COORD_LIMIT <= p.y <= COORD_LIMIT
}

pub open spec fn line_wf(l: Seq<Point>) -> bool {
    forall|j: int| 0 <= j < l.len() ==> point_wf(#[trigger] l[j])
}

/// Every coordinate of the drawing is within the accepted range.
pub open spec fn drawing_wf(s: Seq<Polyline>) -> bool {
    forall|i: int| 0 <= i < s.len() ==> line_wf((#[trigger] s[i])@)
}

/// The polyline invariant: a stroke has at least one point.
pub open spec fn lines_nonempty(s: Seq<Polyline>) -> bool {
    forall|i: int| 0 <= i < s.len() ==> (#[trigger] s[i])@.len() > 0
}

/// One axis of the drawable rectangle.
#[derive(Clone, Copy, PartialEq, Eq, Structural, Debug)]
pub struct Range {
    pub min: i64,
    pub max: i64,
}

impl Range {
    pub open spec fn wf(self) -> bool {
        &&& -COORD_LIMIT <= self.min <= COORD_LIMIT
        &&& -COORD_LIMIT <= self.max <= COORD_LIMIT
        &&& self.min <= self.max
    }
}

/// The physical drawable rectangle of the robot, in device units.
#[derive(Clone, Copy, PartialEq, Eq, Structural, Debug)]
pub struct Bounds {
    pub x: Range,
    pub y: Range,
}

impl Bounds {
    pub open spec fn wf(self) -> bool {
        self.x.wf() && self.y.wf()
    }

    /// Shrink the rectangle symmetrically on both axes by `padding`.
    /// A padding that exceeds half the smaller span is a configuration
    /// error: it is rejected (the bounds stay unchanged and the call
    /// returns false) rather than producing a degenerate rectangle.
    pub fn add_padding(&mut self, padding: i64) -> (r: bool)
        requires
            old(self).wf(),
            0 <= padding <= COORD_LIMIT,
        ensures
            r <==> (2 * padding <= old(self).x.max - old(self).x.min && 2 * padding
                <= old(self).y.max - old(self).y.min),
            r ==> *final(self) == (Bounds {
                x: Range { min: (old(self).x.min + padding) as i64, max: (old(self).x.max - padding) as i64 },
                y: Range { min: (old(self).y.min + padding) as i64, max: (old(self).y.max - padding) as i64 },
            }),
            !r ==> *final(self) == *old(self),
            final(self).wf(),
    {
        if 2 * padding <= self.x.max - self.x.min && 2 * padding <= self.y.max - self.y.min {
            self.x.min = self.x.min + padding;
            self.x.max = self.x.max - padding;
            self.y.min = self.y.min + padding;
            self.y.max = self.y.max - padding;
            true
        } else {
            false
        }
    }
}

/// A rational scale factor `num / den`.
#[derive(Clone, Copy, PartialEq, Eq, Structural, Debug)]
pub struct ScaleFactor {
    pub num: i64,
    pub den: i64,
}

impl ScaleFactor {
    pub open spec fn wf(self) -> bool {
        &&& 1 <= self.den <= FACTOR_LIMIT
        &&& -FACTOR_LIMIT <= self.num <= FACTOR_LIMIT
    }
}

/// Division that truncates toward zero (the rounding used for scaled
/// coordinates); `b` must be positive.
pub open spec fn trunc_div(a: int, b: int) -> int {
    if a >= 0 {
        a / b
    } else {
        -((-a) / b)
    }
}

/// A scaled coordinate: `x * num / den + off`, rounded toward zero.
pub open spec fn scale_coord_spec(x: int, num: int, den: int, off: int) -> int {
    trunc_div(x * num, den) + off
}

proof fn lemma_mul_bound(x: int, y: int, bx: int, by: int)
    by (nonlinear_arith)
    requires
        -bx <= x <= bx,
        -by <= y <= by,
        0 <= bx,
        0 <= by,
    ensures
        -(bx * by) <= x * y <= bx * by,
{
}

/// The product of two spans (each at most twice the coordinate limit) stays
/// comfortably inside the 64-bit unsigned range.
proof fn lemma_span_product_bounded(x: int, y: int)
    by (nonlinear_arith)
    requires
        0 <= x <= 2000000000,
        0 <= y <= 2000000000,
    ensures
        0 <= x * y <= 4000000000000000000,
{
}

/// Scale one coordinate by `f` and translate it by `off`.
pub fn scale_coord(x: i64, f: ScaleFactor, off: i64) -> (r: i64)
    requires
        -COORD_LIMIT <= x <= COORD_LIMIT,
        f.wf(),
        -COORD_LIMIT <= off <= COORD_LIMIT,
    ensures
        r == scale_coord_spec(x as int, f.num as int, f.den as int, off as int),
{
    proof {
        lemma_mul_bound(x as int, f.num as int, COORD_LIMIT as int, FACTOR_LIMIT as int);
    }
    let p: i64 = x * f.num;
    let q: i64 = if p >= 0 {
        ((p as u64) / (f.den as u64)) as i64
    } else {
        proof {
            lemma_div_is_ordered(0, (-p) as int, f.den as int);
            lemma_div_is_ordered((-p) as int, COORD_LIMIT as int * FACTOR_LIMIT as int, f.den as int);
        }
        -((((-p) as u64) / (f.den as u64)) as i64)
    };
    proof {
        if p >= 0 {
            lemma_div_is_ordered(0, p as int, f.den as int);
            lemma_div_is_ordered(p as int, COORD_LIMIT as int * FACTOR_LIMIT as int, f.den as int);
        }
    }
    q + off
}

/// `newd` is `oldd` with every coordinate scaled per axis by the given
/// factors and offsets; grouping into strokes and the order of strokes and
/// points are preserved.
pub open spec fn scaled_drawing(
    oldd: Seq<Polyline>,
    newd: Seq<Polyline>,
    ox: int,
    oy: int,
    fx: ScaleFactor,
    fy: ScaleFactor,
) -> bool {
    &&& newd.len() == oldd.len()
    &&& forall|i: int| 0 <= i < oldd.len() ==> (#[trigger] newd[i])@.len() == oldd[i]@.len()
    &&& forall|i: int, j: int|
        0 <= i < oldd.len() && 0 <= j < oldd[i]@.len() ==> {
            &&& (#[trigger] newd[i]@[j]).x == scale_coord_spec(
                oldd[i]@[j].x as int,
                fx.num as int,
                fx.den as int,
                ox,
            )
            &&& newd[i]@[j].y == scale_coord_spec(
                oldd[i]@[j].y as int,
                fy.num as int,
                fy.den as int,
                oy,
            )
        }
}

/// Apply a caller-chosen per-axis transform to every point of the drawing:
/// each `(x, y)` becomes `(x * fx + ox, y * fy + oy)`. No bounds checking is
/// done; the caller is responsible for keeping the result drawable.
pub fn scale_polylines(
    polylines: &mut Vec<Polyline>,
    offset: (i64, i64),
    scale: (ScaleFactor, ScaleFactor),
)
    requires
        drawing_wf(old(polylines)@),
        -COORD_LIMIT <= offset.0 <= COORD_LIMIT,
        -COORD_LIMIT <= offset.1 <= COORD_LIMIT,
        scale.0.wf(),
        scale.1.wf(),
    ensures
        scaled_drawing(
            old(polylines)@,
            final(polylines)@,
            offset.0 as int,
            offset.1 as int,
            scale.0,
            scale.1,
        ),
{
    let n = polylines.len();
    let mut out: Vec<Polyline> = Vec::new();
    let mut i: usize = 0;
    while i < n
        invariant
            n == polylines@.len(),
            drawing_wf(polylines@),
            -COORD_LIMIT <= offset.0 <= COORD_LIMIT,
            -COORD_LIMIT <= offset.1 <= COORD_LIMIT,
            scale.0.wf(),
            scale.1.wf(),
            i <= n,
            out@.len() == i as int,
            forall|k: int| 0 <= k < i ==> (#[trigger] out@[k])@.len() == polylines@[k]@.len(),
            forall|k: int, j: int|
                0 <= k < i && 0 <= j < polylines@[k]@.len() ==> {
                    &&& (#[trigger] out@[k]@[j]).x == scale_coord_spec(
                        polylines@[k]@[j].x as int,
                        scale.0.num as int,
                        scale.0.den as int,
                        offset.0 as int,
                    )
                    &&& out@[k]@[j].y == scale_coord_spec(
                        polylines@[k]@[j].y as int,
                        scale.1.num as int,
                        scale.1.den as int,
                        offset.1 as int,
                    )
                },
        decreases n - i,
    {
        let m = polylines[i].len();
        let mut line: Polyline = Vec::new();
        let mut j: usize = 0;
        while j < m
            invariant
                n == polylines@.len(),
                drawing_wf(polylines@),
                -COORD_LIMIT <= offset.0 <= COORD_LIMIT,
                -COORD_LIMIT <= offset.1 <= COORD_LIMIT,
                scale.0.wf(),
                scale.1.wf(),
                i < n,
                m == polylines@[i as int]@.len(),
                j <= m,
                line@.len() == j as int,
                forall|t: int|
                    0 <= t < j ==> {
                        &&& (#[trigger] line@[t]).x == scale_coord_spec(
                            polylines@[i as int]@[t].x as int,
                            scale.0.num as int,
                            scale.0.den as int,
                            offset.0 as int,
                        )
                        &&& line@[t].y == scale_coord_spec(
                            polylines@[i as int]@[t].y as int,
                            scale.1.num as int,
                            scale.1.den as int,
                            offset.1 as int,
                        )
                    },
            decreases m - j,
        {
            let p = polylines[i][j];
            assert(point_wf(p));
            let nx = scale_coord(p.x, scale.0, offset.0);
            let ny = scale_coord(p.y, scale.1, offset.1);
            line.push(Point { x: nx, y: ny });
            j = j + 1;
        }
        out.push(line);
        i = i + 1;
    }
    *polylines = out;
}

/// The unit factor: scaling by it changes nothing.
pub open spec fn unit_factor() -> ScaleFactor {
    ScaleFactor { num: 1, den: 1 }
}

/// Scaling a coordinate by the unit factor with zero offset is the identity.
pub proof fn lemma_unit_scale_identity(x: int)
    ensures
        scale_coord_spec(x, 1, 1, 0) == x,
{
    if x >= 0 {
        lemma_div_multiples_vanish(x, 1);
    } else {
        lemma_div_multiples_vanish(-x, 1);
    }
}

/// Scaling a drawing with zero offsets and unit factors on both axes leaves
/// every point of every stroke unchanged.
pub proof fn lemma_scale_identity(d: Seq<Polyline>, nd: Seq<Polyline>)
    requires
        scaled_drawing(d, nd, 0, 0, unit_factor(), unit_factor()),
    ensures
        nd.len() == d.len(),
        forall|i: int| 0 <= i < d.len() ==> (#[trigger] nd[i])@ == d[i]@,
{
    assert forall|i: int| 0 <= i < d.len() implies (#[trigger] nd[i])@ == d[i]@ by {
        assert forall|j: int| 0 <= j < d[i]@.len() implies nd[i]@[j] == d[i]@[j] by {
            lemma_unit_scale_identity(d[i]@[j].x as int);
            lemma_unit_scale_identity(d[i]@[j].y as int);
        }
        assert(nd[i]@ =~= d[i]@);
    }
}

/// Division by a positive divisor is exact on multiples, whatever the sign.
proof fn lemma_trunc_div_exact(k: int, n: int)
    requires
        1 <= n,
    ensures
        trunc_div(n * k, n) == k,
{
    if n * k >= 0 {
        assert(k >= 0) by (nonlinear_arith)
            requires n * k >= 0 && n >= 1;
        lemma_div_multiples_vanish(k, n);
    } else {
        assert(k < 0) by (nonlinear_arith)
            requires n * k < 0 && n >= 1;
        lemma_div_multiples_vanish(-k, n);
        assert(-(n * k) == n * (-k)) by (nonlinear_arith);
    }
}

/// Scaling a coordinate by a whole-number factor `n` with an offset
/// divisible by `n`, then scaling by the inverse factor `1/n` with the
/// inverse offset, restores the coordinate exactly.
pub proof fn lemma_scale_coord_round_trip(x: int, n: int, o: int)
    requires
        1 <= n,
        o % n == 0,
    ensures
        scale_coord_spec(scale_coord_spec(x, n, 1, o), 1, n, -(o / n)) == x,
{
    lemma_trunc_div_exact(x * n, 1);
    assert(1 * (x * n) == x * n) by (nonlinear_arith);
    let y = x * n + o;
    lemma_fundamental_div_mod(o, n);
    assert(o == n * (o / n));
    assert(y == n * (x + o / n)) by (nonlinear_arith)
        requires y == x * n + o && o == n * (o / n);
    lemma_trunc_div_exact(x + o / n, n);
    assert(y * 1 == y) by (nonlinear_arith);
}

/// Scaling a drawing by a whole-number factor `n >= 1` on both axes (with
/// offsets divisible by `n`), then by the inverse factor and offsets,
/// round-trips every point exactly.
pub proof fn lemma_scale_round_trip(
    d: Seq<Polyline>,
    mid: Seq<Polyline>,
    back: Seq<Polyline>,
    n: i64,
    ox: i64,
    oy: i64,
)
    requires
        1 <= n <= FACTOR_LIMIT,
        ox as int % (n as int) == 0,
        oy as int % (n as int) == 0,
        scaled_drawing(d, mid, ox as int, oy as int, ScaleFactor { num: n, den: 1 }, ScaleFactor { num: n, den: 1 }),
        scaled_drawing(
            mid,
            back,
            -((ox as int) / (n as int)),
            -((oy as int) / (n as int)),
            ScaleFactor { num: 1, den: n },
            ScaleFactor { num: 1, den: n },
        ),
    ensures
        back.len() == d.len(),
        forall|i: int| 0 <= i < d.len() ==> (#[trigger] back[i])@ == d[i]@,
{
    assert forall|i: int| 0 <= i < d.len() implies (#[trigger] back[i])@ == d[i]@ by {
        assert forall|j: int| 0 <= j < d[i]@.len() implies back[i]@[j] == d[i]@[j] by {
            lemma_scale_coord_round_trip(d[i]@[j].x as int, n as int, ox as int);
            lemma_scale_coord_round_trip(d[i]@[j].y as int, n as int, oy as int);
        }
        assert(back[i]@ =~= d[i]@);
    }
}

/// Sentinel above every accepted coordinate; the bounding box of an empty
/// point set starts from it.
pub open spec fn coord_inf() -> int {
    COORD_LIMIT as int + 1
}

pub open spec fn line_min_x(l: Seq<Point>) -> int
    decreases l.len(),
{
    if l.len() == 0 {
        coord_inf()
    } else {
        min(line_min_x(l.drop_last()), l.last().x as int)
    }
}

pub open spec fn line_max_x(l: Seq<Point>) -> int
    decreases l.len(),
{
    if l.len() == 0 {
        -coord_inf()
    } else {
        max(line_max_x(l.drop_last()), l.last().x as int)
    }
}

pub open spec fn line_min_y(l: Seq<Point>) -> int
    decreases l.len(),
{
    if l.len() == 0 {
        coord_inf()
    } else {
        min(line_min_y(l.drop_last()), l.last().y as int)
    }
}

pub open spec fn line_max_y(l: Seq<Point>) -> int
    decreases l.len(),
{
    if l.len() == 0 {
        -coord_inf()
    } else {
        max(line_max_y(l.drop_last()), l.last().y as int)
    }
}

/// Smallest x coordinate of any point of the drawing (the sentinel when the
/// drawing has no points).
pub open spec fn drawing_min_x(s: Seq<Polyline>) -> int
    decreases s.len(),
{
    if s.len() == 0 {
        coord_inf()
    } else {
        min(drawing_min_x(s.drop_last()), line_min_x(s.last()@))
    }
}

pub open spec fn drawing_max_x(s: Seq<Polyline>) -> int
    decreases s.len(),
{
    if s.len() == 0 {
        -coord_inf()
    } else {
        max(drawing_max_x(s.drop_last()), line_max_x(s.last()@))
    }
}

pub open spec fn drawing_min_y(s: Seq<Polyline>) -> int
    decreases s.len(),
{
    if s.len() == 0 {
        coord_inf()
    } else {
        min(drawing_min_y(s.drop_last()), line_min_y(s.last()@))
    }
}

pub open spec fn drawing_max_y(s: Seq<Polyline>) -> int
    decreases s.len(),
{
    if s.len() == 0 {
        -coord_inf()
    } else {
        max(drawing_max_y(s.drop_last()), line_max_y(s.last()@))
    }
}

/// Every point lies inside the drawing's bounding box.
pub proof fn lemma_line_bbox_le(l: Seq<Point>, j: int)
    requires
        0 <= j < l.len(),
    ensures
        line_min_x(l) <= l[j].x,
        l[j].x <= line_max_x(l),
        line_min_y(l) <= l[j].y,
        l[j].y <= line_max_y(l),
    decreases l.len(),
{
    if j < l.len() - 1 {
        lemma_line_bbox_le(l.drop_last(), j);
        assert(l.drop_last()[j] == l[j]);
    }
}

pub proof fn lemma_drawing_bbox_le(s: Seq<Polyline>, i: int, j: int)
    requires
        0 <= i < s.len(),
        0 <= j < s[i]@.len(),
    ensures
        drawing_min_x(s) <= s[i]@[j].x,
        s[i]@[j].x <= drawing_max_x(s),
        drawing_min_y(s) <= s[i]@[j].y,
        s[i]@[j].y <= drawing_max_y(s),
    decreases s.len(),
{
    if i < s.len() - 1 {
        lemma_drawing_bbox_le(s.drop_last(), i, j);
        assert(s.drop_last()[i] == s[i]);
    } else {
        lemma_line_bbox_le(s.last()@, j);
    }
}

/// Each side of the bounding box of a nonempty stroke is attained by a point.
proof fn lemma_line_bbox_attained(l: Seq<Point>)
    requires
        l.len() > 0,
        line_wf(l),
    ensures
        exists|j: int| 0 <= j < l.len() && (#[trigger] l[j]).x == line_min_x(l),
        exists|j: int| 0 <= j < l.len() && (#[trigger] l[j]).x == line_max_x(l),
        exists|j: int| 0 <= j < l.len() && (#[trigger] l[j]).y == line_min_y(l),
        exists|j: int| 0 <= j < l.len() && (#[trigger] l[j]).y == line_max_y(l),
    decreases l.len(),
{
    let last = l.len() - 1;
    if l.len() == 1 {
        assert(point_wf(l[0]));
        assert(line_min_x(l.drop_last()) == coord_inf());
        assert(line_max_x(l.drop_last()) == -coord_inf());
        assert(line_min_y(l.drop_last()) == coord_inf());
        assert(line_max_y(l.drop_last()) == -coord_inf());
        assert((#[trigger] l[last]).x == line_min_x(l));
        assert(l[last].x == line_max_x(l));
        assert(l[last].y == line_min_y(l));
        assert(l[last].y == line_max_y(l));
    } else {
        assert(line_wf(l.drop_last())) by {
            assert(forall|j: int|
                0 <= j < l.drop_last().len() ==> (#[trigger] l.drop_last()[j]) == l[j]);
        }
        lemma_line_bbox_attained(l.drop_last());
        if line_min_x(l.drop_last()) <= l[last].x {
            let w = choose|j: int|
                0 <= j < l.drop_last().len() && (#[trigger] l.drop_last()[j]).x == line_min_x(
                    l.drop_last(),
                );
            assert((#[trigger] l[w]).x == line_min_x(l));
        } else {
            assert((#[trigger] l[last]).x == line_min_x(l));
        }
        if line_max_x(l.drop_last()) >= l[last].x {
            let w = choose|j: int|
                0 <= j < l.drop_last().len() && (#[trigger] l.drop_last()[j]).x == line_max_x(
                    l.drop_last(),
                );
            assert((#[trigger] l[w]).x == line_max_x(l));
        } else {
            assert((#[trigger] l[last]).x == line_max_x(l));
        }
        if line_min_y(l.drop_last()) <= l[last].y {
            let w = choose|j: int|
                0 <= j < l.drop_last().len() && (#[trigger] l.drop_last()[j]).y == line_min_y(
                    l.drop_last(),
                );
            assert((#[trigger] l[w]).y == line_min_y(l));
        } else {
            assert((#[trigger] l[last]).y == line_min_y(l));
        }
        if line_max_y(l.drop_last()) >= l[last].y {
            let w = choose|j: int|
                0 <= j < l.drop_last().len() && (#[trigger] l.drop_last()[j]).y == line_max_y(
                    l.drop_last(),
                );
            assert((#[trigger] l[w]).y == line_max_y(l));
        } else {
            assert((#[trigger] l[last]).y == line_max_y(l));
        }
    }
}

/// Each side of the bounding box of a drawing with at least one nonempty
/// stroke is attained by a point of the drawing.
pub proof fn lemma_drawing_bbox_attained(s: Seq<Polyline>)
    requires
        s.len() > 0,
        drawing_wf(s),
        lines_nonempty(s),
    ensures
        exists|i: int, j: int|
            0 <= i < s.len() && 0 <= j < s[i]@.len() && (#[trigger] s[i]@[j]).x == drawing_min_x(s),
        exists|i: int, j: int|
            0 <= i < s.len() && 0 <= j < s[i]@.len() && (#[trigger] s[i]@[j]).x == drawing_max_x(s),
        exists|i: int, j: int|
            0 <= i < s.len() && 0 <= j < s[i]@.len() && (#[trigger] s[i]@[j]).y == drawing_min_y(s),
        exists|i: int, j: int|
            0 <= i < s.len() && 0 <= j < s[i]@.len() && (#[trigger] s[i]@[j]).y == drawing_max_y(s),
    decreases s.len(),
{
    let last = s.len() - 1;
    assert(line_wf(s[last]@));
    assert(s[last]@.len() > 0);
    lemma_line_bbox_attained(s.last()@);
    if s.len() == 1 {
        assert(drawing_min_x(s.drop_last()) == coord_inf());
        assert(drawing_max_x(s.drop_last()) == -coord_inf());
        assert(drawing_min_y(s.drop_last()) == coord_inf());
        assert(drawing_max_y(s.drop_last()) == -coord_inf());
        let wx = choose|j: int|
            0 <= j < s.last()@.len() && (#[trigger] s.last()@[j]).x == line_min_x(s.last()@);
        assert(point_wf(s[last]@[wx]));
        assert((#[trigger] s[last]@[wx]).x == drawing_min_x(s));
        let wx2 = choose|j: int|
            0 <= j < s.last()@.len() && (#[trigger] s.last()@[j]).x == line_max_x(s.last()@);
        assert(point_wf(s[last]@[wx2]));
        assert((#[trigger] s[last]@[wx2]).x == drawing_max_x(s));
        let wy = choose|j: int|
            0 <= j < s.last()@.len() && (#[trigger] s.last()@[j]).y == line_min_y(s.last()@);
        assert(point_wf(s[last]@[wy]));
        assert((#[trigger] s[last]@[wy]).y == drawing_min_y(s));
        let wy2 = choose|j: int|
            0 <= j < s.last()@.len() && (#[trigger] s.last()@[j]).y == line_max_y(s.last()@);
        assert(point_wf(s[last]@[wy2]));
        assert((#[trigger] s[last]@[wy2]).y == drawing_max_y(s));
    } else {
        assert(lines_nonempty(s.drop_last()) && drawing_wf(s.drop_last())) by {
            assert(forall|i: int|
                0 <= i < s.drop_last().len() ==> (#[trigger] s.drop_last()[i]) == s[i]);
        }
        lemma_drawing_bbox_attained(s.drop_last());
        if drawing_min_x(s.drop_last()) <= line_min_x(s.last()@) {
            let (wi, wj) = choose|i: int, j: int|
                0 <= i < s.drop_last().len() && 0 <= j < s.drop_last()[i]@.len() && (#[trigger] s
                    .drop_last()[i]@[j]).x == drawing_min_x(s.drop_last());
            assert(s.drop_last()[wi] == s[wi]);
            assert((#[trigger] s[wi]@[wj]).x == drawing_min_x(s));
        } else {
            let wj = choose|j: int|
                0 <= j < s.last()@.len() && (#[trigger] s.last()@[j]).x == line_min_x(s.last()@);
            assert((#[trigger] s[last]@[wj]).x == drawing_min_x(s));
        }
        if drawing_max_x(s.drop_last()) >= line_max_x(s.last()@) {
            let (wi, wj) = choose|i: int, j: int|
                0 <= i < s.drop_last().len() && 0 <= j < s.drop_last()[i]@.len() && (#[trigger] s
                    .drop_last()[i]@[j]).x == drawing_max_x(s.drop_last());
            assert(s.drop_last()[wi] == s[wi]);
            assert((#[trigger] s[wi]@[wj]).x == drawing_max_x(s));
        } else {
            let wj = choose|j: int|
                0 <= j < s.last()@.len() && (#[trigger] s.last()@[j]).x == line_max_x(s.last()@);
            assert((#[trigger] s[last]@[wj]).x == drawing_max_x(s));
        }
        if drawing_min_y(s.drop_last()) <= line_min_y(s.last()@) {
            let (wi, wj) = choose|i: int, j: int|
                0 <= i < s.drop_last().len() && 0 <= j < s.drop_last()[i]@.len() && (#[trigger] s
                    .drop_last()[i]@[j]).y == drawing_min_y(s.drop_last());
            assert(s.drop_last()[wi] == s[wi]);
            assert((#[trigger] s[wi]@[wj]).y == drawing_min_y(s));
        } else {
            let wj = choose|j: int|
                0 <= j < s.last()@.len() && (#[trigger] s.last()@[j]).y == line_min_y(s.last()@);
            assert((#[trigger] s[last]@[wj]).y == drawing_min_y(s));
        }
        if drawing_max_y(s.drop_last()) >= line_max_y(s.last()@) {
            let (wi, wj) = choose|i: int, j: int|
                0 <= i < s.drop_last().len() && 0 <= j < s.drop_last()[i]@.len() && (#[trigger] s
                    .drop_last()[i]@[j]).y == drawing_max_y(s.drop_last());
            assert(s.drop_last()[wi] == s[wi]);
            assert((#[trigger] s[wi]@[wj]).y == drawing_max_y(s));
        } else {
            let wj = choose|j: int|
                0 <= j < s.last()@.len() && (#[trigger] s.last()@[j]).y == line_max_y(s.last()@);
            assert((#[trigger] s[last]@[wj]).y == drawing_max_y(s));
        }
    }
}

/// The bounding box of a well-formed nonempty drawing has coordinates in the
/// accepted range, and each minimum is at most the matching maximum.
pub proof fn lemma_drawing_bbox_range(s: Seq<Polyline>)
    requires
        s.len() > 0,
        drawing_wf(s),
        lines_nonempty(s),
    ensures
        -COORD_LIMIT <= drawing_min_x(s),
        drawing_max_x(s) <= COORD_LIMIT,
        drawing_min_x(s) <= drawing_max_x(s),
        -COORD_LIMIT <= drawing_min_y(s),
        drawing_max_y(s) <= COORD_LIMIT,
        drawing_min_y(s) <= drawing_max_y(s),
{
    lemma_drawing_bbox_attained(s);
    let (ai, aj) = choose|i: int, j: int|
        0 <= i < s.len() && 0 <= j < s[i]@.len() && (#[trigger] s[i]@[j]).x == drawing_min_x(s);
    lemma_drawing_bbox_le(s, ai, aj);
    let (bi, bj) = choose|i: int, j: int|
        0 <= i < s.len() && 0 <= j < s[i]@.len() && (#[trigger] s[i]@[j]).x == drawing_max_x(s);
    lemma_drawing_bbox_le(s, bi, bj);
    let (ci, cj) = choose|i: int, j: int|
        0 <= i < s.len() && 0 <= j < s[i]@.len() && (#[trigger] s[i]@[j]).y == drawing_min_y(s);
    lemma_drawing_bbox_le(s, ci, cj);
    let (di, dj) = choose|i: int, j: int|
        0 <= i < s.len() && 0 <= j < s[i]@.len() && (#[trigger] s[i]@[j]).y == drawing_max_y(s);
    lemma_drawing_bbox_le(s, di, dj);
}

/// Compute the drawing's bounding box as `(min_x, max_x, min_y, max_y)`.
/// A drawing without points yields the sentinel box.
pub fn bounding_box(polylines: &Vec<Polyline>) -> (r: (i64, i64, i64, i64))
    requires
        drawing_wf(polylines@),
    ensures
        r.0 == drawing_min_x(polylines@),
        r.1 == drawing_max_x(polylines@),
        r.2 == drawing_min_y(polylines@),
        r.3 == drawing_max_y(polylines@),
{
    let ghost s = polylines@;
    let n = polylines.len();
    let mut min_x: i64 = COORD_LIMIT + 1;
    let mut max_x: i64 = -COORD_LIMIT - 1;
    let mut min_y: i64 = COORD_LIMIT + 1;
    let mut max_y: i64 = -COORD_LIMIT - 1;
    let mut i: usize = 0;
    proof {
        assert(s.take(0) =~= Seq::<Polyline>::empty());
    }
    while i < n
        invariant
            s == polylines@,
            drawing_wf(s),
            n == s.len(),
            i <= n,
            min_x == drawing_min_x(s.take(i as int)),
            max_x == drawing_max_x(s.take(i as int)),
            min_y == drawing_min_y(s.take(i as int)),
            max_y == drawing_max_y(s.take(i as int)),
            -COORD_LIMIT - 1 <= min_x <= COORD_LIMIT + 1,
            -COORD_LIMIT - 1 <= max_x <= COORD_LIMIT + 1,
            -COORD_LIMIT - 1 <= min_y <= COORD_LIMIT + 1,
            -COORD_LIMIT - 1 <= max_y <= COORD_LIMIT + 1,
        decreases n - i,
    {
        let ghost t = s[i as int]@;
        let m = polylines[i].len();
        let mut j: usize = 0;
        proof {
            assert(t.take(0) =~= Seq::<Point>::empty());
        }
        while j < m
            invariant
                s == polylines@,
                drawing_wf(s),
                n == s.len(),
                i < n,
                t == s[i as int]@,
                m == t.len(),
                j <= m,
                min_x == min(drawing_min_x(s.take(i as int)), line_min_x(t.take(j as int))),
                max_x == max(drawing_max_x(s.take(i as int)), line_max_x(t.take(j as int))),
                min_y == min(drawing_min_y(s.take(i as int)), line_min_y(t.take(j as int))),
                max_y == max(drawing_max_y(s.take(i as int)), line_max_y(t.take(j as int))),
                -COORD_LIMIT - 1 <= min_x <= COORD_LIMIT + 1,
                -COORD_LIMIT - 1 <= max_x <= COORD_LIMIT + 1,
                -COORD_LIMIT - 1 <= min_y <= COORD_LIMIT + 1,
                -COORD_LIMIT - 1 <= max_y <= COORD_LIMIT + 1,
            decreases m - j,
        {
            let p = polylines[i][j];
            assert(point_wf(p));
            proof {
                assert(t.take(j as int + 1).drop_last() =~= t.take(j as int));
                assert(t.take(j as int + 1).last() == t[j as int]);
            }
            if p.x < min_x {
                min_x = p.x;
            }
            if p.x > max_x {
                max_x = p.x;
            }
            if p.y < min_y {
                min_y = p.y;
            }
            if p.y > max_y {
                max_y = p.y;
            }
            j = j + 1;
        }
        proof {
            assert(t.take(m as int) =~= t);
            assert(s.take(i as int + 1).drop_last() =~= s.take(i as int));
            assert(s.take(i as int + 1).last() == s[i as int]);
        }
        i = i + 1;
    }
    proof {
        assert(s.take(n as int) =~= s);
    }
    (min_x, max_x, min_y, max_y)
}

/// Error of the fitting operation.
#[derive(Clone, Copy, PartialEq, Eq, Structural, Debug)]
pub enum ScaleError {
    /// The drawing has no strokes at all.
    EmptyDrawing,
    /// The drawing's bounding box has zero extent on both axes, so no
    /// meaningful scale exists.
    DegenerateDrawing,
}

/// Width of the drawing's bounding box.
pub open spec fn span_x(s: Seq<Polyline>) -> int {
    drawing_max_x(s) - drawing_min_x(s)
}

/// Height of the drawing's bounding box.
pub open spec fn span_y(s: Seq<Polyline>) -> int {
    drawing_max_y(s) - drawing_min_y(s)
}

/// A drawing can be fitted when it has a stroke and its bounding box has
/// extent on at least one axis. A drawing degenerate on a single axis is
/// still fittable: the zero-extent axis stays at zero extent and is centered.
pub open spec fn fittable(s: Seq<Polyline>) -> bool {
    s.len() > 0 && (span_x(s) != 0 || span_y(s) != 0)
}

/// Numerator of the uniform fit factor: the bounds span of the axis with the
/// smaller bounds-to-drawing ratio (a zero-extent drawing axis is skipped).
pub open spec fn fit_num(s: Seq<Polyline>, b: Bounds) -> int {
    let sx = span_x(s);
    let sy = span_y(s);
    let bw = b.x.max - b.x.min;
    let bh = b.y.max - b.y.min;
    if sx == 0 {
        bh
    } else if sy == 0 {
        bw
    } else if bw * sy <= bh * sx {
        bw
    } else {
        bh
    }
}

/// Denominator of the uniform fit factor: the drawing span of the chosen axis.
pub open spec fn fit_den(s: Seq<Polyline>, b: Bounds) -> int {
    let sx = span_x(s);
    let sy = span_y(s);
    let bw = b.x.max - b.x.min;
    let bh = b.y.max - b.y.min;
    if sx == 0 {
        sy
    } else if sy == 0 {
        sx
    } else if bw * sy <= bh * sx {
        sx
    } else {
        sy
    }
}

/// Width of the fitted drawing's bounding box.
pub open spec fn fit_scaled_span_x(s: Seq<Polyline>, b: Bounds) -> int {
    span_x(s) * fit_num(s, b) / fit_den(s, b)
}

/// Height of the fitted drawing's bounding box.
pub open spec fn fit_scaled_span_y(s: Seq<Polyline>, b: Bounds) -> int {
    span_y(s) * fit_num(s, b) / fit_den(s, b)
}

/// Slack left of the fitted drawing, placed so the drawing is centered.
pub open spec fn fit_margin_x(s: Seq<Polyline>, b: Bounds) -> int {
    (b.x.max - b.x.min - fit_scaled_span_x(s, b)) / 2
}

/// Slack below the fitted drawing, placed so the drawing is centered.
pub open spec fn fit_margin_y(s: Seq<Polyline>, b: Bounds) -> int {
    (b.y.max - b.y.min - fit_scaled_span_y(s, b)) / 2
}

/// Where fitting sends an x coordinate of the drawing.
pub open spec fn fit_out_x(s: Seq<Polyline>, b: Bounds, x: int) -> int {
    b.x.min + fit_margin_x(s, b) + (x - drawing_min_x(s)) * fit_num(s, b) / fit_den(s, b)
}

/// Where fitting sends a y coordinate of the drawing.
pub open spec fn fit_out_y(s: Seq<Polyline>, b: Bounds, y: int) -> int {
    b.y.min + fit_margin_y(s, b) + (y - drawing_min_y(s)) * fit_num(s, b) / fit_den(s, b)
}

/// `newd` is `oldd` fitted into `b`: the same strokes in the same order,
/// every point moved by the uniform fit transform.
pub open spec fn fitted_drawing(oldd: Seq<Polyline>, newd: Seq<Polyline>, b: Bounds) -> bool {
    &&& newd.len() == oldd.len()
    &&& forall|i: int| 0 <= i < oldd.len() ==> (#[trigger] newd[i])@.len() == oldd[i]@.len()
    &&& forall|i: int, j: int|
        0 <= i < oldd.len() && 0 <= j < oldd[i]@.len() ==> {
            &&& (#[trigger] newd[i]@[j]).x == fit_out_x(oldd, b, oldd[i]@[j].x as int)
            &&& newd[i]@[j].y == fit_out_y(oldd, b, oldd[i]@[j].y as int)
        }
}

/// Every point of the drawing lies inside the bounds rectangle.
pub open spec fn drawing_within(newd: Seq<Polyline>, b: Bounds) -> bool {
    forall|i: int, j: int|
        0 <= i < newd.len() && 0 <= j < (#[trigger] newd[i])@.len() ==> {
            &&& b.x.min <= (#[trigger] newd[i]@[j]).x <= b.x.max
            &&& b.y.min <= newd[i]@[j].y <= b.y.max
        }
}

/// Some point of the drawing reaches each side of the bounds on the x axis.
pub open spec fn touches_bounds_x(newd: Seq<Polyline>, b: Bounds) -> bool {
    &&& exists|i: int, j: int|
        #![trigger newd[i]@[j]]
        0 <= i < newd.len() && 0 <= j < newd[i]@.len() && newd[i]@[j].x == b.x.min
    &&& exists|i: int, j: int|
        #![trigger newd[i]@[j]]
        0 <= i < newd.len() && 0 <= j < newd[i]@.len() && newd[i]@[j].x == b.x.max
}

/// Some point of the drawing reaches each side of the bounds on the y axis.
pub open spec fn touches_bounds_y(newd: Seq<Polyline>, b: Bounds) -> bool {
    &&& exists|i: int, j: int|
        #![trigger newd[i]@[j]]
        0 <= i < newd.len() && 0 <= j < newd[i]@.len() && newd[i]@[j].y == b.y.min
    &&& exists|i: int, j: int|
        #![trigger newd[i]@[j]]
        0 <= i < newd.len() && 0 <= j < newd[i]@.len() && newd[i]@[j].y == b.y.max
}

/// The drawing spans the full bounds extent on at least one axis.
pub open spec fn touches_bounds(newd: Seq<Polyline>, b: Bounds) -> bool {
    touches_bounds_x(newd, b) || touches_bounds_y(newd, b)
}

/// The uniform fit factor scales each axis's span to fit inside the bounds,
/// exactly filling the bounds span on the chosen axis; the centering margins
/// leave the scaled span inside the bounds.
pub proof fn lemma_fit_factor(s: Seq<Polyline>, b: Bounds)
    requires
        drawing_wf(s),
        lines_nonempty(s),
        b.wf(),
        fittable(s),
    ensures
        1 <= fit_den(s, b) <= 2 * COORD_LIMIT,
        0 <= fit_num(s, b) <= 2 * COORD_LIMIT,
        0 <= fit_scaled_span_x(s, b) <= b.x.max - b.x.min,
        0 <= fit_scaled_span_y(s, b) <= b.y.max - b.y.min,
        fit_scaled_span_x(s, b) == b.x.max - b.x.min || fit_scaled_span_y(s, b) == b.y.max
            - b.y.min,
        0 <= fit_margin_x(s, b),
        fit_margin_x(s, b) + fit_scaled_span_x(s, b) <= b.x.max - b.x.min,
        0 <= fit_margin_y(s, b),
        fit_margin_y(s, b) + fit_scaled_span_y(s, b) <= b.y.max - b.y.min,
{
    lemma_drawing_bbox_range(s);
    let sx = span_x(s);
    let sy = span_y(s);
    let bw = b.x.max - b.x.min;
    let bh = b.y.max - b.y.min;
    let num = fit_num(s, b);
    let den = fit_den(s, b);
    if sx == 0 {
        assert(num == bh && den == sy && sy > 0);
        assert(sx * num == 0) by (nonlinear_arith)
            requires sx == 0;
        lemma_div_of0(den);
        assert(fit_scaled_span_x(s, b) == 0);
        lemma_div_multiples_vanish(bh, sy);
        assert(sy * num == den * bh);
        assert(fit_scaled_span_y(s, b) == bh);
    } else if sy == 0 {
        assert(num == bw && den == sx && sx > 0);
        assert(sy * num == 0) by (nonlinear_arith)
            requires sy == 0;
        lemma_div_of0(den);
        assert(fit_scaled_span_y(s, b) == 0);
        lemma_div_multiples_vanish(bw, sx);
        assert(sx * num == den * bw);
        assert(fit_scaled_span_x(s, b) == bw);
    } else if bw * sy <= bh * sx {
        assert(num == bw && den == sx && sx > 0 && sy > 0);
        lemma_div_multiples_vanish(bw, sx);
        assert(sx * num == den * bw);
        assert(fit_scaled_span_x(s, b) == bw);
        assert(sy * bw <= sx * bh) by (nonlinear_arith)
            requires bw * sy <= bh * sx;
        lemma_div_is_ordered(sy * bw, sx * bh, sx);
        lemma_div_multiples_vanish(bh, sx);
        assert(fit_scaled_span_y(s, b) <= bh);
        assert(sy * bw >= 0) by (nonlinear_arith)
            requires sy >= 0 && bw >= 0;
        lemma_div_pos_is_pos(sy * bw, sx);
    } else {
        assert(num == bh && den == sy && sx > 0 && sy > 0);
        lemma_div_multiples_vanish(bh, sy);
        assert(sy * num == den * bh);
        assert(fit_scaled_span_y(s, b) == bh);
        assert(sx * bh <= sy * bw) by (nonlinear_arith)
            requires bh * sx <= bw * sy;
        lemma_div_is_ordered(sx * bh, sy * bw, sy);
        lemma_div_multiples_vanish(bw, sy);
        assert(fit_scaled_span_x(s, b) <= bw);
        assert(sx * bh >= 0) by (nonlinear_arith)
            requires sx >= 0 && bh >= 0;
        lemma_div_pos_is_pos(sx * bh, sy);
    }
    lemma_div_pos_is_pos(bw - fit_scaled_span_x(s, b), 2);
    lemma_div_nonincreasing(bw - fit_scaled_span_x(s, b), 2);
    lemma_div_pos_is_pos(bh - fit_scaled_span_y(s, b), 2);
    lemma_div_nonincreasing(bh - fit_scaled_span_y(s, b), 2);
}

/// Both axes are scaled by the same rational factor `num / den`; each output
/// span is the input span times that factor, rounded down, so the aspect
/// ratio of the bounding box is preserved to within one device unit per axis.
pub proof fn lemma_fit_aspect(s: Seq<Polyline>, b: Bounds)
    requires
        drawing_wf(s),
        lines_nonempty(s),
        b.wf(),
        fittable(s),
    ensures
        fit_den(s, b) * fit_scaled_span_x(s, b) <= span_x(s) * fit_num(s, b) < fit_den(s, b) * (
        fit_scaled_span_x(s, b) + 1),
        fit_den(s, b) * fit_scaled_span_y(s, b) <= span_y(s) * fit_num(s, b) < fit_den(s, b) * (
        fit_scaled_span_y(s, b) + 1),
{
    lemma_fit_factor(s, b);
    let den = fit_den(s, b);
    let px = span_x(s) * fit_num(s, b);
    let py = span_y(s) * fit_num(s, b);
    lemma_fundamental_div_mod(px, den);
    lemma_mod_bound(px, den);
    lemma_fundamental_div_mod(py, den);
    lemma_mod_bound(py, den);
    assert(den * (px / den + 1) == den * (px / den) + den) by (nonlinear_arith);
    assert(den * (py / den + 1) == den * (py / den) + den) by (nonlinear_arith);
}

/// Scale one coordinate for the fit: translate so the drawing's minimum sits
/// at zero, apply the uniform factor, then shift by the bounds minimum plus
/// the centering margin. The result stays within `bmin ..= bmin + cap`.
fn fit_coord(
    x: i64,
    cmin: i64,
    num: u64,
    den: u64,
    margin: u64,
    bmin: i64,
    span: Ghost<int>,
    cap: Ghost<int>,
) -> (r: i64)
    requires
        -COORD_LIMIT <= cmin <= x <= COORD_LIMIT,
        1 <= den <= 2 * COORD_LIMIT,
        num <= 2 * COORD_LIMIT,
        x - cmin <= span@,
        span@ <= 2 * COORD_LIMIT,
        margin + span@ * (num as int) / (den as int) <= cap@,
        0 <= margin,
        0 <= cap@ <= 2 * COORD_LIMIT,
        -COORD_LIMIT <= bmin,
        bmin + cap@ <= COORD_LIMIT,
    ensures
        r == bmin + margin + (x - cmin) * (num as int) / (den as int),
        bmin <= r <= bmin + cap@,
{
    let dx: u64 = (x - cmin) as u64;
    proof {
        lemma_span_product_bounded(dx as int, num as int);
        lemma_mul_inequality(dx as int, span@, num as int);
        lemma_div_is_ordered(dx as int * num as int, span@ * num as int, den as int);
        lemma_div_pos_is_pos(dx as int * num as int, den as int);
    }
    let p: u64 = dx * num;
    let v: u64 = p / den;
    bmin + ((margin + v) as i64)
}

/// Fit the whole drawing inside `bounds` without distortion: compute the
/// drawing's bounding box, scale both axes by the single factor that makes
/// the tighter axis exactly fill its bounds span, and center the result.
/// Stroke grouping and stroke and point order are preserved. A drawing with
/// no strokes, or one degenerate on both axes, cannot be meaningfully fit
/// and is rejected unchanged; a drawing degenerate on one axis only is fit
/// by the other axis's ratio.
pub fn fit_polylines(polylines: &mut Vec<Polyline>, bounds: &Bounds) -> (r: Result<
    (),
    ScaleError,
>)
    requires
        drawing_wf(old(polylines)@),
        lines_nonempty(old(polylines)@),
        bounds.wf(),
    ensures
        r is Ok <==> fittable(old(polylines)@),
        r == Err::<(), ScaleError>(ScaleError::EmptyDrawing) <==> old(polylines)@.len() == 0,
        r == Err::<(), ScaleError>(ScaleError::DegenerateDrawing) <==> (old(polylines)@.len() > 0
            && !fittable(old(polylines)@)),
        r is Err ==> final(polylines)@ == old(polylines)@,
        r is Ok ==> fitted_drawing(old(polylines)@, final(polylines)@, *bounds),
        r is Ok ==> drawing_within(final(polylines)@, *bounds),
        r is Ok ==> touches_bounds(final(polylines)@, *bounds),
        drawing_wf(final(polylines)@),
        lines_nonempty(final(polylines)@),
{
    let ghost s = old(polylines)@;
    if polylines.len() == 0 {
        return Err(ScaleError::EmptyDrawing);
    }
    let (min_x, max_x, min_y, max_y) = bounding_box(polylines);
    proof {
        lemma_drawing_bbox_range(s);
    }
    let sx = max_x - min_x;
    let sy = max_y - min_y;
    if sx == 0 && sy == 0 {
        return Err(ScaleError::DegenerateDrawing);
    }
    let bw = bounds.x.max - bounds.x.min;
    let bh = bounds.y.max - bounds.y.min;
    proof {
        lemma_span_product_bounded(bw as int, sy as int);
        lemma_span_product_bounded(bh as int, sx as int);
    }
    let (num, den): (u64, u64) = if sx == 0 {
        (bh as u64, sy as u64)
    } else if sy == 0 {
        (bw as u64, sx as u64)
    } else if (bw as u64) * (sy as u64) <= (bh as u64) * (sx as u64) {
        (bw as u64, sx as u64)
    } else {
        (bh as u64, sy as u64)
    };
    proof {
        lemma_fit_factor(s, *bounds);
        assert(num == fit_num(s, *bounds));
        assert(den == fit_den(s, *bounds));
        lemma_span_product_bounded(sx as int, num as int);
        lemma_span_product_bounded(sy as int, num as int);
    }
    let sspan_x: u64 = (sx as u64) * num / den;
    let sspan_y: u64 = (sy as u64) * num / den;
    proof {
        assert(sspan_x == fit_scaled_span_x(s, *bounds));
        assert(sspan_y == fit_scaled_span_y(s, *bounds));
    }
    let margin_x: u64 = ((bw as u64) - sspan_x) / 2;
    let margin_y: u64 = ((bh as u64) - sspan_y) / 2;
    proof {
        assert(margin_x == fit_margin_x(s, *bounds));
        assert(margin_y == fit_margin_y(s, *bounds));
    }
    let n = polylines.len();
    let mut out: Vec<Polyline> = Vec::new();
    let mut i: usize = 0;
    while i < n
        invariant
            s == polylines@,
            drawing_wf(s),
            lines_nonempty(s),
            bounds.wf(),
            fittable(s),
            n == s.len(),
            i <= n,
            min_x == drawing_min_x(s),
            min_y == drawing_min_y(s),
            -COORD_LIMIT <= min_x <= COORD_LIMIT,
            -COORD_LIMIT <= min_y <= COORD_LIMIT,
            num == fit_num(s, *bounds),
            den == fit_den(s, *bounds),
            1 <= den <= 2 * COORD_LIMIT,
            num <= 2 * COORD_LIMIT,
            sx == span_x(s),
            sy == span_y(s),
            0 <= sx <= 2 * COORD_LIMIT,
            0 <= sy <= 2 * COORD_LIMIT,
            margin_x == fit_margin_x(s, *bounds),
            margin_y == fit_margin_y(s, *bounds),
            margin_x + fit_scaled_span_x(s, *bounds) <= bounds.x.max - bounds.x.min,
            margin_y + fit_scaled_span_y(s, *bounds) <= bounds.y.max - bounds.y.min,
            out@.len() == i as int,
            forall|k: int| 0 <= k < i ==> (#[trigger] out@[k])@.len() == s[k]@.len(),
            forall|k: int, j: int|
                0 <= k < i && 0 <= j < s[k]@.len() ==> {
                    &&& (#[trigger] out@[k]@[j]).x == fit_out_x(s, *bounds, s[k]@[j].x as int)
                    &&& out@[k]@[j].y == fit_out_y(s, *bounds, s[k]@[j].y as int)
                    &&& bounds.x.min <= out@[k]@[j].x <= bounds.x.max
                    &&& bounds.y.min <= out@[k]@[j].y <= bounds.y.max
                },
        decreases n - i,
    {
        let m = polylines[i].len();
        let mut line: Polyline = Vec::new();
        let mut j: usize = 0;
        while j < m
            invariant
                s == polylines@,
                drawing_wf(s),
                lines_nonempty(s),
                bounds.wf(),
                fittable(s),
                n == s.len(),
                i < n,
                m == s[i as int]@.len(),
                j <= m,
                min_x == drawing_min_x(s),
                min_y == drawing_min_y(s),
                -COORD_LIMIT <= min_x <= COORD_LIMIT,
                -COORD_LIMIT <= min_y <= COORD_LIMIT,
                num == fit_num(s, *bounds),
                den == fit_den(s, *bounds),
                1 <= den <= 2 * COORD_LIMIT,
                num <= 2 * COORD_LIMIT,
                sx == span_x(s),
                sy == span_y(s),
                0 <= sx <= 2 * COORD_LIMIT,
                0 <= sy <= 2 * COORD_LIMIT,
                margin_x == fit_margin_x(s, *bounds),
                margin_y == fit_margin_y(s, *bounds),
                margin_x + fit_scaled_span_x(s, *bounds) <= bounds.x.max - bounds.x.min,
                margin_y + fit_scaled_span_y(s, *bounds) <= bounds.y.max - bounds.y.min,
                line@.len() == j as int,
                forall|t: int|
                    0 <= t < j ==> {
                        &&& (#[trigger] line@[t]).x == fit_out_x(s, *bounds, s[i as int]@[t].x as int)
                        &&& line@[t].y == fit_out_y(s, *bounds, s[i as int]@[t].y as int)
                        &&& bounds.x.min <= line@[t].x <= bounds.x.max
                        &&& bounds.y.min <= line@[t].y <= bounds.y.max
                    },
            decreases m - j,
        {
            let p = polylines[i][j];
            proof {
                assert(point_wf(p));
                lemma_drawing_bbox_le(s, i as int, j as int);
            }
            let nx = fit_coord(
                p.x,
                min_x,
                num,
                den,
                margin_x,
                bounds.x.min,
                Ghost(span_x(s)),
                Ghost((bounds.x.max - bounds.x.min) as int),
            );
            let ny = fit_coord(
                p.y,
                min_y,
                num,
                den,
                margin_y,
                bounds.y.min,
                Ghost(span_y(s)),
                Ghost((bounds.y.max - bounds.y.min) as int),
            );
            line.push(Point { x: nx, y: ny });
            j = j + 1;
        }
        out.push(line);
        i = i + 1;
    }
    proof {
        lemma_drawing_bbox_attained(s);
        let (ai, aj) = choose|i: int, j: int|
            0 <= i < s.len() && 0 <= j < s[i]@.len() && (#[trigger] s[i]@[j]).x == drawing_min_x(s);
        let (bi, bj) = choose|i: int, j: int|
            0 <= i < s.len() && 0 <= j < s[i]@.len() && (#[trigger] s[i]@[j]).x == drawing_max_x(s);
        let (ci, cj) = choose|i: int, j: int|
            0 <= i < s.len() && 0 <= j < s[i]@.len() && (#[trigger] s[i]@[j]).y == drawing_min_y(s);
        let (di, dj) = choose|i: int, j: int|
            0 <= i < s.len() && 0 <= j < s[i]@.len() && (#[trigger] s[i]@[j]).y == drawing_max_y(s);
        lemma_div_of0(den as int);
        if fit_scaled_span_x(s, *bounds) == bounds.x.max - bounds.x.min {
            assert(fit_margin_x(s, *bounds) == 0);
            assert(out@[ai]@[aj].x == bounds.x.min);
            assert(out@[bi]@[bj].x == bounds.x.max);
        } else {
            assert(fit_scaled_span_y(s, *bounds) == bounds.y.max - bounds.y.min);
            assert(fit_margin_y(s, *bounds) == 0);
            assert(out@[ci]@[cj].y == bounds.y.min);
            assert(out@[di]@[dj].y == bounds.y.max);
        }
    }
    *polylines = out;
    Ok(())
}

} // verus!
