//! How far a closed boundary path runs on straight from each of its points:
//! the corner table, the pivot of every point, and the longest straight
//! run, as the polygon stage of the tracer reads them.
use vstd::prelude::*;
use crate::potrace::IPoint;
use crate::potrace::Bitmap;
use crate::decompose::{TracePath, decomposed_path, on_bitmap, unit_step};

verus! {

/// The largest coordinate a traced path can have.
pub open spec fn coord_max() -> int {
    i32::MAX - 16
}

/// The index after `k` on a closed path of `n` points.
pub open spec fn succ(k: int, n: int) -> int {
    if k + 1 == n {
        0
    } else {
        k + 1
    }
}

/// A closed path of lattice points, each one unit step from the next and
/// the last from the first, on non-negative coordinates.
pub open spec fn closed_lattice(pts: Seq<IPoint>) -> bool {
    &&& 2 <= pts.len() <= i32::MAX
    &&& forall|k: int| 0 <= k < pts.len() ==> unit_step(#[trigger] pts[k], pts[succ(k, pts.len() as int)])
    &&& forall|k: int|
        0 <= k < pts.len() ==> 0 <= (#[trigger] pts[k]).x <= coord_max() && 0 <= pts[k].y
            <= coord_max()
}

/// Two points differ in both coordinates.
pub open spec fn both_differ(a: IPoint, b: IPoint) -> bool {
    a.x != b.x && a.y != b.y
}

/// The corner table, scanned from the last point back: a point whose
/// successor's corner differs from it in both coordinates is followed by a
/// corner at the next point; otherwise it shares its successor's corner.
/// The scan starts from point 0.
pub open spec fn corner(pts: Seq<IPoint>, i: int) -> int
    decreases pts.len() - i,
{
    let k = if i + 1 >= pts.len() {
        0
    } else {
        corner(pts, i + 1)
    };
    if both_differ(pts[i], pts[k]) {
        i + 1
    } else {
        k
    }
}

/// The sign of `v`.
pub open spec fn sgn(v: int) -> int {
    if v > 0 {
        1
    } else if v < 0 {
        -1
    } else {
        0
    }
}

/// The direction class of a step with signs `(sx, sy)`: `(3 + 3 sx + sy) / 2`
/// rounded toward zero.
pub open spec fn dir_of(sx: int, sy: int) -> int {
    let v = 3 + 3 * sx + sy;
    if v < 0 {
        0
    } else {
        v / 2
    }
}

/// Counts one more step of direction class `d`.
pub open spec fn bump(ct: (int, int, int, int), d: int) -> (int, int, int, int) {
    if d == 0 {
        (ct.0 + 1, ct.1, ct.2, ct.3)
    } else if d == 1 {
        (ct.0, ct.1 + 1, ct.2, ct.3)
    } else if d == 2 {
        (ct.0, ct.1, ct.2 + 1, ct.3)
    } else {
        (ct.0, ct.1, ct.2, ct.3 + 1)
    }
}

/// All four direction classes have been seen.
pub open spec fn all_seen(ct: (int, int, int, int)) -> bool {
    ct.0 != 0 && ct.1 != 0 && ct.2 != 0 && ct.3 != 0
}

/// The cross product of `(ax, ay)` and `(bx, by)`.
pub open spec fn cross(ax: int, ay: int, bx: int, by: int) -> int {
    ax * by - ay * bx
}

/// The first constraint candidate for the offset `(cx, cy)`.
pub open spec fn off_left(cx: int, cy: int) -> (int, int) {
    (
        cx + if cy >= 0 && (cy > 0 || cx < 0) {
            1
        } else {
            -1
        },
        cy + if cx <= 0 && (cx < 0 || cy < 0) {
            1
        } else {
            -1
        },
    )
}

/// The second constraint candidate for the offset `(cx, cy)`.
pub open spec fn off_right(cx: int, cy: int) -> (int, int) {
    (
        cx + if cy <= 0 && (cy < 0 || cx < 0) {
            1
        } else {
            -1
        },
        cy + if cx >= 0 && (cx > 0 || cy < 0) {
            1
        } else {
            -1
        },
    )
}

/// The two constraints after taking in the offset `(cx, cy)`: offsets of at
/// most one unit in each coordinate leave them; otherwise each candidate
/// replaces its constraint when it does not lie on the wrong side of it.
pub open spec fn constrain(c: (int, int, int, int), cx: int, cy: int) -> (int, int, int, int) {
    if -1 <= cx <= 1 && -1 <= cy <= 1 {
        c
    } else {
        let l = off_left(cx, cy);
        let r = off_right(cx, cy);
        (
            if cross(c.0, c.1, l.0, l.1) >= 0 {
                l.0
            } else {
                c.0
            },
            if cross(c.0, c.1, l.0, l.1) >= 0 {
                l.1
            } else {
                c.1
            },
            if cross(c.2, c.3, r.0, r.1) <= 0 {
                r.0
            } else {
                c.2
            },
            if cross(c.2, c.3, r.0, r.1) <= 0 {
                r.1
            } else {
                c.3
            },
        )
    }
}

/// Whether `b` lies in the cyclic interval from `a` (inclusive) to `c` (exclusive).
pub open spec fn cyc(a: int, b: int, c: int) -> bool {
    if a <= c {
        a <= b && b < c
    } else {
        a <= b || b < c
    }
}

/// Where the run from `i` ends when the corner `k` after `k1` breaks the
/// constraints `c`: the last point between `k1` and `k` that keeps them,
/// counted from `k1` along the step direction and taken modulo `n`.
pub open spec fn pivot_at(pts: Seq<IPoint>, i: int, k: int, k1: int, c: (int, int, int, int)) -> int {
    let n = pts.len() as int;
    let dkx = sgn(pts[k].x - pts[k1].x);
    let dky = sgn(pts[k].y - pts[k1].y);
    let ux = pts[k1].x - pts[i].x;
    let uy = pts[k1].y - pts[i].y;
    let a = cross(c.0, c.1, ux, uy);
    let b = cross(c.0, c.1, dkx, dky);
    let cc = cross(c.2, c.3, ux, uy);
    let d = cross(c.2, c.3, dkx, dky);
    let j1 = if b < 0 {
        a / (-b)
    } else {
        i32::MAX as int
    };
    let j = if d > 0 && (-cc) / d < j1 {
        (-cc) / d
    } else {
        j1
    };
    (k1 + j) % n
}

/// The walk from `i` over the corners: at corner `k` after `k1`, with
/// direction counts `ct` and constraints `c`, and at most `fuel` more corners.
/// It ends at `k1` once all four direction classes are seen, at the pivot
/// when `k` breaks the constraints, and at 0 when it comes round past `i` or
/// runs out of corners.
pub open spec fn pivot_walk(
    pts: Seq<IPoint>,
    i: int,
    k: int,
    k1: int,
    ct: (int, int, int, int),
    c: (int, int, int, int),
    fuel: nat,
) -> int
    decreases fuel,
{
    if fuel == 0 {
        0
    } else {
        let ct2 = bump(ct, dir_of(sgn(pts[k].x - pts[k1].x), sgn(pts[k].y - pts[k1].y)));
        let cx = pts[k].x - pts[i].x;
        let cy = pts[k].y - pts[i].y;
        if all_seen(ct2) {
            k1
        } else if cross(c.0, c.1, cx, cy) < 0 || cross(c.2, c.3, cx, cy) > 0 {
            pivot_at(pts, i, k, k1, c)
        } else {
            let kn = corner(pts, k);
            if !cyc(kn, i, k) {
                0
            } else {
                pivot_walk(pts, i, kn, k, ct2, constrain(c, cx, cy), (fuel - 1) as nat)
            }
        }
    }
}

/// The direction counts at the start of the walk from `i`: its first step.
pub open spec fn first_counts(pts: Seq<IPoint>, i: int) -> (int, int, int, int) {
    let nx = pts[succ(i, pts.len() as int)];
    bump((0, 0, 0, 0), (3 + 3 * (nx.x - pts[i].x) + (nx.y - pts[i].y)) / 2)
}

/// The pivot of point `i`: how far the path runs on straight from it, the
/// walk over at most twice as many corners as the path has points.
pub open spec fn pivot(pts: Seq<IPoint>, i: int) -> int {
    pivot_walk(pts, i, corner(pts, i), i, first_counts(pts, i), (0, 0, 0, 0), (2 * pts.len()) as nat)
}

/// The running furthest pivot, scanned from the last point back to `i`.
pub open spec fn furthest(pts: Seq<IPoint>, i: int) -> int
    decreases pts.len() - i,
{
    if i + 1 >= pts.len() {
        pivot(pts, i)
    } else {
        let j = furthest(pts, i + 1);
        if cyc(i + 1, pivot(pts, i), j) {
            pivot(pts, i)
        } else {
            j
        }
    }
}

/// Every point from `m` to the last has the overall furthest pivot ahead
/// of its own run.
pub open spec fn wraps_from(pts: Seq<IPoint>, m: int) -> bool {
    let n = pts.len() as int;
    forall|t: int| m <= t < n ==> #[trigger] cyc(succ(t, n), furthest(pts, 0), furthest(pts, t))
}

/// The longest straight run from point `m`: its running furthest pivot, or
/// the overall one for the points at the end that wrap around to it.
pub open spec fn straight_end(pts: Seq<IPoint>, m: int) -> int {
    if wraps_from(pts, m) {
        furthest(pts, 0)
    } else {
        furthest(pts, m)
    }
}

proof fn lemma_corner_range(pts: Seq<IPoint>, i: int)
    requires
        closed_lattice(pts),
        0 <= i < pts.len(),
    ensures
        0 <= corner(pts, i) < pts.len(),
        corner(pts, i) == 0 || i < corner(pts, i),
    decreases pts.len() - i,
{
    let n = pts.len() as int;
    if i + 1 < n {
        lemma_corner_range(pts, i + 1);
    } else {
        assert(unit_step(pts[i], pts[succ(i, n)]));
    }
}

/// The corner table of a closed path.
fn corners(pts: &[IPoint]) -> (nc: Vec<usize>)
    requires
        closed_lattice(pts@),
    ensures
        nc@.len() == pts@.len(),
        forall|i: int| 0 <= i < pts@.len() ==> #[trigger] nc@[i] as int == corner(pts@, i),
        forall|i: int| 0 <= i < pts@.len() ==> #[trigger] nc@[i] < pts@.len(),
{
    let n = pts.len();
    let mut nc: Vec<usize> = Vec::new();
    let mut t: usize = 0;
    while t < n
        invariant
            t <= n == pts@.len(),
            nc@.len() == t,
            forall|j: int| 0 <= j < t ==> #[trigger] nc@[j] == 0,
        decreases n - t,
    {
        nc.push(0);
        t = t + 1;
    }
    let mut k: usize = 0;
    let mut i: usize = n;
    while i > 0
        invariant
            closed_lattice(pts@),
            i <= n == pts@.len(),
            nc@.len() == n,
            k == if i == n {
                0
            } else {
                corner(pts@, i as int)
            },
            k < n,
            forall|j: int| i <= j < n ==> #[trigger] nc@[j] as int == corner(pts@, j),
            forall|j: int| i <= j < n ==> #[trigger] nc@[j] < n,
        decreases i,
    {
        i = i - 1;
        proof {
            lemma_corner_range(pts@, i as int);
        }
        if pts[i].x != pts[k].x && pts[i].y != pts[k].y {
            k = i + 1;
        }
        nc.set(i, k);
    }
    nc
}

/// The sign of `v`.
fn sgn_i(v: i64) -> (r: i64)
    ensures
        r == sgn(v as int),
{
    if v > 0 {
        1
    } else if v < 0 {
        -1
    } else {
        0
    }
}

/// The cross product of two small vectors.
fn cross_i(ax: i64, ay: i64, bx: i64, by: i64) -> (r: i128)
    requires
        -0x1_0000_0000 <= ax <= 0x1_0000_0000,
        -0x1_0000_0000 <= ay <= 0x1_0000_0000,
        -0x1_0000_0000 <= bx <= 0x1_0000_0000,
        -0x1_0000_0000 <= by <= 0x1_0000_0000,
    ensures
        r == cross(ax as int, ay as int, bx as int, by as int),
        -0x2_0000_0000_0000_0000 <= r <= 0x2_0000_0000_0000_0000,
{
    proof {
        lemma_product_bound(ax as int, by as int);
        lemma_product_bound(ay as int, bx as int);
    }
    (ax as i128) * (by as i128) - (ay as i128) * (bx as i128)
}

proof fn lemma_product_bound(a: int, b: int)
    requires
        -0x1_0000_0000 <= a <= 0x1_0000_0000,
        -0x1_0000_0000 <= b <= 0x1_0000_0000,
    ensures
        -0x1_0000_0000_0000_0000 <= a * b <= 0x1_0000_0000_0000_0000,
{
    assert(-0x1_0000_0000_0000_0000 <= a * b <= 0x1_0000_0000_0000_0000) by (nonlinear_arith)
        requires
            -0x1_0000_0000 <= a <= 0x1_0000_0000,
            -0x1_0000_0000 <= b <= 0x1_0000_0000,
    ;
}

/// Division rounding toward negative infinity.
fn floor_div_i(a: i128, n: i128) -> (r: i128)
    requires
        n > 0,
        -0x4_0000_0000_0000_0000 <= a <= 0x4_0000_0000_0000_0000,
    ensures
        r == (a as int) / (n as int),
        -0x4_0000_0000_0000_0000 <= r <= 0x4_0000_0000_0000_0000,
        -0x2_0000_0000_0000_0000 <= a <= 0x2_0000_0000_0000_0000 ==> -0x2_0000_0000_0000_0000 <= r
            <= 0x2_0000_0000_0000_0000,
{
    proof {
        let ai = a as int;
        let ni = n as int;
        vstd::arithmetic::div_mod::lemma_fundamental_div_mod(ai, ni);
        assert(-0x4_0000_0000_0000_0000 <= ai / ni <= 0x4_0000_0000_0000_0000) by (nonlinear_arith)
            requires
                ni >= 1,
                -0x4_0000_0000_0000_0000 <= ai <= 0x4_0000_0000_0000_0000,
                ai == ni * (ai / ni) + ai % ni,
                0 <= ai % ni < ni,
        ;
        if -0x2_0000_0000_0000_0000 <= ai <= 0x2_0000_0000_0000_0000 {
            assert(-0x2_0000_0000_0000_0000 <= ai / ni <= 0x2_0000_0000_0000_0000) by (nonlinear_arith)
                requires
                    ni >= 1,
                    -0x2_0000_0000_0000_0000 <= ai <= 0x2_0000_0000_0000_0000,
                    ai == ni * (ai / ni) + ai % ni,
                    0 <= ai % ni < ni,
            ;
        }
    }
    if a >= 0 {
        a / n
    } else {
        let q = (-1 - a) / n;
        proof {
            let ai = a as int;
            let ni = n as int;
            assert(-1 - (-1 - ai) / ni == ai / ni) by (nonlinear_arith)
                requires
                    ai < 0,
                    ni >= 1,
            {
                vstd::arithmetic::div_mod::lemma_fundamental_div_mod(-1 - ai, ni);
                vstd::arithmetic::div_mod::lemma_fundamental_div_mod(ai, ni);
            }
        }
        -1 - q
    }
}

/// `v` modulo `n`, in `0..n`.
fn mod_i(v: i128, n: usize) -> (r: usize)
    requires
        1 <= n <= i32::MAX,
        -0x4_0000_0000_0000_0000 <= v <= 0x4_0000_0000_0000_0000,
    ensures
        r as int == (v as int) % (n as int),
        r < n,
{
    let m = n as i128;
    let q = floor_div_i(v, m);
    proof {
        let vi = v as int;
        let mi = m as int;
        vstd::arithmetic::div_mod::lemma_fundamental_div_mod(vi, mi);
        assert(mi * (vi / mi) == (vi / mi) * mi) by (nonlinear_arith);
        assert(-0x4_0000_0000_0000_0000 * 0x8000_0000 <= q * m <= 0x4_0000_0000_0000_0000 * 0x8000_0000) by (nonlinear_arith)
            requires
                -0x4_0000_0000_0000_0000 <= q <= 0x4_0000_0000_0000_0000,
                1 <= m <= 0x8000_0000,
        ;
    }
    let r = v - q * m;
    r as usize
}

/// The direction class of a step with signs `(sx, sy)`.
fn dir_i(sx: i64, sy: i64) -> (r: i64)
    requires
        -1 <= sx <= 1,
        -1 <= sy <= 1,
    ensures
        r == dir_of(sx as int, sy as int),
        0 <= r <= 3,
{
    let v = 3 + 3 * sx + sy;
    if v < 0 {
        0
    } else {
        v / 2
    }
}

/// The pivot of point `i`.
fn pivot_of(pts: &[IPoint], nc: &Vec<usize>, i: usize) -> (r: usize)
    requires
        closed_lattice(pts@),
        i < pts@.len(),
        nc@.len() == pts@.len(),
        forall|t: int| 0 <= t < pts@.len() ==> #[trigger] nc@[t] as int == corner(pts@, t),
        forall|t: int| 0 <= t < pts@.len() ==> #[trigger] nc@[t] < pts@.len(),
    ensures
        r as int == pivot(pts@, i as int),
        r < pts@.len(),
{
    let n = pts.len();
    let ghost ps = pts@;
    let nx: usize = if i + 1 == n {
        0
    } else {
        i + 1
    };
    assert(unit_step(ps[i as int], ps[succ(i as int, n as int)]));
    assert(0 <= ps[i as int].x <= coord_max() && 0 <= ps[i as int].y <= coord_max());
    let dx0: i64 = pts[nx].x as i64 - pts[i].x as i64;
    let dy0: i64 = pts[nx].y as i64 - pts[i].y as i64;
    let d0: i64 = (3 + 3 * dx0 + dy0) / 2;
    let mut ct0: i64 = if d0 == 0 {
        1
    } else {
        0
    };
    let mut ct1: i64 = if d0 == 1 {
        1
    } else {
        0
    };
    let mut ct2: i64 = if d0 == 2 {
        1
    } else {
        0
    };
    let mut ct3: i64 = if d0 != 0 && d0 != 1 && d0 != 2 {
        1
    } else {
        0
    };
    assert((ct0 as int, ct1 as int, ct2 as int, ct3 as int) == first_counts(ps, i as int));
    let mut c0x: i64 = 0;
    let mut c0y: i64 = 0;
    let mut c1x: i64 = 0;
    let mut c1y: i64 = 0;
    let mut k: usize = nc[i];
    let mut k1: usize = i;
    let mut fuel: usize = 2 * n;
    while fuel > 0
        invariant
            closed_lattice(pts@),
            ps == pts@,
            n == ps.len(),
            i < n,
            k < n,
            k1 < n,
            nc@.len() == n,
            forall|t: int| 0 <= t < n ==> #[trigger] nc@[t] as int == corner(ps, t),
            forall|t: int| 0 <= t < n ==> #[trigger] nc@[t] < n,
            fuel <= 2 * n,
            0 <= ct0 <= 2 * n - fuel + 1,
            0 <= ct1 <= 2 * n - fuel + 1,
            0 <= ct2 <= 2 * n - fuel + 1,
            0 <= ct3 <= 2 * n - fuel + 1,
            -coord_max() - 1 <= c0x <= coord_max() + 1,
            -coord_max() - 1 <= c0y <= coord_max() + 1,
            -coord_max() - 1 <= c1x <= coord_max() + 1,
            -coord_max() - 1 <= c1y <= coord_max() + 1,
            pivot_walk(
                ps,
                i as int,
                k as int,
                k1 as int,
                (ct0 as int, ct1 as int, ct2 as int, ct3 as int),
                (c0x as int, c0y as int, c1x as int, c1y as int),
                fuel as nat,
            ) == pivot(ps, i as int),
        decreases fuel,
    {
        assert(0 <= ps[k as int].x <= coord_max() && 0 <= ps[k as int].y <= coord_max());
        assert(0 <= ps[k1 as int].x <= coord_max() && 0 <= ps[k1 as int].y <= coord_max());
        assert(0 <= ps[i as int].x <= coord_max() && 0 <= ps[i as int].y <= coord_max());
        let sx = sgn_i(pts[k].x as i64 - pts[k1].x as i64);
        let sy = sgn_i(pts[k].y as i64 - pts[k1].y as i64);
        let d = dir_i(sx, sy);
        if d == 0 {
            ct0 = ct0 + 1;
        } else if d == 1 {
            ct1 = ct1 + 1;
        } else if d == 2 {
            ct2 = ct2 + 1;
        } else {
            ct3 = ct3 + 1;
        }
        let cx: i64 = pts[k].x as i64 - pts[i].x as i64;
        let cy: i64 = pts[k].y as i64 - pts[i].y as i64;
        if ct0 != 0 && ct1 != 0 && ct2 != 0 && ct3 != 0 {
            return k1;
        }
        if cross_i(c0x, c0y, cx, cy) < 0 || cross_i(c1x, c1y, cx, cy) > 0 {
            let ux: i64 = pts[k1].x as i64 - pts[i].x as i64;
            let uy: i64 = pts[k1].y as i64 - pts[i].y as i64;
            let a = cross_i(c0x, c0y, ux, uy);
            let b = cross_i(c0x, c0y, sx, sy);
            let cc = cross_i(c1x, c1y, ux, uy);
            let dd = cross_i(c1x, c1y, sx, sy);
            let mut j: i128 = 0x7fff_ffff;
            if b < 0 {
                j = floor_div_i(a, -b);
            }
            if dd > 0 {
                let t = floor_div_i(-cc, dd);
                if t < j {
                    j = t;
                }
            }
            return mod_i(k1 as i128 + j, n);
        }
        if !(-1 <= cx && cx <= 1 && -1 <= cy && cy <= 1) {
            let lx: i64 = cx + if cy >= 0 && (cy > 0 || cx < 0) {
                1
            } else {
                -1
            };
            let ly: i64 = cy + if cx <= 0 && (cx < 0 || cy < 0) {
                1
            } else {
                -1
            };
            let rx: i64 = cx + if cy <= 0 && (cy < 0 || cx < 0) {
                1
            } else {
                -1
            };
            let ry: i64 = cy + if cx >= 0 && (cx > 0 || cy < 0) {
                1
            } else {
                -1
            };
            let take_l = cross_i(c0x, c0y, lx, ly) >= 0;
            let take_r = cross_i(c1x, c1y, rx, ry) <= 0;
            if take_l {
                c0x = lx;
                c0y = ly;
            }
            if take_r {
                c1x = rx;
                c1y = ry;
            }
        }
        let kn = nc[k];
        if !crate::potrace::cyclic(kn, i, k, n) {
            return 0;
        }
        k1 = k;
        k = kn;
        fuel = fuel - 1;
    }
    0
}

/// For each point of a closed path, the end of the longest straight run
/// from it.
pub fn calc_lon(pts: &[IPoint]) -> (lon: Vec<usize>)
    requires
        closed_lattice(pts@),
    ensures
        lon@.len() == pts@.len(),
        forall|m: int| 0 <= m < pts@.len() ==> #[trigger] lon@[m] as int == straight_end(pts@, m),
{
    let n = pts.len();
    let ghost ps = pts@;
    let nc = corners(pts);
    let mut pivk: Vec<usize> = Vec::new();
    let mut t: usize = 0;
    while t < n
        invariant
            closed_lattice(pts@),
            ps == pts@,
            n == ps.len(),
            t <= n,
            nc@.len() == n,
            forall|q: int| 0 <= q < n ==> #[trigger] nc@[q] as int == corner(ps, q),
            forall|q: int| 0 <= q < n ==> #[trigger] nc@[q] < n,
            pivk@.len() == t,
            forall|q: int| 0 <= q < t ==> #[trigger] pivk@[q] as int == pivot(ps, q),
            forall|q: int| 0 <= q < t ==> #[trigger] pivk@[q] < n,
        decreases n - t,
    {
        let p = pivot_of(pts, &nc, t);
        pivk.push(p);
        t = t + 1;
    }
    let mut lon: Vec<usize> = Vec::new();
    let mut t: usize = 0;
    while t < n
        invariant
            t <= n,
            lon@.len() == t,
        decreases n - t,
    {
        lon.push(0);
        t = t + 1;
    }
    let mut j: usize = pivk[n - 1];
    lon.set(n - 1, j);
    let mut i: usize = n - 1;
    while i > 0
        invariant
            ps == pts@,
            n == ps.len(),
            2 <= n,
            i < n,
            pivk@.len() == n,
            forall|q: int| 0 <= q < n ==> #[trigger] pivk@[q] as int == pivot(ps, q),
            forall|q: int| 0 <= q < n ==> #[trigger] pivk@[q] < n,
            lon@.len() == n,
            j < n,
            j as int == furthest(ps, i as int),
            forall|m: int| i <= m < n ==> #[trigger] lon@[m] as int == furthest(ps, m),
        decreases i,
    {
        i = i - 1;
        if crate::potrace::cyclic(i + 1, pivk[i], j, n) {
            j = pivk[i];
        }
        lon.set(i, j);
    }
    let jf = j;
    assert(jf as int == furthest(ps, 0));
    let mut i: usize = n - 1;
    let mut going = true;
    while going
        invariant
            ps == pts@,
            n == ps.len(),
            2 <= n,
            i < n,
            lon@.len() == n,
            jf as int == furthest(ps, 0),
            jf < n,
            going ==> forall|m: int| 0 <= m <= i ==> #[trigger] lon@[m] as int == furthest(ps, m),
            going ==> forall|m: int| i < m < n ==> #[trigger] lon@[m] == jf,
            going ==> wraps_from(ps, i + 1),
            !going ==> forall|m: int|
                0 <= m < n ==> #[trigger] lon@[m] as int == straight_end(ps, m),
        decreases i + if going {
            1int
        } else {
            0int
        },
    {
        let nx: usize = if i + 1 == n {
            0
        } else {
            i + 1
        };
        if crate::potrace::cyclic(nx, jf, lon[i], n) {
            lon.set(i, jf);
            assert(wraps_from(ps, i as int));
            if i == 0 {
                going = false;
                assert forall|m: int| 0 <= m < n implies #[trigger] lon@[m] as int == straight_end(ps, m) by {
                    assert(wraps_from(ps, m));
                }
            } else {
                i = i - 1;
            }
        } else {
            going = false;
            assert forall|m: int| 0 <= m < n implies #[trigger] lon@[m] as int == straight_end(ps, m) by {
                if m <= i {
                    assert(!cyc(succ(i as int, n as int), furthest(ps, 0), furthest(ps, i as int)));
                    assert(!wraps_from(ps, m));
                } else {
                    assert(wraps_from(ps, m));
                }
            }
        }
    }
    lon
}

/// Every path that decomposing a bitmap yields is a closed lattice path
/// that `calc_lon` accepts, when it has at most `i32::MAX` points.
pub proof fn law_decomposed_paths_are_closed(bm: Bitmap, turd_size: i32, p: TracePath)
    requires
        bm.spec_width() <= coord_max(),
        bm.spec_height() <= coord_max(),
        decomposed_path(bm, turd_size, p),
        p.points@.len() <= i32::MAX,
    ensures
        closed_lattice(p.points@),
{
    let pts = p.points@;
    let n = pts.len() as int;
    assert forall|k: int| 0 <= k < n implies unit_step(#[trigger] pts[k], pts[succ(k, n)]) by {
        assert(unit_step(pts[k], pts[if k + 1 == n { 0 } else { k + 1 }]));
    }
    assert forall|k: int| 0 <= k < n implies 0 <= (#[trigger] pts[k]).x <= coord_max() && 0 <= pts[k].y
        <= coord_max() by {
        assert(on_bitmap(bm, pts[k].x as int, pts[k].y as int));
    }
    if n == 1 {
        assert(unit_step(pts[0], pts[0]));
    }
}

} // verus!
