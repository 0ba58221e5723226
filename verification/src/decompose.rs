//! Decomposing a bitmap into closed boundary paths: the boundary walk,
//! the inversion of a path's interior, and the scan that finds every path.
use vstd::prelude::*;
use crate::potrace::{
    Bitmap, IPoint, TurnPolicy, WORD_BITS, align_down, find_next, found_next, nothing_next,
    lemma_align_down,
    should_turn_right, turns_right, xor_to_ref,
};

verus! {

/// A closed boundary path: its corners in walking order, the area it
/// encloses, and whether it bounds black (`+`) or white (`-`) pixels.
#[derive(Debug, Clone, PartialEq, Eq)]
pub struct TracePath {
    pub points: Vec<IPoint>,
    pub area: i32,
    pub sign: char,
}

/// One step of the boundary walk from corner `(x, y)` heading `(dx, dy)`:
/// move one unit, then look at the two pixels ahead; with black ahead on
/// the left only the turn policy decides, black on the left turns right,
/// white on the right turns left, and otherwise the walk goes straight.
pub open spec fn walk_next(
    bm: Bitmap,
    sign: char,
    policy: TurnPolicy,
    s: (int, int, int, int),
) -> (int, int, int, int) {
    let (x, y, dx, dy) = s;
    let nx = x + dx;
    let ny = y + dy;
    let c = bm.pixel(nx + (dx + dy - 1) / 2, ny + (dy - dx - 1) / 2);
    let d = bm.pixel(nx + (dx - dy - 1) / 2, ny + (dy + dx - 1) / 2);
    if c && !d {
        if turns_right(bm, nx as i32, ny as i32, sign, policy) {
            (nx, ny, dy, -dx)
        } else {
            (nx, ny, -dy, dx)
        }
    } else if c {
        (nx, ny, dy, -dx)
    } else if !d {
        (nx, ny, -dy, dx)
    } else {
        (nx, ny, dx, dy)
    }
}

/// The state of the walk from `(x0, y0)`, heading down, after `k` steps.
pub open spec fn walk(
    bm: Bitmap,
    sign: char,
    policy: TurnPolicy,
    x0: int,
    y0: int,
    k: nat,
) -> (int, int, int, int)
    decreases k,
{
    if k == 0 {
        (x0, y0, 0, -1)
    } else {
        walk_next(bm, sign, policy, walk(bm, sign, policy, x0, y0, (k - 1) as nat))
    }
}

/// The signed area swept by the first `k` steps: each step adds its new
/// `x` times its vertical direction.
pub open spec fn area_sum(
    bm: Bitmap,
    sign: char,
    policy: TurnPolicy,
    x0: int,
    y0: int,
    k: nat,
) -> int
    decreases k,
{
    if k == 0 {
        0
    } else {
        area_sum(bm, sign, policy, x0, y0, (k - 1) as nat) + walk(bm, sign, policy, x0, y0, k).0
            * walk(bm, sign, policy, x0, y0, (k - 1) as nat).3
    }
}

/// A corner of the bitmap's pixels.
pub open spec fn on_bitmap(bm: Bitmap, x: int, y: int) -> bool {
    0 <= x <= bm.spec_width() && 0 <= y <= bm.spec_height()
}

/// The most steps a closed walk can take: four directions at every corner.
pub open spec fn walk_limit(bm: Bitmap) -> int {
    4 * (bm.spec_width() + 1) * (bm.spec_height() + 1)
}

/// The area of a path as stored: capped at `i32::MAX`.
pub open spec fn stored_area(a: int) -> i32 {
    if a > i32::MAX {
        i32::MAX
    } else {
        a as i32
    }
}

/// A unit direction.
pub open spec fn unit(dx: int, dy: int) -> bool {
    (dx == 0 && (dy == 1 || dy == -1)) || (dy == 0 && (dx == 1 || dx == -1))
}

/// `p` is the walk from `(x0, y0)` on `bm` up to its first return to the
/// start: its corners in order, its area, and its sign.
pub open spec fn is_walk_path(
    bm: Bitmap,
    x0: int,
    y0: int,
    sign: char,
    policy: TurnPolicy,
    p: TracePath,
) -> bool {
    let n = p.points@.len();
    &&& n >= 1
    &&& forall|k: int|
        0 <= k < n ==> (#[trigger] p.points@[k]).x == walk(bm, sign, policy, x0, y0, k as nat).0
            && p.points@[k].y == walk(bm, sign, policy, x0, y0, k as nat).1
    &&& walk(bm, sign, policy, x0, y0, n).0 == x0 && walk(bm, sign, policy, x0, y0, n).1 == y0
    &&& forall|k: nat|
        1 <= k < n ==> !(#[trigger] walk(bm, sign, policy, x0, y0, k).0 == x0 && walk(
            bm,
            sign,
            policy,
            x0,
            y0,
            k,
        ).1 == y0)
    &&& forall|k: nat|
        1 <= k <= n ==> on_bitmap(
            bm,
            #[trigger] walk(bm, sign, policy, x0, y0, k).0,
            walk(bm, sign, policy, x0, y0, k).1,
        )
    &&& p.area == stored_area(area_sum(bm, sign, policy, x0, y0, n))
    &&& p.sign == sign
}

proof fn lemma_walk_unit(bm: Bitmap, sign: char, policy: TurnPolicy, x0: int, y0: int, k: nat)
    ensures
        unit(walk(bm, sign, policy, x0, y0, k).2, walk(bm, sign, policy, x0, y0, k).3),
    decreases k,
{
    if k > 0 {
        lemma_walk_unit(bm, sign, policy, x0, y0, (k - 1) as nat);
    }
}

/// The direction after arriving at corner `(x, y)` heading `(dirx, diry)`.
fn turn(bitmap: &Bitmap, x: i32, y: i32, dirx: i32, diry: i32, sign: char, turn_policy: TurnPolicy) -> (r:
    (i32, i32))
    requires
        bitmap.wf(),
        unit(dirx as int, diry as int),
        on_bitmap(*bitmap, x as int, y as int),
        bitmap.spec_width() <= i32::MAX - 16,
        bitmap.spec_height() <= i32::MAX - 16,
    ensures
        (x as int, y as int, r.0 as int, r.1 as int) == walk_next(
            *bitmap,
            sign,
            turn_policy,
            (x - dirx, y - diry, dirx as int, diry as int),
        ),
{
    let lx: i32 = if dirx + diry > 0 { 0 } else { -1 };
    let ly: i32 = if diry - dirx > 0 { 0 } else { -1 };
    let rx: i32 = if dirx - diry > 0 { 0 } else { -1 };
    let ry: i32 = if diry + dirx > 0 { 0 } else { -1 };
    assert(lx == (dirx + diry - 1) / 2);
    assert(ly == (diry - dirx - 1) / 2);
    assert(rx == (dirx - diry - 1) / 2);
    assert(ry == (diry + dirx - 1) / 2);
    let c = bitmap.get(x + lx, y + ly);
    let d = bitmap.get(x + rx, y + ry);
    if c && !d {
        if should_turn_right(bitmap, x, y, sign, turn_policy) {
            (diry, -dirx)
        } else {
            (-diry, dirx)
        }
    } else if c {
        (diry, -dirx)
    } else if !d {
        (-diry, dirx)
    } else {
        (dirx, diry)
    }
}

proof fn lemma_limit(w: int, h: int)
    requires
        0 <= w <= i32::MAX - 16,
        0 <= h <= i32::MAX - 16,
    ensures
        (w + 1) * (h + 1) < 0x4000_0000_0000_0000,
        4 * (w + 1) * (h + 1) == 4 * ((w + 1) * (h + 1)),
{
    assert((w + 1) * (h + 1) < 0x4000_0000_0000_0000) by (nonlinear_arith)
        requires
            1 <= w + 1 <= i32::MAX - 15,
            1 <= h + 1 <= i32::MAX - 15,
    ;
    assert(4 * (w + 1) * (h + 1) == 4 * ((w + 1) * (h + 1))) by (nonlinear_arith);
}

proof fn lemma_area_step(steps: int, w: int, area: int, nx: int, diry: int)
    requires
        0 <= steps < 0x1_0000_0000_0000_0000,
        0 <= w <= i32::MAX,
        -(steps * w) <= area <= steps * w,
        0 <= nx <= w,
        -1 <= diry <= 1,
    ensures
        -w <= nx * diry <= w,
        -((steps + 1) * w) <= area + nx * diry <= (steps + 1) * w,
        -0x1_0000_0000_0000_0000_0000_0000 <= area + nx * diry <= 0x1_0000_0000_0000_0000_0000_0000,
{
    assert(-w <= nx * diry <= w) by (nonlinear_arith)
        requires
            0 <= nx <= w,
            -1 <= diry <= 1,
    ;
    assert((steps + 1) * w == steps * w + w) by (nonlinear_arith);
    assert((steps + 1) * w <= 0x1_0000_0000_0000_0000_0000_0000) by (nonlinear_arith)
        requires
            0 <= steps < 0x1_0000_0000_0000_0000,
            0 <= w <= i32::MAX,
    ;
}

/// No walk state in `1..=k` is back at the start.
pub open spec fn open_until(
    bm: Bitmap,
    sign: char,
    policy: TurnPolicy,
    x0: int,
    y0: int,
    k: nat,
) -> bool {
    forall|j: nat|
        1 <= j <= k ==> !(#[trigger] walk(bm, sign, policy, x0, y0, j).0 == x0 && walk(
            bm,
            sign,
            policy,
            x0,
            y0,
            j,
        ).1 == y0)
}

/// Every walk state in `1..=k` is a corner of the bitmap.
pub open spec fn framed_until(
    bm: Bitmap,
    sign: char,
    policy: TurnPolicy,
    x0: int,
    y0: int,
    k: nat,
) -> bool {
    forall|j: nat|
        1 <= j <= k ==> on_bitmap(
            bm,
            #[trigger] walk(bm, sign, policy, x0, y0, j).0,
            walk(bm, sign, policy, x0, y0, j).1,
        )
}

/// The walk does not close within `walk_limit` steps while it stays on the bitmap.
pub open spec fn never_closes(bm: Bitmap, sign: char, policy: TurnPolicy, x0: int, y0: int) -> bool {
    forall|k: nat|
        1 <= k <= walk_limit(bm) && #[trigger] framed_until(bm, sign, policy, x0, y0, k)
            ==> open_until(bm, sign, policy, x0, y0, k)
}

/// Walks the boundary from corner `(x0, y0)`, heading down, until it returns
/// to its start. `None` when the walk would leave the bitmap's corners or
/// takes more steps than a closed walk can.
pub fn find_path(bitmap: &Bitmap, x0: i32, y0: i32, sign: char, turn_policy: TurnPolicy) -> (r:
    Option<TracePath>)
    requires
        bitmap.wf(),
        on_bitmap(*bitmap, x0 as int, y0 as int),
        bitmap.spec_width() <= i32::MAX - 16,
        bitmap.spec_height() <= i32::MAX - 16,
    ensures
        match r {
            Some(p) => is_walk_path(*bitmap, x0 as int, y0 as int, sign, turn_policy, p),
            None => never_closes(*bitmap, sign, turn_policy, x0 as int, y0 as int),
        },
{
    let ghost bm = *bitmap;
    let ghost gx = x0 as int;
    let ghost gy = y0 as int;
    let w = bitmap.width();
    let h = bitmap.height();
    proof {
        lemma_limit(w as int, h as int);
    }
    let wide_w: u64 = (w as u64) + 1;
    let wide_h: u64 = (h as u64) + 1;
    let cells: u64 = wide_w * wide_h;
    let limit: u64 = 4 * cells;
    let mut x: i32 = x0;
    let mut y: i32 = y0;
    let mut dirx: i32 = 0;
    let mut diry: i32 = -1;
    let mut points: Vec<IPoint> = Vec::new();
    let mut area: i128 = 0;
    let mut steps: u64 = 0;
    let mut closed = false;
    while steps < limit
        invariant_except_break
            !closed,
            gx == x0 as int,
            gy == y0 as int,
            bitmap.wf(),
            bm == *bitmap,
            w == bm.spec_width(),
            h == bm.spec_height(),
            w <= i32::MAX - 16,
            h <= i32::MAX - 16,
            limit == walk_limit(bm),
            steps <= limit,
            0 <= x <= w,
            0 <= y <= h,
            unit(dirx as int, diry as int),
            (x as int, y as int, dirx as int, diry as int) == walk(
                bm,
                sign,
                turn_policy,
                gx,
                gy,
                steps as nat,
            ),
            points@.len() == steps,
            forall|k: int|
                0 <= k < steps ==> (#[trigger] points@[k]).x == walk(
                    bm,
                    sign,
                    turn_policy,
                    gx,
                    gy,
                    k as nat,
                ).0 && points@[k].y == walk(bm, sign, turn_policy, gx, gy, k as nat).1,
            open_until(bm, sign, turn_policy, gx, gy, steps as nat),
            framed_until(bm, sign, turn_policy, gx, gy, steps as nat),
            area == area_sum(bm, sign, turn_policy, gx, gy, steps as nat),
            -((steps as int) * (w as int)) <= area <= (steps as int) * (w as int),
        ensures
            bm == *bitmap,
            gx == x0 as int,
            gy == y0 as int,
            steps <= limit,
            limit == walk_limit(bm),
            points@.len() == steps,
            forall|k: int|
                0 <= k < steps ==> (#[trigger] points@[k]).x == walk(
                    bm,
                    sign,
                    turn_policy,
                    gx,
                    gy,
                    k as nat,
                ).0 && points@[k].y == walk(bm, sign, turn_policy, gx, gy, k as nat).1,
            framed_until(bm, sign, turn_policy, gx, gy, steps as nat),
            area == area_sum(bm, sign, turn_policy, gx, gy, steps as nat),
            closed ==> steps >= 1,
            closed ==> walk(bm, sign, turn_policy, gx, gy, steps as nat).0 == gx,
            closed ==> walk(bm, sign, turn_policy, gx, gy, steps as nat).1 == gy,
            closed ==> open_until(bm, sign, turn_policy, gx, gy, (steps - 1) as nat),
            !closed ==> steps == limit && open_until(bm, sign, turn_policy, gx, gy, steps as nat),
        decreases limit - steps,
    {
        let ghost s0 = walk(bm, sign, turn_policy, gx, gy, steps as nat);
        let ghost prev = steps as nat;
        let ghost n1 = (steps + 1) as nat;
        points.push(IPoint { x, y });
        let nx = x + dirx;
        let ny = y + diry;
        if nx < 0 || nx > w || ny < 0 || ny > h {
            proof {
                assert(walk(bm, sign, turn_policy, gx, gy, n1) == walk_next(bm, sign, turn_policy, s0));
                assert forall|k: nat|
                    1 <= k <= walk_limit(bm) && #[trigger] framed_until(
                        bm,
                        sign,
                        turn_policy,
                        gx,
                        gy,
                        k,
                    ) implies open_until(bm, sign, turn_policy, gx, gy, k) by {
                    if k > steps {
                        assert(1 <= n1 <= k);
                        assert(on_bitmap(bm, walk(bm, sign, turn_policy, gx, gy, n1).0, walk(bm, sign, turn_policy, gx, gy, n1).1));
                    } else {
                        assert forall|j: nat| 1 <= j <= k implies !(#[trigger] walk(bm, sign, turn_policy, gx, gy, j).0 == gx && walk(bm, sign, turn_policy, gx, gy, j).1 == gy) by {
                            assert(1 <= j <= steps);
                        }
                    }
                }
            }
            return None;
        }
        proof {
            lemma_area_step(steps as int, w as int, area as int, nx as int, diry as int);
        }
        let term: i128 = (nx as i128) * (diry as i128);
        area = area + term;
        let (ndx, ndy) = turn(bitmap, nx, ny, dirx, diry, sign, turn_policy);
        proof {
            assert(walk(bm, sign, turn_policy, gx, gy, n1) == walk_next(bm, sign, turn_policy, s0));
            assert(walk(bm, sign, turn_policy, gx, gy, n1) == (nx as int, ny as int, ndx as int, ndy as int));
            assert(area_sum(bm, sign, turn_policy, gx, gy, n1) == area_sum(bm, sign, turn_policy, gx, gy, steps as nat) + (nx as int) * s0.3);
            assert forall|j: nat| 1 <= j <= n1 implies on_bitmap(
                bm,
                #[trigger] walk(bm, sign, turn_policy, gx, gy, j).0,
                walk(bm, sign, turn_policy, gx, gy, j).1,
            ) by {
                if j < n1 {
                    assert(1 <= j <= steps);
                }
            }
        }
        steps = steps + 1;
        x = nx;
        y = ny;
        assert(steps as nat == n1);
        assert(walk(bm, sign, turn_policy, gx, gy, n1).0 == nx as int);
        if x == x0 && y == y0 {
            closed = true;
            assert(walk(bm, sign, turn_policy, gx, gy, steps as nat).0 == gx);
            assert(open_until(bm, sign, turn_policy, gx, gy, prev));
            break;
        }
        dirx = ndx;
        diry = ndy;
        proof {
            assert(open_until(bm, sign, turn_policy, gx, gy, prev));
            assert(!(walk(bm, sign, turn_policy, gx, gy, n1).0 == gx && walk(bm, sign, turn_policy, gx, gy, n1).1 == gy));
            assert forall|j: nat| 1 <= j <= n1 implies !(#[trigger] walk(bm, sign, turn_policy, gx, gy, j).0 == gx && walk(bm, sign, turn_policy, gx, gy, j).1 == gy) by {
                if j < n1 {
                    assert(1 <= j <= prev);
                }
            }
        }
    }
    if !closed {
        proof {
            assert forall|k: nat|
                1 <= k <= walk_limit(bm) && #[trigger] framed_until(bm, sign, turn_policy, gx, gy, k)
                    implies open_until(bm, sign, turn_policy, gx, gy, k) by {
                assert forall|j: nat| 1 <= j <= k implies !(#[trigger] walk(bm, sign, turn_policy, gx, gy, j).0 == gx && walk(bm, sign, turn_policy, gx, gy, j).1 == gy) by {
                    assert(1 <= j <= steps);
                    assert(open_until(bm, sign, turn_policy, gx, gy, steps as nat));
                }
            }
        }
        return None;
    }
    let stored: i32 = if area > i32::MAX as i128 {
        i32::MAX
    } else {
        #[verifier::truncate]
        (area as i32)
    };
    let path = TracePath { points, area: stored, sign };
    proof {
        assert forall|k: nat| 1 <= k < steps implies !(#[trigger] walk(bm, sign, turn_policy, gx, gy, k).0 == gx && walk(bm, sign, turn_policy, gx, gy, k).1 == gy) by {
            assert(1 <= k <= steps - 1);
            assert(open_until(bm, sign, turn_policy, gx, gy, (steps - 1) as nat));
        }
    }
    Some(path)
}

/// The row of the previous corner of a closed path, before corner `k`.
pub open spec fn prev_y(pts: Seq<IPoint>, k: int) -> int {
    if k == 0 {
        pts.last().y as int
    } else {
        pts[k - 1].y as int
    }
}

/// The edge arriving at corner `k` is vertical, and inverting row `py`
/// between its column and the reference column `xa` covers `px`.
pub open spec fn crossing(pts: Seq<IPoint>, k: int, xa: int, px: int, py: int) -> bool {
    let p = pts[k];
    let y1 = prev_y(pts, k);
    &&& p.y != y1
    &&& py == (if p.y < y1 {
        p.y as int
    } else {
        y1
    })
    &&& if p.x <= xa {
        p.x <= px < xa
    } else {
        xa <= px < p.x
    }
}

/// Whether an odd number of the first `k` edges cross pixel `(px, py)`.
pub open spec fn flipped(pts: Seq<IPoint>, xa: int, px: int, py: int, k: int) -> bool
    decreases k,
{
    if k <= 0 {
        false
    } else {
        flipped(pts, xa, px, py, k - 1) != crossing(pts, k - 1, xa, px, py)
    }
}

/// Every corner of the path is a corner of the bitmap.
pub open spec fn points_on_bitmap(bm: Bitmap, pts: Seq<IPoint>) -> bool {
    forall|k: int| 0 <= k < pts.len() ==> on_bitmap(bm, #[trigger] pts[k].x as int, pts[k].y as int)
}

/// Inverts the pixels a closed path encloses: every vertical edge inverts
/// its row from its column to the column of the first corner's storage
/// word, so a pixel ends up inverted when an odd number of edges cross it.
pub fn xor_path(bitmap: &mut Bitmap, path: &TracePath)
    requires
        old(bitmap).wf(),
        points_on_bitmap(*old(bitmap), path.points@),
    ensures
        final(bitmap).wf(),
        final(bitmap).spec_width() == old(bitmap).spec_width(),
        final(bitmap).spec_height() == old(bitmap).spec_height(),
        path.points@.len() > 0 ==> forall|px: int, py: int| #[trigger] final(bitmap).pixel(px, py) == (
        old(bitmap).pixel(px, py) != flipped(
            path.points@,
            align_down(path.points@[0].x),
            px,
            py,
            path.points@.len() as int,
        )),
        path.points@.len() == 0 ==> *final(bitmap) == *old(bitmap),
{
    let n = path.points.len();
    if n == 0 {
        return;
    }
    let ghost orig = *bitmap;
    let ghost pts = path.points@;
    let mut y1 = path.points[n - 1].y;
    let first_x = path.points[0].x;
    proof {
        lemma_align_down(first_x);
        assert(on_bitmap(orig, pts[0].x as int, pts[0].y as int));
    }
    let xa = first_x & !(WORD_BITS - 1);
    let ghost gxa = align_down(first_x);
    assert(xa == gxa);
    let mut k: usize = 0;
    while k < n
        invariant
            n == pts.len(),
            pts == path.points@,
            bitmap.wf(),
            bitmap.spec_width() == orig.spec_width(),
            bitmap.spec_height() == orig.spec_height(),
            points_on_bitmap(orig, pts),
            0 <= xa <= orig.spec_width(),
            xa % 64 == 0,
            xa == gxa,
            k <= n,
            y1 == prev_y(pts, k as int),
            forall|px: int, py: int| #[trigger] bitmap.pixel(px, py) == (orig.pixel(px, py)
                != flipped(pts, gxa, px, py, k as int)),
        decreases n - k,
    {
        let p = path.points[k];
        assert(on_bitmap(orig, pts[k as int].x as int, pts[k as int].y as int));
        let ghost before = *bitmap;
        if p.y != y1 {
            let lo = if p.y < y1 {
                p.y
            } else {
                y1
            };
            proof {
                if k == 0 {
                    assert(on_bitmap(orig, pts[n - 1].x as int, pts[n - 1].y as int));
                } else {
                    assert(on_bitmap(orig, pts[k - 1].x as int, pts[k - 1].y as int));
                }
            }
            xor_to_ref(bitmap, p.x, lo, xa);
            y1 = p.y;
        }
        proof {
            assert forall|px: int, py: int| #[trigger] bitmap.pixel(px, py) == (orig.pixel(px, py)
                != flipped(pts, gxa, px, py, k + 1)) by {
                assert(before.pixel(px, py) == (orig.pixel(px, py) != flipped(pts, gxa, px, py, k as int)));
            }
        }
        k = k + 1;
    }
}

/// Two corners one unit step apart.
pub open spec fn unit_step(a: IPoint, b: IPoint) -> bool {
    unit(b.x - a.x, b.y - a.y)
}

/// A closed lattice loop on the bitmap's corners: each corner one unit
/// step from the next, the last one from the first.
pub open spec fn lattice_loop(bm: Bitmap, pts: Seq<IPoint>) -> bool {
    &&& pts.len() >= 1
    &&& points_on_bitmap(bm, pts)
    &&& forall|k: int|
        0 <= k < pts.len() ==> unit_step(#[trigger] pts[k], pts[if k + 1 == pts.len() {
            0
        } else {
            k + 1
        }])
}

proof fn lemma_walk_path_loop(
    bm: Bitmap,
    x0: int,
    y0: int,
    sign: char,
    policy: TurnPolicy,
    p: TracePath,
)
    requires
        is_walk_path(bm, x0, y0, sign, policy, p),
        on_bitmap(bm, x0, y0),
    ensures
        lattice_loop(bm, p.points@),
        p.points@[0].x == x0,
        p.points@[0].y == y0,
{
    let pts = p.points@;
    let n = pts.len() as int;
    assert(pts[0].x == x0 && pts[0].y == y0);
    assert forall|k: int| 0 <= k < n implies on_bitmap(bm, #[trigger] pts[k].x as int, pts[k].y as int) by {
        if k > 0 {
            let kk = k as nat;
            assert(on_bitmap(bm, walk(bm, sign, policy, x0, y0, kk).0, walk(bm, sign, policy, x0, y0, kk).1));
        }
    }
    assert forall|k: int| 0 <= k < n implies unit_step(#[trigger] pts[k], pts[if k + 1 == n {
        0
    } else {
        k + 1
    }]) by {
        lemma_walk_unit(bm, sign, policy, x0, y0, k as nat);
        let s = walk(bm, sign, policy, x0, y0, k as nat);
        let t = walk(bm, sign, policy, x0, y0, (k + 1) as nat);
        assert(t.0 == s.0 + s.2 && t.1 == s.1 + s.3);
        assert(pts[k].x == s.0 && pts[k].y == s.1);
        if k + 1 < n {
            assert(pts[k + 1].x == t.0 && pts[k + 1].y == t.1);
        }
    }
}

/// The properties of a path found by the decomposition: a closed lattice
/// loop starting at the corner above its first pixel, bounding black (`+`)
/// or white (`-`) pixels of the bitmap as that pixel is, and enclosing more
/// than `turd_size`.
pub open spec fn decomposed_path(bm: Bitmap, turd_size: i32, p: TracePath) -> bool {
    &&& lattice_loop(bm, p.points@)
    &&& p.area > turd_size
    &&& p.sign == if bm.pixel(p.points@[0].x as int, p.points@[0].y - 1) {
        '+'
    } else {
        '-'
    }
}

/// The sign of the path found at pixel `(fx, fy)`: `+` when that pixel is
/// set in the bitmap being decomposed.
pub open spec fn sign_at(orig: Bitmap, fx: int, fy: int) -> char {
    if orig.pixel(fx, fy) {
        '+'
    } else {
        '-'
    }
}

/// `b2` is `b` with the pixels enclosed by the closed path `p` inverted.
pub open spec fn inverted_by(b: Bitmap, p: TracePath, b2: Bitmap) -> bool {
    &&& b2.wf()
    &&& b2.spec_width() == b.spec_width()
    &&& b2.spec_height() == b.spec_height()
    &&& forall|px: int, py: int| #[trigger] b2.pixel(px, py) == (b.pixel(px, py) != flipped(
        p.points@,
        align_down(p.points@[0].x),
        px,
        py,
        p.points@.len() as int,
    ))
}

/// One round of the scan on working bitmap `b` from position `(x, y)`: the
/// next set pixel is `(fx, fy)`, the walk from the corner above it closes as
/// `p`, signed by the bitmap being decomposed, and `b2` is `b` with `p`'s
/// interior inverted.
pub open spec fn scan_round(
    orig: Bitmap,
    policy: TurnPolicy,
    b: Bitmap,
    x: i32,
    y: i32,
    fx: i32,
    fy: i32,
    p: TracePath,
    b2: Bitmap,
) -> bool {
    &&& found_next(b, x, y, fx, fy)
    &&& is_walk_path(b, fx as int, fy + 1, sign_at(orig, fx as int, fy as int), policy, p)
    &&& inverted_by(b, p, b2)
}

/// How the scan ends on `b` at `(x, y)` after `m` rounds: no set pixel is
/// left, or the walk from the next one does not close, or one round more than
/// the bitmap has pixels has been made.
pub open spec fn scan_stops(orig: Bitmap, policy: TurnPolicy, b: Bitmap, x: i32, y: i32, m: nat) -> bool {
    ||| nothing_next(b, x, y)
    ||| exists|fx: i32, fy: i32|
        #[trigger] found_next(b, x, y, fx, fy) && never_closes(
            b,
            sign_at(orig, fx as int, fy as int),
            policy,
            fx as int,
            fy + 1,
        )
    ||| m == orig.spec_width() * orig.spec_height() + 1
}

/// The first rounds of a scan of `orig`: working bitmaps `bms`, scan
/// positions `xs`, `ys` and the paths `raw` of each round, from the top row
/// of a copy of `orig`.
pub open spec fn scan_prefix(
    orig: Bitmap,
    policy: TurnPolicy,
    bms: Seq<Bitmap>,
    xs: Seq<i32>,
    ys: Seq<i32>,
    raw: Seq<TracePath>,
) -> bool {
    let m = raw.len();
    &&& bms.len() == m + 1
    &&& xs.len() == m + 1
    &&& ys.len() == m + 1
    &&& bms[0].wf()
    &&& bms[0].spec_width() == orig.spec_width()
    &&& bms[0].spec_height() == orig.spec_height()
    &&& forall|px: int, py: int| #[trigger] bms[0].pixel(px, py) == orig.pixel(px, py)
    &&& xs[0] == 0
    &&& ys[0] == orig.spec_height() - 1
    &&& forall|k: int|
        0 <= k < m ==> #[trigger] scan_round(
            orig,
            policy,
            bms[k],
            xs[k],
            ys[k],
            xs[k + 1],
            ys[k + 1],
            raw[k],
            bms[k + 1],
        )
}

/// A complete scan of `orig`: its first rounds, until the scan stops.
pub open spec fn scan_run(
    orig: Bitmap,
    policy: TurnPolicy,
    bms: Seq<Bitmap>,
    xs: Seq<i32>,
    ys: Seq<i32>,
    raw: Seq<TracePath>,
) -> bool {
    &&& scan_prefix(orig, policy, bms, xs, ys, raw)
    &&& scan_stops(orig, policy, bms.last(), xs.last(), ys.last(), raw.len())
}

/// One more round extends a scan.
proof fn lemma_scan_extend(
    orig: Bitmap,
    policy: TurnPolicy,
    bms: Seq<Bitmap>,
    xs: Seq<i32>,
    ys: Seq<i32>,
    raw: Seq<TracePath>,
    fx: i32,
    fy: i32,
    p: TracePath,
    b2: Bitmap,
    turd_size: i32,
)
    requires
        scan_prefix(orig, policy, bms, xs, ys, raw),
        scan_round(orig, policy, bms.last(), xs.last(), ys.last(), fx, fy, p, b2),
    ensures
        scan_prefix(orig, policy, bms.push(b2), xs.push(fx), ys.push(fy), raw.push(p)),
        raw.push(p).filter(larger_than(turd_size)) == if p.area > turd_size {
            raw.filter(larger_than(turd_size)).push(p)
        } else {
            raw.filter(larger_than(turd_size))
        },
{
    let bms2 = bms.push(b2);
    let xs2 = xs.push(fx);
    let ys2 = ys.push(fy);
    let raw2 = raw.push(p);
    assert forall|k: int|
        0 <= k < raw2.len() implies #[trigger] scan_round(
            orig,
            policy,
            bms2[k],
            xs2[k],
            ys2[k],
            xs2[k + 1],
            ys2[k + 1],
            raw2[k],
            bms2[k + 1],
        ) by {
        if k < raw.len() {
            assert(bms2[k] == bms[k] && bms2[k + 1] == bms[k + 1]);
            assert(xs2[k] == xs[k] && xs2[k + 1] == xs[k + 1]);
            assert(ys2[k] == ys[k] && ys2[k + 1] == ys[k + 1]);
            assert(raw2[k] == raw[k]);
        }
    }
    assert(bms2[0] == bms[0]);
    reveal(Seq::filter);
    assert(raw2.drop_last() =~= raw);
}

/// Whether a path encloses more than `turd_size`.
pub open spec fn larger_than(turd_size: i32) -> spec_fn(TracePath) -> bool {
    |p: TracePath| p.area > turd_size
}

/// `r` is the decomposition of `orig`: the paths of a complete scan that
/// enclose more than `turd_size`, in scan order.
pub open spec fn is_decomposition(orig: Bitmap, policy: TurnPolicy, turd_size: i32, r: Seq<TracePath>) -> bool {
    exists|bms: Seq<Bitmap>, xs: Seq<i32>, ys: Seq<i32>, raw: Seq<TracePath>|
        #[trigger] scan_run(orig, policy, bms, xs, ys, raw) && r == raw.filter(larger_than(turd_size))
}

/// Decomposes a bitmap into closed boundary paths, in scan order from the
/// top row: each set pixel found starts a boundary walk whose interior is
/// then inverted; paths enclosing at most `turd_size` are dropped.
#[verifier::rlimit(80)]
#[verifier::spinoff_prover]
pub fn decompose_bitmap(bitmap: &Bitmap, turn_policy: TurnPolicy, turd_size: i32) -> (r: Vec<
    TracePath,
>)
    requires
        bitmap.wf(),
        bitmap.spec_width() <= i32::MAX - 16,
        bitmap.spec_height() <= i32::MAX - 16,
    ensures
        is_decomposition(*bitmap, turn_policy, turd_size, r@),
        forall|i: int| 0 <= i < r@.len() ==> decomposed_path(*bitmap, turd_size, #[trigger] r@[i]),
{
    proof {
        bitmap.lemma_wf_dims();
    }
    let mut bm = bitmap.duplicate();
    proof {
        bm.lemma_wf_layout();
    }
    bm.clear_excess();
    let mut paths: Vec<TracePath> = Vec::new();
    let mut x: i32 = 0;
    let mut y: i32 = bm.height() - 1;
    let bw: u64 = bitmap.width() as u64;
    let bh: u64 = bitmap.height() as u64;
    assert(bw * bh < 0x4000_0000_0000_0000) by (nonlinear_arith)
        requires
            0 <= bw <= i32::MAX,
            0 <= bh <= i32::MAX,
    ;
    let cells: u64 = bw * bh;
    let fuel: u64 = cells + 1;
    let mut rounds: u64 = 0;
    let ghost mut bms: Seq<Bitmap> = seq![bm];
    let ghost mut xs: Seq<i32> = seq![x];
    let ghost mut ys: Seq<i32> = seq![y];
    let ghost mut raw: Seq<TracePath> = Seq::empty();
    let ghost mut done = false;
    let ghost keep = larger_than(turd_size);
    proof {
        reveal(Seq::filter);
        assert(raw.filter(keep) =~= Seq::<TracePath>::empty());
    }
    while rounds < fuel
        invariant_except_break
            !done,
        invariant
            bitmap.wf(),
            bm.wf(),
            bm.spec_width() == bitmap.spec_width(),
            bm.spec_height() == bitmap.spec_height(),
            bitmap.spec_width() <= i32::MAX - 16,
            bitmap.spec_height() <= i32::MAX - 16,
            y < bm.spec_height(),
            rounds <= fuel,
            fuel == bitmap.spec_width() * bitmap.spec_height() + 1,
            keep == larger_than(turd_size),
            rounds == raw.len(),
            scan_prefix(*bitmap, turn_policy, bms, xs, ys, raw),
            bms.last() == bm,
            xs.last() == x,
            ys.last() == y,
            paths@ == raw.filter(keep),
            done ==> scan_stops(*bitmap, turn_policy, bm, x, y, raw.len()),
            forall|i: int|
                0 <= i < paths@.len() ==> decomposed_path(*bitmap, turd_size, #[trigger] paths@[i]),
        ensures
            done || rounds == fuel,
        decreases fuel - rounds,
    {
        let (fx, fy) = match find_next(&bm, x, y) {
            Some(found) => found,
            None => {
                proof {
                    done = true;
                }
                break;
            },
        };
        proof {
            bm.lemma_pixel_inside(fx as int, fy as int);
        }
        let sign = if bitmap.get(fx, fy) {
            '+'
        } else {
            '-'
        };
        let path = match find_path(&bm, fx, fy + 1, sign, turn_policy) {
            Some(p) => p,
            None => {
                proof {
                    done = true;
                    assert(found_next(bm, x, y, fx, fy));
                }
                break;
            },
        };
        proof {
            lemma_walk_path_loop(bm, fx as int, fy + 1, sign, turn_policy, path);
            assert forall|k: int| 0 <= k < path.points@.len() implies on_bitmap(*bitmap, #[trigger] path.points@[k].x as int, path.points@[k].y as int) by {
                assert(on_bitmap(bm, path.points@[k].x as int, path.points@[k].y as int));
            }
            assert forall|k: int| 0 <= k < path.points@.len() implies on_bitmap(bm, #[trigger] path.points@[k].x as int, path.points@[k].y as int) by {
            }
        }
        let ghost before_bm = bm;
        xor_path(&mut bm, &path);
        proof {
            assert(scan_round(*bitmap, turn_policy, before_bm, x, y, fx, fy, path, bm));
            lemma_scan_extend(*bitmap, turn_policy, bms, xs, ys, raw, fx, fy, path, bm, turd_size);
            bms = bms.push(bm);
            xs = xs.push(fx);
            ys = ys.push(fy);
            raw = raw.push(path);
        }
        x = fx;
        y = fy;
        if path.area > turd_size {
            let ghost before = paths@;
            paths.push(path);
            proof {
                assert forall|i: int| 0 <= i < paths@.len() implies decomposed_path(*bitmap, turd_size, #[trigger] paths@[i]) by {
                    if i < before.len() {
                        assert(paths@[i] == before[i]);
                    }
                }
            }
        }
        rounds = rounds + 1;
    }
    proof {
        assert(scan_run(*bitmap, turn_policy, bms, xs, ys, raw));
    }
    paths
}

} // verus!
