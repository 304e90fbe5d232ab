use vstd::arithmetic::div_mod::lemma_fundamental_div_mod_converse;
use vstd::prelude::*;

verus! {

pub open spec fn abs(a: int) -> int {
    if a < 0 {
        -a
    } else {
        a
    }
}

/// Direction of the minor coordinate as the major one advances: up when the
/// two deltas have the same strict sign, down otherwise.
pub open spec fn minor_step(dx: int, dy: int) -> int {
    if (dx < 0 && dy < 0) || (dx > 0 && dy > 0) {
        1
    } else {
        -1
    }
}

/// How far the minor coordinate has moved after `k` major steps along a line
/// that spans `major` by `minor`: `k * minor / major` rounded to the nearest
/// integer, with halves rounded back toward the start.
pub open spec fn minor_offset(k: int, major: int, minor: int) -> int {
    if major <= 0 {
        0
    } else {
        (2 * minor * k + major - 1) / (2 * major)
    }
}

/// Whether the line steps along x (ties go to x).
pub open spec fn is_x_major(x1: int, y1: int, x2: int, y2: int) -> bool {
    abs(y2 - y1) <= abs(x2 - x1)
}

/// The number of pixels the line visits.
pub open spec fn line_len(x1: int, y1: int, x2: int, y2: int) -> int {
    if is_x_major(x1, y1, x2, y2) {
        abs(x2 - x1) + 1
    } else {
        abs(y2 - y1) + 1
    }
}

/// The `k`-th pixel of the line: the trace starts at the endpoint with the
/// smaller major coordinate and advances that coordinate by one per pixel.
pub open spec fn line_point(x1: int, y1: int, x2: int, y2: int, k: int) -> (int, int) {
    let dx = x2 - x1;
    let dy = y2 - y1;
    let s = minor_step(dx, dy);
    if is_x_major(x1, y1, x2, y2) {
        let (xs, ys) = if dx >= 0 { (x1, y1) } else { (x2, y2) };
        (xs + k, ys + s * minor_offset(k, abs(dx), abs(dy)))
    } else {
        let (xs, ys) = if dy >= 0 { (x1, y1) } else { (x2, y2) };
        (xs + s * minor_offset(k, abs(dy), abs(dx)), ys + k)
    }
}

/// The offset is the integer `m` with `2*minor*k - major <= 2*major*m < 2*minor*k + major`.
proof fn lemma_minor_offset_bounds(k: int, major: int, minor: int, m: int)
    requires
        major > 0,
        2 * minor * k - major <= 2 * major * m,
        2 * major * m < 2 * minor * k + major,
    ensures
        minor_offset(k, major, minor) == m,
{
    let n = 2 * minor * k + major - 1;
    let r = n - m * (2 * major);
    assert(m * (2 * major) == 2 * major * m) by (nonlinear_arith);
    lemma_fundamental_div_mod_converse(n, 2 * major, m, r);
}

/// One step of the decision variable keeps the offset characterisation.
proof fn lemma_step(k: int, d: int, e: int, m: int, p: int)
    requires
        d > 0,
        0 <= e <= d,
        0 <= k,
        2 * e * k - d <= 2 * d * m,
        2 * d * m < 2 * e * k + d,
        p == 2 * e * (k + 1) - d - 2 * d * m,
    ensures
        p > 0 ==> 2 * e * (k + 1) - d <= 2 * d * (m + 1) && 2 * d * (m + 1) < 2 * e * (k + 1) + d,
        p <= 0 ==> 2 * e * (k + 1) - d <= 2 * d * m && 2 * d * m < 2 * e * (k + 1) + d,
{
    assert(2 * e * (k + 1) == 2 * e * k + 2 * e) by (nonlinear_arith);
    assert(2 * d * (m + 1) == 2 * d * m + 2 * d) by (nonlinear_arith);
}

/// Offsets stay between zero and the minor span.
proof fn lemma_offset_range(k: int, d: int, e: int, m: int)
    requires
        d > 0,
        0 <= e,
        0 <= k <= d,
        2 * e * k - d <= 2 * d * m,
        2 * d * m < 2 * e * k + d,
    ensures
        0 <= m <= e,
{
    if m < 0 {
        assert(false) by (nonlinear_arith)
            requires
                m <= -1,
                d > 0,
                0 <= e,
                0 <= k,
                2 * e * k - d <= 2 * d * m,
        ;
    }
    if m > e {
        assert(false) by (nonlinear_arith)
            requires
                m >= e + 1,
                d > 0,
                0 <= e,
                k <= d,
                2 * d * m < 2 * e * k + d,
        ;
    }
}

/// Traces `d + 1` pixels: the major coordinate runs from `a0` upward and the
/// minor one starts at `b0` and moves by `s` per rounding step.
fn trace(a0: i64, b0: i64, d: i64, e: i64, s: i64, x_major: bool) -> (r: Vec<(i32, i32)>)
    requires
        0 <= e <= d,
        d <= u32::MAX,
        s == 1 || s == -1,
        i32::MIN <= a0,
        a0 + d <= i32::MAX,
        i32::MIN <= b0 <= i32::MAX,
        i32::MIN <= b0 + s * e <= i32::MAX,
    ensures
        r@.len() == d + 1,
        forall|k: int|
            #![trigger r@[k]]
            0 <= k <= d ==> {
                let a = a0 + k;
                let b = b0 + s * minor_offset(k, d as int, e as int);
                if x_major {
                    r@[k].0 == a && r@[k].1 == b
                } else {
                    r@[k].0 == b && r@[k].1 == a
                }
            },
{
    let mut pts: Vec<(i32, i32)> = Vec::new();
    let mut k: i64 = 0;
    let mut a: i64 = a0;
    let mut b: i64 = b0;
    let mut p: i64 = 2 * e - d;
    let ghost mut m: int = 0;
    if x_major {
        pts.push((a as i32, b as i32));
    } else {
        pts.push((b as i32, a as i32));
    }
    proof {
        if d > 0 {
            lemma_minor_offset_bounds(0, d as int, e as int, 0);
        }
    }
    while k < d
        invariant
            0 <= e <= d,
            d <= u32::MAX,
            s == 1 || s == -1,
            i32::MIN <= a0,
            a0 + d <= i32::MAX,
            i32::MIN <= b0 <= i32::MAX,
            i32::MIN <= b0 + s * e <= i32::MAX,
            0 <= k <= d,
            a == a0 + k,
            b == b0 + s * m,
            d > 0 ==> 2 * e * k - d <= 2 * d * m,
            d > 0 ==> 2 * d * m < 2 * e * k + d,
            d > 0 ==> p == 2 * e * (k + 1) - d - 2 * d * m,
            m == minor_offset(k as int, d as int, e as int),
            0 <= m <= e,
            pts@.len() == k + 1,
            forall|j: int|
                #![trigger pts@[j]]
                0 <= j <= k ==> {
                    let aj = a0 + j;
                    let bj = b0 + s * minor_offset(j, d as int, e as int);
                    if x_major {
                        pts@[j].0 == aj && pts@[j].1 == bj
                    } else {
                        pts@[j].0 == bj && pts@[j].1 == aj
                    }
                },
        decreases d - k,
    {
        proof {
            lemma_step(k as int, d as int, e as int, m, p as int);
            lemma_offset_range(k as int, d as int, e as int, m);
            if s == 1 {
                assert(s * m == m && s * (m + 1) == m + 1) by (nonlinear_arith)
                    requires
                        s == 1,
                ;
            } else {
                assert(s * m == -m && s * (m + 1) == -m - 1) by (nonlinear_arith)
                    requires
                        s == -1,
                ;
            }
        }
        k = k + 1;
        a = a + 1;
        if p <= 0 {
            p = p + 2 * e;
        } else {
            b = b + s;
            p = p + 2 * (e - d);
            proof {
                m = m + 1;
            }
        }
        proof {
            lemma_offset_range(k as int, d as int, e as int, m);
            lemma_minor_offset_bounds(k as int, d as int, e as int, m);
            assert(2 * e * (k + 1) == 2 * e * k + 2 * e) by (nonlinear_arith);
            assert(2 * d * m - 2 * d == 2 * d * (m - 1)) by (nonlinear_arith);
            if s == 1 {
                assert(s * m == m && s * e == e) by (nonlinear_arith)
                    requires
                        s == 1,
                ;
            } else {
                assert(s * m == -m && s * e == -e) by (nonlinear_arith)
                    requires
                        s == -1,
                ;
            }
        }
        if x_major {
            pts.push((a as i32, b as i32));
        } else {
            pts.push((b as i32, a as i32));
        }
    }
    pts
}

/// Integer-stepped (Bresenham) line from `begin` to `end`, both ends
/// included: one pixel per unit of the longer axis, the other coordinate
/// stepped by the decision variable `2*minor - major`, which grows by
/// `2*minor` or by `2*(minor - major)` at each pixel.
pub fn draw_line(begin: (i32, i32), end: (i32, i32)) -> (r: Vec<(i32, i32)>)
    ensures
        r@.len() == line_len(begin.0 as int, begin.1 as int, end.0 as int, end.1 as int),
        forall|k: int|
            #![trigger r@[k]]
            0 <= k < r@.len() ==> {
                let p = line_point(begin.0 as int, begin.1 as int, end.0 as int, end.1 as int, k);
                r@[k].0 == p.0 && r@[k].1 == p.1
            },
{
    let x1 = begin.0 as i64;
    let y1 = begin.1 as i64;
    let x2 = end.0 as i64;
    let y2 = end.1 as i64;
    let dx = x2 - x1;
    let dy = y2 - y1;
    let dx1 = if dx < 0 { -dx } else { dx };
    let dy1 = if dy < 0 { -dy } else { dy };
    let s: i64 = if (dx < 0 && dy < 0) || (dx > 0 && dy > 0) { 1 } else { -1 };
    if dy1 <= dx1 {
        if dx >= 0 {
            trace(x1, y1, dx1, dy1, s, true)
        } else {
            trace(x2, y2, dx1, dy1, s, true)
        }
    } else {
        if dy >= 0 {
            trace(y1, x1, dy1, dx1, s, false)
        } else {
            trace(y2, x2, dy1, dx1, s, false)
        }
    }
}

} // verus!
