//! Planar geometry over integer coordinates: points, polylines, lateral
//! shifts and trims.
//!
//! All coordinates are integers in a small fixed unit (a centimetre works
//! well), so every geometric operation is exact and free of rounding
//! surprises apart from the explicit integer divisions stated in the
//! specifications.

use vstd::arithmetic::div_mod::{lemma_div_by_multiple, lemma_div_is_ordered, lemma_div_pos_is_pos};
use vstd::prelude::*;

verus! {

/// Largest coordinate magnitude a point of the model may carry. Projected
/// points land in `[0, COORD_LIMIT]`; shifted and trimmed points stay within
/// `PT_LIMIT` in each axis, which keeps all intermediate arithmetic inside
/// `i128`.
pub const COORD_LIMIT: i64 = 1_000_000_000;

/// Bound on every point that appears in a polyline of the model.
pub const PT_LIMIT: i64 = 2_000_000_000;

/// Largest lateral shift width any caller may request.
pub const WIDTH_LIMIT: i64 = 4_000_000;

/// A point on the local plane.
#[derive(Clone, Copy, Debug, PartialEq, Eq, Structural)]
pub struct Pt2D {
    pub x: i64,
    pub y: i64,
}

/// The point is within the coordinate range the model admits.
pub open spec fn pt_ok(p: Pt2D) -> bool {
    -PT_LIMIT <= p.x <= PT_LIMIT && -PT_LIMIT <= p.y <= PT_LIMIT
}

/// Every point of the sequence is within range.
pub open spec fn pts_ok(s: Seq<Pt2D>) -> bool {
    forall|i: int| 0 <= i < s.len() ==> pt_ok(#[trigger] s[i])
}

/// Floor of the square root, defined by primitive recursion.
pub open spec fn sqrt_floor(n: nat) -> nat
    decreases n,
{
    if n == 0 {
        0
    } else {
        let r = sqrt_floor((n - 1) as nat);
        if (r + 1) * (r + 1) <= n {
            r + 1
        } else {
            r
        }
    }
}

/// `sqrt_floor` really is the floor of the square root.
pub proof fn lemma_sqrt_floor_bounds(n: nat)
    ensures
        sqrt_floor(n) * sqrt_floor(n) <= n,
        n < (sqrt_floor(n) + 1) * (sqrt_floor(n) + 1),
    decreases n,
{
    if n == 0 {
        assert(sqrt_floor(n) == 0);
        assert((sqrt_floor(n) + 1) * (sqrt_floor(n) + 1) == 1) by (nonlinear_arith)
            requires sqrt_floor(n) == 0,
        ;
    } else {
        lemma_sqrt_floor_bounds((n - 1) as nat);
        let r = sqrt_floor((n - 1) as nat);
        let s = sqrt_floor(n);
        assert(s == if (r + 1) * (r + 1) <= n { r + 1 } else { r });
        if (r + 1) * (r + 1) <= n {
            assert(s == r + 1);
            assert(n <= (r + 1) * (r + 1));
            assert(n < (s + 1) * (s + 1)) by (nonlinear_arith)
                requires
                    n <= (r + 1) * (r + 1),
                    s == r + 1,
            ;
            assert(s * s <= n);
        } else {
            assert(s == r);
            assert(s * s <= n);
            assert(n < (s + 1) * (s + 1));
        }
    }
}

/// Any integer satisfying the floor property equals `sqrt_floor`.
pub proof fn lemma_sqrt_floor_unique(n: nat, r: nat)
    requires
        r * r <= n,
        n < (r + 1) * (r + 1),
    ensures
        r == sqrt_floor(n),
{
    let s = sqrt_floor(n);
    lemma_sqrt_floor_bounds(n);
    if r < s {
        assert((r + 1) * (r + 1) <= s * s) by (nonlinear_arith)
            requires r + 1 <= s,
        ;
    }
    if s < r {
        assert((s + 1) * (s + 1) <= r * r) by (nonlinear_arith)
            requires s + 1 <= r,
        ;
    }
}

/// Binary-search integer square root.
pub fn isqrt(n: u128) -> (r: u64)
    requires
        n < 0x1_0000_0000_0000_0000_0000_0000_0000,  // < 2^112, so the root fits u64 easily
    ensures
        r == sqrt_floor(n as nat),
{
    let mut lo: u64 = 0;
    // A root of an n < 2^112 is < 2^56.
    let mut hi: u64 = 0x100_0000_0000_0000;
    proof {
        assert((0x100_0000_0000_0000 as nat) * (0x100_0000_0000_0000 as nat) > n as nat);
    }
    // Invariant: lo*lo <= n < hi*hi.
    while lo + 1 < hi
        invariant
            lo < hi,
            (lo as nat) * (lo as nat) <= n as nat,
            (n as nat) < (hi as nat) * (hi as nat),
            hi <= 0x100_0000_0000_0000,
        decreases hi - lo,
    {
        let mid: u64 = lo + (hi - lo) / 2;
        proof {
            assert((mid as u128) * (mid as u128) <= (0x100_0000_0000_0000 as u128) * (
            0x100_0000_0000_0000 as u128)) by (nonlinear_arith)
                requires mid <= 0x100_0000_0000_0000u64,
            ;
        }
        let sq: u128 = (mid as u128) * (mid as u128);
        if sq <= n {
            lo = mid;
        } else {
            hi = mid;
        }
    }
    proof {
        lemma_sqrt_floor_unique(n as nat, lo as nat);
    }
    lo
}

/// Length of the straight segment between two points, rounded down.
pub open spec fn seg_len(a: Pt2D, b: Pt2D) -> int {
    sqrt_floor(((b.x - a.x) * (b.x - a.x) + (b.y - a.y) * (b.y - a.y)) as nat) as int
}

/// Upper bound on any segment length between in-range points.
pub const SEG_LEN_LIMIT: i64 = 6_000_000_000;

pub proof fn lemma_seg_len_bounds(a: Pt2D, b: Pt2D)
    requires
        pt_ok(a),
        pt_ok(b),
    ensures
        0 <= seg_len(a, b) < SEG_LEN_LIMIT,
        seg_len(a, b) == 0 ==> a == b,
{
    let dx = b.x - a.x;
    let dy = b.y - a.y;
    let s = (dx * dx + dy * dy) as nat;
    assert(dx * dx >= 0 && dy * dy >= 0) by (nonlinear_arith);
    lemma_sqrt_floor_bounds(s);
    let r = sqrt_floor(s);
    assert(dx * dx + dy * dy < (SEG_LEN_LIMIT as int) * (SEG_LEN_LIMIT as int)) by (nonlinear_arith)
        requires -4_000_000_000 <= dx <= 4_000_000_000 && -4_000_000_000 <= dy <= 4_000_000_000,
    ;
    if r >= SEG_LEN_LIMIT {
        assert((SEG_LEN_LIMIT as int) * (SEG_LEN_LIMIT as int) <= r * r) by (nonlinear_arith)
            requires r >= SEG_LEN_LIMIT,
        ;
    }
    if r == 0 {
        assert(s < 1) by (nonlinear_arith)
            requires s < (r + 1) * (r + 1) && r == 0,
        ;
        assert(dx == 0 && dy == 0) by (nonlinear_arith)
            requires dx * dx + dy * dy == 0,
        ;
    }
}

/// Arc length along the first `k` segments of a point sequence.
pub open spec fn len_prefix(s: Seq<Pt2D>, k: int) -> int
    decreases k,
{
    if k <= 0 {
        0
    } else {
        len_prefix(s, k - 1) + seg_len(s[k - 1], s[k])
    }
}

/// Total arc length of a point sequence.
pub open spec fn total_len(s: Seq<Pt2D>) -> int {
    len_prefix(s, s.len() - 1)
}

/// Exact distance between two in-range points.
pub fn seg_length(a: Pt2D, b: Pt2D) -> (r: u64)
    requires
        pt_ok(a),
        pt_ok(b),
    ensures
        r == seg_len(a, b),
        r < SEG_LEN_LIMIT as u64,
{
    let dx: i128 = b.x as i128 - a.x as i128;
    let dy: i128 = b.y as i128 - a.y as i128;
    proof {
        assert(dx * dx >= 0 && dy * dy >= 0 && dx * dx < 0x8000_0000_0000_0000_0000 && dy * dy
            < 0x8000_0000_0000_0000_0000) by (nonlinear_arith)
            requires -4_000_000_000 <= dx <= 4_000_000_000 && -4_000_000_000 <= dy <= 4_000_000_000,
        ;
    }
    let sq: i128 = dx * dx + dy * dy;
    let r = isqrt(sq as u128);
    proof {
        lemma_seg_len_bounds(a, b);
    }
    r
}

/// Total arc length of a polyline's points.
pub fn points_length(pts: &Vec<Pt2D>) -> (r: u128)
    requires
        pts_ok(pts@),
        pts@.len() >= 1,
    ensures
        r == total_len(pts@),
{
    let mut acc: u128 = 0;
    let n = pts.len();
    for k in 1..n
        invariant
            n == pts@.len(),
            pts_ok(pts@),
            acc == len_prefix(pts@, k - 1),
            acc <= (k - 1) * (SEG_LEN_LIMIT as int),
    {
        let seg = seg_length(pts[k - 1], pts[k]);
        proof {
            assert((k - 1) * (SEG_LEN_LIMIT as int) + SEG_LEN_LIMIT as int == k as int * (
            SEG_LEN_LIMIT as int)) by (nonlinear_arith);
            assert(k as int * (SEG_LEN_LIMIT as int) <= 0x1_0000_0000_0000_0000 * (
            SEG_LEN_LIMIT as int)) by (nonlinear_arith)
                requires k as int <= 0x1_0000_0000_0000_0000,
            ;
        }
        acc = acc + seg as u128;
    }
    acc
}

/// No two neighbouring points of the sequence coincide.
pub open spec fn adj_distinct(s: Seq<Pt2D>) -> bool {
    forall|i: int| 0 <= i < s.len() - 1 ==> #[trigger] s[i] != s[i + 1]
}

/// A usable polyline: at least two points, all in range.
pub open spec fn pl_wf(s: Seq<Pt2D>) -> bool {
    s.len() >= 2 && pts_ok(s)
}

/// A polyline fit for lateral shifting: additionally free of zero-length
/// segments and inside the tighter centerline coordinate range.
pub open spec fn pl_nondegen(s: Seq<Pt2D>) -> bool {
    pl_wf(s) && adj_distinct(s) && pts_center_ok(s)
}

/// The point is within the range reserved for projected centerlines, which
/// leaves room for lateral shifts and polygon corners to stay inside
/// `PT_LIMIT`.
pub open spec fn pt_center_ok(p: Pt2D) -> bool {
    -COORD_LIMIT <= p.x <= COORD_LIMIT && -COORD_LIMIT <= p.y <= COORD_LIMIT
}

pub open spec fn pts_center_ok(s: Seq<Pt2D>) -> bool {
    forall|i: int| 0 <= i < s.len() ==> pt_center_ok(#[trigger] s[i])
}

/// An ordered run of points describing the course of a road or lane.
#[derive(Clone, Debug, PartialEq)]
pub struct PolyLine {
    pub pts: Vec<Pt2D>,
}

impl View for PolyLine {
    type V = Seq<Pt2D>;

    open spec fn view(&self) -> Seq<Pt2D> {
        self.pts@
    }
}

/// Consecutive duplicate points removed, keeping the first of each run.
pub open spec fn dedup_pts(s: Seq<Pt2D>) -> Seq<Pt2D>
    decreases s.len(),
{
    if s.len() == 0 {
        Seq::empty()
    } else {
        let d = dedup_pts(s.drop_last());
        if d.len() > 0 && d.last() == s.last() {
            d
        } else {
            d.push(s.last())
        }
    }
}

pub proof fn lemma_dedup_pts_props(s: Seq<Pt2D>)
    ensures
        dedup_pts(s).len() <= s.len(),
        s.len() > 0 ==> dedup_pts(s).len() >= 1,
        s.len() > 0 ==> dedup_pts(s)[0] == s[0],
        s.len() > 0 ==> dedup_pts(s).last() == s.last(),
        adj_distinct(dedup_pts(s)),
        forall|i: int| 0 <= i < dedup_pts(s).len() ==> exists|j: int|
            0 <= j < s.len() && #[trigger] dedup_pts(s)[i] == s[j],
    decreases s.len(),
{
    if s.len() > 0 {
        lemma_dedup_pts_props(s.drop_last());
        let d = dedup_pts(s.drop_last());
        let r = dedup_pts(s);
        if s.len() == 1 {
            assert(s.drop_last().len() == 0);
            assert(r =~= seq![s[0]]);
            assert(forall|i: int| 0 <= i < r.len() ==> r[i] == s[0]);
        } else {
            assert(s.drop_last().len() > 0);
            assert(s.drop_last()[0] == s[0]);
            if !(d.len() > 0 && d.last() == s.last()) {
                assert(r == d.push(s.last()));
                assert(forall|i: int| 0 <= i < r.len() - 1 ==> r[i] == d[i]);
                assert(r[r.len() - 1] == s.last());
                assert(d.last() != s.last());
                assert(adj_distinct(r)) by {
                    assert(forall|i: int| 0 <= i < r.len() - 1 ==> #[trigger] r[i] != r[i + 1])
                        by {
                        assert forall|i: int| 0 <= i < r.len() - 1 implies #[trigger] r[i] != r[i
                            + 1] by {
                            if i < r.len() - 2 {
                                assert(r[i] == d[i] && r[i + 1] == d[i + 1]);
                            } else {
                                assert(r[i] == d.last() && r[i + 1] == s.last());
                            }
                        }
                    }
                }
            }
            // every element of s.drop_last() is an element of s
            assert(forall|j: int| 0 <= j < s.len() - 1 ==> #[trigger] s.drop_last()[j] == s[j]);
        }
    }
}

impl PolyLine {
    /// Wrap a checked sequence of points.
    pub fn new(pts: Vec<Pt2D>) -> (r: PolyLine)
        requires
            pl_wf(pts@),
        ensures
            r@ == pts@,
    {
        PolyLine { pts }
    }

    pub fn first_pt(&self) -> (p: Pt2D)
        requires
            self@.len() >= 1,
        ensures
            p == self@[0],
    {
        self.pts[0]
    }

    pub fn last_pt(&self) -> (p: Pt2D)
        requires
            self@.len() >= 1,
        ensures
            p == self@.last(),
    {
        self.pts[self.pts.len() - 1]
    }

    /// The same course walked in the opposite direction.
    pub fn reversed(&self) -> (r: PolyLine)
        requires
            self@.len() >= 1,
        ensures
            r@ == self@.reverse(),
            r@.len() == self@.len(),
    {
        let n = self.pts.len();
        let mut out: Vec<Pt2D> = Vec::new();
        for i in 0..n
            invariant
                n == self@.len(),
                out@.len() == i,
                forall|j: int| 0 <= j < i ==> out@[j] == self@[n - 1 - j],
        {
            out.push(self.pts[n - 1 - i]);
        }
        proof {
            assert(out@ =~= self@.reverse());
        }
        PolyLine { pts: out }
    }

    /// Total arc length.
    pub fn length(&self) -> (r: u128)
        requires
            pts_ok(self@),
            self@.len() >= 1,
        ensures
            r == total_len(self@),
    {
        points_length(&self.pts)
    }
}

/// Division rounding toward zero, the behaviour of machine division on the
/// magnitudes used throughout this module. Meaningful for `b > 0`.
pub open spec fn div_trunc(a: int, b: int) -> int {
    if a >= 0 {
        a / b
    } else {
        -((-a) / b)
    }
}

pub proof fn lemma_div_trunc_bound(a: int, b: int, c: int)
    requires
        b > 0,
        c >= 0,
        -(c * b) <= a <= c * b,
    ensures
        -c <= div_trunc(a, b) <= c,
{
    if a >= 0 {
        lemma_div_pos_is_pos(a, b);
        lemma_div_is_ordered(a, c * b, b);
        lemma_div_by_multiple(c, b);
    } else {
        lemma_div_pos_is_pos(-a, b);
        lemma_div_is_ordered(-a, c * b, b);
        lemma_div_by_multiple(c, b);
    }
}

/// Truncating division on machine integers, mirroring `div_trunc`.
pub fn div_trunc_exec(a: i128, b: i128) -> (r: i128)
    requires
        b > 0,
        -0x1000_0000_0000_0000_0000_0000_0000 < a < 0x1000_0000_0000_0000_0000_0000_0000,
    ensures
        r == div_trunc(a as int, b as int),
{
    if a >= 0 {
        let q = ((a as u128) / (b as u128)) as i128;
        proof {
            lemma_div_pos_is_pos(a as int, b as int);
            lemma_div_is_ordered(a as int, a as int, b as int);
            assert(a as int / b as int <= a) by {
                vstd::arithmetic::div_mod::lemma_div_nonincreasing(a as int, b as int);
            }
        }
        q
    } else {
        let m = -a;
        let q = ((m as u128) / (b as u128)) as i128;
        proof {
            lemma_div_pos_is_pos(m as int, b as int);
            assert(m as int / b as int <= m) by {
                vstd::arithmetic::div_mod::lemma_div_nonincreasing(m as int, b as int);
            }
        }
        -q
    }
}

/// The magnitude of a lateral width.
pub open spec fn width_mag(w: int) -> int {
    if w >= 0 {
        w
    } else {
        -w
    }
}

/// Lateral offset, perpendicular and to the right of the segment `a -> b`,
/// of magnitude at most `w`.
pub open spec fn seg_offset(a: Pt2D, b: Pt2D, w: int) -> (int, int) {
    let l = seg_len(a, b);
    if l == 0 {
        (0, 0)
    } else {
        (div_trunc(w * (b.y - a.y), l), div_trunc(-(w * (b.x - a.x)), l))
    }
}

/// Each component of a segment vector is bounded by the segment's length.
proof fn lemma_component_le_len(a: Pt2D, b: Pt2D)
    requires
        pt_ok(a),
        pt_ok(b),
    ensures
        -seg_len(a, b) <= b.x - a.x <= seg_len(a, b),
        -seg_len(a, b) <= b.y - a.y <= seg_len(a, b),
{
    let dx = b.x - a.x;
    let dy = b.y - a.y;
    assert(dx * dx >= 0 && dy * dy >= 0) by (nonlinear_arith);
    let s = (dx * dx + dy * dy) as nat;
    lemma_sqrt_floor_bounds(s);
    let l = sqrt_floor(s) as int;
    assert(-l <= dx <= l && -l <= dy <= l) by (nonlinear_arith)
        requires
            dx * dx + dy * dy == s,
            s < (l + 1) * (l + 1),
            l >= 0,
    ;
}

pub proof fn lemma_seg_offset_bound(a: Pt2D, b: Pt2D, w: int)
    requires
        pt_ok(a),
        pt_ok(b),
        -WIDTH_LIMIT <= w <= WIDTH_LIMIT,
    ensures
        -WIDTH_LIMIT <= seg_offset(a, b, w).0 <= WIDTH_LIMIT,
        -WIDTH_LIMIT <= seg_offset(a, b, w).1 <= WIDTH_LIMIT,
{
    let l = seg_len(a, b);
    lemma_seg_len_bounds(a, b);
    if l != 0 {
        lemma_component_le_len(a, b);
        let mw = width_mag(w);
        assert(-((WIDTH_LIMIT as int) * l) <= w * (b.y - a.y) <= (WIDTH_LIMIT as int) * l)
            by (nonlinear_arith)
            requires
                -l <= b.y - a.y <= l,
                -WIDTH_LIMIT <= w <= WIDTH_LIMIT,
                l > 0,
        ;
        assert(-((WIDTH_LIMIT as int) * l) <= -(w * (b.x - a.x)) <= (WIDTH_LIMIT as int) * l)
            by (nonlinear_arith)
            requires
                -l <= b.x - a.x <= l,
                -WIDTH_LIMIT <= w <= WIDTH_LIMIT,
                l > 0,
        ;
        lemma_div_trunc_bound(w * (b.y - a.y), l, WIDTH_LIMIT as int);
        lemma_div_trunc_bound(-(w * (b.x - a.x)), l, WIDTH_LIMIT as int);
    }
}

/// Index of the segment that dictates the shift direction of point `i`.
pub open spec fn guide_seg(s: Seq<Pt2D>, i: int) -> int {
    if i < s.len() - 1 {
        i
    } else {
        s.len() - 2
    }
}

/// Point `i` of the polyline, moved sideways by `w`.
pub open spec fn shifted_pt(s: Seq<Pt2D>, w: int, i: int) -> Pt2D {
    let j = guide_seg(s, i);
    let o = seg_offset(s[j], s[j + 1], w);
    Pt2D { x: (s[i].x + o.0) as i64, y: (s[i].y + o.1) as i64 }
}

/// The whole polyline moved sideways by `w`; positive `w` moves it to the
/// right of the direction of travel.
pub open spec fn shifted_pts(s: Seq<Pt2D>, w: int) -> Seq<Pt2D> {
    Seq::new(s.len(), |i: int| shifted_pt(s, w, i))
}

impl PolyLine {
    /// Move the polyline sideways by `w` without regard for how distorted
    /// the result may be. Always yields a polyline of the same number of
    /// points.
    pub fn shift_blindly(&self, w: i64) -> (r: PolyLine)
        requires
            pl_nondegen(self@),
            -WIDTH_LIMIT <= w <= WIDTH_LIMIT,
        ensures
            r@ =~= shifted_pts(self@, w as int),
            r@.len() == self@.len(),
            pts_ok(r@),
    {
        let n = self.pts.len();
        let mut out: Vec<Pt2D> = Vec::new();
        for i in 0..n
            invariant
                n == self@.len(),
                pl_nondegen(self@),
                -WIDTH_LIMIT <= w <= WIDTH_LIMIT,
                out@.len() == i,
                forall|k: int| 0 <= k < i ==> out@[k] == shifted_pt(self@, w as int, k),
                forall|k: int| 0 <= k < i ==> pt_ok(#[trigger] out@[k]),
        {
            let j = if i < n - 1 { i } else { n - 2 };
            let a = self.pts[j];
            let b = self.pts[j + 1];
            let l = seg_length(a, b);
            proof {
                lemma_seg_len_bounds(a, b);
                assert(a != b);
                lemma_component_le_len(a, b);
                lemma_seg_offset_bound(a, b, w as int);
            }
            let dy: i128 = b.y as i128 - a.y as i128;
            let dx: i128 = b.x as i128 - a.x as i128;
            proof {
                assert(-0x1_0000_0000_0000_0000 < w as i128 * dy < 0x1_0000_0000_0000_0000
                    && -0x1_0000_0000_0000_0000 < w as i128 * dx < 0x1_0000_0000_0000_0000)
                    by (nonlinear_arith)
                    requires
                        -WIDTH_LIMIT <= w <= WIDTH_LIMIT,
                        -4_000_000_000 <= dy <= 4_000_000_000,
                        -4_000_000_000 <= dx <= 4_000_000_000,
                ;
            }
            let ox = div_trunc_exec(w as i128 * dy, l as i128);
            let oy = div_trunc_exec(-(w as i128 * dx), l as i128);
            let p = self.pts[i];
            out.push(Pt2D { x: p.x + ox as i64, y: p.y + oy as i64 });
        }
        PolyLine { pts: out }
    }

    /// Move the polyline sideways by `w`, succeeding only when the course is
    /// long enough (at least twice the magnitude of the shift) for a clean
    /// offset.
    pub fn shift(&self, w: i64) -> (r: Option<PolyLine>)
        requires
            pl_nondegen(self@),
            -WIDTH_LIMIT <= w <= WIDTH_LIMIT,
        ensures
            r is Some <==> total_len(self@) >= 2 * width_mag(w as int),
            r is Some ==> r->Some_0@ =~= shifted_pts(self@, w as int),
            r is Some ==> pts_ok(r->Some_0@) && r->Some_0@.len() == self@.len(),
    {
        let total = self.length();
        let mag: u128 = if w >= 0 { w as u128 } else { (-w) as u128 };
        if total >= 2 * mag {
            Some(self.shift_blindly(w))
        } else {
            None
        }
    }
}

/// Point at fraction `t / l` of the way from `a` to `b`, by exact integer
/// interpolation. Meaningful for `0 <= t < l == seg_len(a, b)`.
pub open spec fn interp(a: Pt2D, b: Pt2D, t: int, l: int) -> Pt2D {
    Pt2D {
        x: (a.x + div_trunc((b.x - a.x) * t, l)) as i64,
        y: (a.y + div_trunc((b.y - a.y) * t, l)) as i64,
    }
}

/// The interpolated point stays inside the bounding box of its segment.
pub proof fn lemma_interp_in_hull(a: Pt2D, b: Pt2D, t: int, l: int)
    requires
        0 <= t < l,
    ensures
        (if a.x <= b.x { a.x as int } else { b.x as int }) <= interp(a, b, t, l).x as int,
        interp(a, b, t, l).x as int <= (if a.x <= b.x { b.x as int } else { a.x as int }),
        (if a.y <= b.y { a.y as int } else { b.y as int }) <= interp(a, b, t, l).y as int,
        interp(a, b, t, l).y as int <= (if a.y <= b.y { b.y as int } else { a.y as int }),
{
    lemma_interp_component(b.x - a.x, t, l);
    lemma_interp_component(b.y - a.y, t, l);
}

/// One axis of the interpolation stays between `0` and the segment's
/// displacement `d`.
proof fn lemma_interp_component(d: int, t: int, l: int)
    requires
        0 <= t < l,
    ensures
        d >= 0 ==> 0 <= div_trunc(d * t, l) <= d,
        d < 0 ==> d <= div_trunc(d * t, l) <= 0,
{
    if d >= 0 {
        assert(0 <= d * t <= d * l) by (nonlinear_arith)
            requires 0 <= t < l && d >= 0,
        ;
        lemma_div_trunc_bound(d * t, l, d);
    } else {
        assert(-((-d) * l) <= d * t <= 0) by (nonlinear_arith)
            requires 0 <= t < l && d < 0,
        ;
        lemma_div_trunc_bound(d * t, l, -d);
        assert(div_trunc(d * t, l) <= 0) by {
            if d * t < 0 {
                lemma_div_pos_is_pos(-(d * t), l);
            } else {
                lemma_div_pos_is_pos(d * t, l);
                lemma_div_is_ordered(d * t, 0, l);
                vstd::arithmetic::div_mod::lemma_div_of0(l);
            }
        }
    }
}

/// The point an arc distance `t` along the polyline, clamped to the final
/// point when `t` runs past the end.
pub open spec fn point_at(s: Seq<Pt2D>, t: int) -> Pt2D
    decreases s.len(),
{
    if s.len() == 0 {
        Pt2D { x: 0, y: 0 }
    } else if s.len() == 1 {
        s[0]
    } else {
        let l = seg_len(s[0], s[1]);
        if t < l {
            interp(s[0], s[1], t, l)
        } else {
            point_at(s.skip(1), t - l)
        }
    }
}

pub proof fn lemma_point_at_in_bounds(s: Seq<Pt2D>, t: int)
    requires
        pts_ok(s),
        s.len() >= 1,
        t >= 0,
    ensures
        pt_ok(point_at(s, t)),
    decreases s.len(),
{
    if s.len() >= 2 {
        let l = seg_len(s[0], s[1]);
        lemma_seg_len_bounds(s[0], s[1]);
        if t < l {
            lemma_interp_in_hull(s[0], s[1], t, l);
            lemma_interp_component(s[1].x - s[0].x, t, l);
            lemma_interp_component(s[1].y - s[0].y, t, l);
        } else {
            assert(pts_ok(s.skip(1))) by {
                assert(forall|i: int| 0 <= i < s.skip(1).len() ==> #[trigger] s.skip(1)[i] == s[i
                    + 1]);
            }
            lemma_point_at_in_bounds(s.skip(1), t - l);
        }
    }
}

/// Reversal keeps a polyline fit for shifting.
pub proof fn lemma_reverse_nondegen(orig: Seq<Pt2D>, rev: Seq<Pt2D>)
    requires
        pl_nondegen(orig),
        rev == orig.reverse(),
    ensures
        pl_nondegen(rev),
{
    assert(forall|q: int| 0 <= q < rev.len() ==> #[trigger] rev[q] == orig[orig.len() - 1 - q]);
    assert forall|q: int| 0 <= q < rev.len() - 1 implies #[trigger] rev[q] != rev[q + 1] by {
        assert(orig[orig.len() - 1 - q - 1] != orig[orig.len() - 1 - q - 1 + 1]);
    }
}

/// Segment lengths and their prefix sums are never negative.
pub proof fn lemma_len_prefix_nonneg(s: Seq<Pt2D>, k: int)
    ensures
        len_prefix(s, k) >= 0,
    decreases k,
{
    if k > 0 {
        lemma_len_prefix_nonneg(s, k - 1);
    }
}

/// The arc length of a polyline is its first segment plus the rest.
pub proof fn lemma_total_len_decompose(s: Seq<Pt2D>)
    requires
        s.len() >= 2,
    ensures
        total_len(s) == seg_len(s[0], s[1]) + total_len(s.skip(1)),
{
    lemma_len_prefix_skip(s, s.len() - 1);
}

proof fn lemma_len_prefix_skip(s: Seq<Pt2D>, k: int)
    requires
        1 <= k < s.len(),
        s.len() >= 2,
    ensures
        len_prefix(s, k) == seg_len(s[0], s[1]) + len_prefix(s.skip(1), k - 1),
    decreases k,
{
    assert(s.skip(1).len() == s.len() - 1);
    assert(forall|j: int| 0 <= j < s.len() - 1 ==> #[trigger] s.skip(1)[j] == s[j + 1]);
    if k == 1 {
        assert(len_prefix(s, 0) == 0 && len_prefix(s.skip(1), 0) == 0);
        assert(len_prefix(s, 1) == len_prefix(s, 0) + seg_len(s[0], s[1]));
    } else {
        lemma_len_prefix_skip(s, k - 1);
        assert(s.skip(1)[k - 2] == s[k - 1] && s.skip(1)[k - 1] == s[k]);
        assert(len_prefix(s, k) == len_prefix(s, k - 1) + seg_len(s[k - 1], s[k]));
        assert(len_prefix(s.skip(1), k - 1) == len_prefix(s.skip(1), k - 2) + seg_len(
            s.skip(1)[k - 2],
            s.skip(1)[k - 1],
        ));
    }
}

/// Walking no distance stays at the first point.
pub proof fn lemma_point_at_zero(s: Seq<Pt2D>)
    requires
        s.len() >= 1,
        pts_ok(s),
    ensures
        point_at(s, 0) == s[0],
    decreases s.len(),
{
    if s.len() >= 2 {
        let l = seg_len(s[0], s[1]);
        lemma_seg_len_bounds(s[0], s[1]);
        if 0 < l {
            assert((s[1].x - s[0].x) * 0 == 0 && (s[1].y - s[0].y) * 0 == 0) by (nonlinear_arith);
            vstd::arithmetic::div_mod::lemma_div_of0(l);
        } else {
            assert(s[0] == s[1]);
            assert(pts_ok(s.skip(1))) by {
                assert(forall|j: int| 0 <= j < s.skip(1).len() ==> #[trigger] s.skip(1)[j] == s[j
                    + 1]);
            }
            lemma_point_at_zero(s.skip(1));
            assert(s.skip(1)[0] == s[1]);
        }
    }
}

/// Walking the whole arc length arrives at the last point.
pub proof fn lemma_point_at_total(s: Seq<Pt2D>)
    requires
        s.len() >= 1,
        pts_ok(s),
    ensures
        point_at(s, total_len(s)) == s.last(),
    decreases s.len(),
{
    if s.len() >= 2 {
        lemma_total_len_decompose(s);
        lemma_len_prefix_nonneg(s.skip(1), s.skip(1).len() - 1);
        lemma_seg_len_bounds(s[0], s[1]);
        assert(pts_ok(s.skip(1))) by {
            assert(forall|j: int| 0 <= j < s.skip(1).len() ==> #[trigger] s.skip(1)[j] == s[j
                + 1]);
        }
        lemma_point_at_total(s.skip(1));
        assert(s.skip(1).last() == s.last());
    }
}

/// Exact interpolation within one segment.
fn interp_exec(a: Pt2D, b: Pt2D, t: u64, l: u64) -> (p: Pt2D)
    requires
        pt_ok(a),
        pt_ok(b),
        t < l,
        l == seg_len(a, b),
    ensures
        p == interp(a, b, t as int, l as int),
        pt_ok(p),
{
    proof {
        lemma_seg_len_bounds(a, b);
        lemma_interp_in_hull(a, b, t as int, l as int);
        lemma_interp_component(b.x - a.x, t as int, l as int);
        lemma_interp_component(b.y - a.y, t as int, l as int);
        assert(-0x1000_0000_0000_0000_0000_0000_0000 < (b.x as i128 - a.x as i128) * (t as i128)
            < 0x1000_0000_0000_0000_0000_0000_0000 && -0x1000_0000_0000_0000_0000_0000_0000 < (
        b.y as i128 - a.y as i128) * (t as i128) < 0x1000_0000_0000_0000_0000_0000_0000)
            by (nonlinear_arith)
            requires
                -4_000_000_000 <= b.x as i128 - a.x as i128 <= 4_000_000_000,
                -4_000_000_000 <= b.y as i128 - a.y as i128 <= 4_000_000_000,
                0 <= t < 6_000_000_000,
        ;
    }
    let qx = div_trunc_exec((b.x as i128 - a.x as i128) * (t as i128), l as i128);
    let qy = div_trunc_exec((b.y as i128 - a.y as i128) * (t as i128), l as i128);
    Pt2D { x: a.x + qx as i64, y: a.y + qy as i64 }
}

/// The point an arc distance `t` along the polyline.
pub fn point_at_exec(pts: &Vec<Pt2D>, t: u128) -> (p: Pt2D)
    requires
        pts_ok(pts@),
        pts@.len() >= 1,
    ensures
        p == point_at(pts@, t as int),
        pt_ok(p),
{
    let ghost s = pts@;
    let n = pts.len();
    let mut i: usize = 0;
    let mut rem: u128 = t;
    proof {
        assert(s.skip(0) =~= s);
    }
    while i < n - 1
        invariant
            pts_ok(s),
            s == pts@,
            n == s.len(),
            1 <= n,
            0 <= i < n,
            point_at(s, t as int) == point_at(s.skip(i as int), rem as int),
        decreases n - i,
    {
        let a = pts[i];
        let b = pts[i + 1];
        let l = seg_length(a, b);
        proof {
            assert(s.skip(i as int)[0] == s[i as int]);
            assert(s.skip(i as int)[1] == s[i as int + 1]);
            assert(s.skip(i as int).skip(1) =~= s.skip(i as int + 1));
        }
        if rem < l as u128 {
            let p = interp_exec(a, b, rem as u64, l);
            proof {
                lemma_point_at_in_bounds(s, t as int);
            }
            return p;
        }
        rem = rem - l as u128;
        i = i + 1;
    }
    proof {
        assert(s.skip(i as int).len() == 1);
        assert(s.skip(i as int)[0] == s[i as int]);
        lemma_point_at_in_bounds(s, t as int);
    }
    pts[i]
}

impl PolyLine {
    /// Cut the polyline back by an arc distance at each end, so that it
    /// begins and ends exactly at the stated positions along the original
    /// course.
    pub fn trimmed(&self, from_start: u128, from_end: u128) -> (r: PolyLine)
        requires
            pl_wf(self@),
            from_start + from_end < total_len(self@),
        ensures
            pl_wf(r@),
            r@[0] == point_at(self@, from_start as int),
            r@.last() == point_at(self@, total_len(self@) - from_end as int),
    {
        let ghost s = self@;
        let n = self.pts.len();
        let total = self.length();
        let end_t: u128 = total - from_end;
        let start_pt = point_at_exec(&self.pts, from_start);
        let end_pt = point_at_exec(&self.pts, end_t);
        let mut out: Vec<Pt2D> = Vec::new();
        out.push(start_pt);
        let mut acc: u128 = 0;
        for k in 1..n
            invariant
                s == self@,
                pl_wf(s),
                n == s.len(),
                acc == len_prefix(s, k - 1),
                acc <= (k - 1) * (SEG_LEN_LIMIT as int),
                out@.len() >= 1,
                out@[0] == start_pt,
                pts_ok(out@),
        {
            let seg = seg_length(self.pts[k - 1], self.pts[k]);
            proof {
                assert((k - 1) * (SEG_LEN_LIMIT as int) + SEG_LEN_LIMIT as int == k as int * (
                SEG_LEN_LIMIT as int)) by (nonlinear_arith);
                assert(k as int * (SEG_LEN_LIMIT as int) <= 0x1_0000_0000_0000_0000 * (
                SEG_LEN_LIMIT as int)) by (nonlinear_arith)
                    requires k as int <= 0x1_0000_0000_0000_0000,
                ;
            }
            acc = acc + seg as u128;
            if from_start < acc && acc < end_t {
                out.push(self.pts[k]);
            }
        }
        out.push(end_pt);
        PolyLine { pts: out }
    }
}

/// A geographic coordinate in microdegrees.
#[derive(Clone, Copy, Debug, PartialEq, Eq, Structural)]
pub struct LonLat {
    pub lon: i64,
    pub lat: i64,
}

/// The bounding box a map's projection is derived from, in microdegrees.
#[derive(Clone, Copy, Debug, PartialEq, Eq, Structural)]
pub struct GPSBounds {
    pub min_lon: i64,
    pub min_lat: i64,
    pub max_lon: i64,
    pub max_lat: i64,
}

/// Where a geographic coordinate lands on the local plane: `x` grows
/// eastward from the western edge, `y` grows southward from the northern
/// edge. `None` when the coordinate leaves the representable range.
pub open spec fn spec_project(p: LonLat, b: GPSBounds) -> Option<Pt2D> {
    let x = p.lon - b.min_lon;
    let y = b.max_lat - p.lat;
    if 0 <= x <= COORD_LIMIT && 0 <= y <= COORD_LIMIT {
        Some(Pt2D { x: x as i64, y: y as i64 })
    } else {
        None
    }
}

/// Convert a geographic coordinate to the local plane. Fails exactly when
/// the coordinate is out of the representable range of the bounding box.
pub fn project(p: LonLat, b: &GPSBounds) -> (r: Option<Pt2D>)
    ensures
        r == spec_project(p, *b),
        r is Some ==> pt_center_ok(r->Some_0) && 0 <= r->Some_0.x && 0 <= r->Some_0.y,
{
    let x: i128 = p.lon as i128 - b.min_lon as i128;
    let y: i128 = b.max_lat as i128 - p.lat as i128;
    if 0 <= x && x <= COORD_LIMIT as i128 && 0 <= y && y <= COORD_LIMIT as i128 {
        Some(Pt2D { x: x as i64, y: y as i64 })
    } else {
        None
    }
}

} // verus!
