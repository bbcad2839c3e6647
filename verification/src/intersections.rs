//! The two polygon passes of an intersection: a coarse polygon first, from
//! the incident roads' nominal widths and directions, and the refined
//! "toothy" polygon later, from the trimmed lane geometry itself.

use crate::geometry::{
    div_trunc_exec, lemma_seg_len_bounds, lemma_seg_offset_bound, point_at_exec, pt_ok, seg_length,
    seg_offset, Pt2D, WIDTH_LIMIT,
};
use crate::model::{Intersection, Lane, Road};
use crate::types::{Config, LaneID};
use vstd::prelude::*;

verus! {

/// Half the nominal width of a road, in map units: half a lane thickness
/// per child lane.
pub open spec fn spec_half_width(r: Road, thickness: int) -> int {
    thickness * (r.children_forwards@.len() + r.children_backwards@.len()) / 2
}

/// The trim radius of an intersection: the widest incident road's half
/// width, considering the roads listed from position `j` on.
pub open spec fn radius_from(i: Intersection, rs: Seq<Road>, thickness: int, j: int) -> int
    decreases i.roads@.len() - j,
{
    if j < 0 || j >= i.roads@.len() {
        0
    } else {
        let w = spec_half_width(rs[i.roads@[j].0 as int], thickness);
        let rest = radius_from(i, rs, thickness, j + 1);
        if w >= rest {
            w
        } else {
            rest
        }
    }
}

/// The trim radius of an intersection.
pub open spec fn spec_radius(i: Intersection, rs: Seq<Road>, thickness: int) -> int {
    radius_from(i, rs, thickness, 0)
}

/// Roads carry at most `MAX_LANES_PER_ROAD` children in each list.
pub open spec fn road_widths_ok(rs: Seq<Road>) -> bool {
    forall|k: int| 0 <= k < rs.len() ==> (#[trigger] rs[k]).children_forwards@.len() + rs[
        k
    ].children_backwards@.len() <= 32
}

pub proof fn lemma_radius_bounds(i: Intersection, rs: Seq<Road>, thickness: int, j: int)
    requires
        road_widths_ok(rs),
        0 < thickness <= 65536,
        forall|q: int| 0 <= q < i.roads@.len() ==> (#[trigger] i.roads@[q]).0 < rs.len(),
    ensures
        0 <= radius_from(i, rs, thickness, j) <= 1_048_576,
    decreases i.roads@.len() - j,
{
    if 0 <= j < i.roads@.len() {
        lemma_radius_bounds(i, rs, thickness, j + 1);
        let r = rs[i.roads@[j].0 as int];
        let c = r.children_forwards@.len() + r.children_backwards@.len();
        assert(0 <= thickness * c <= 65536 * 32) by (nonlinear_arith)
            requires 0 < thickness <= 65536 && 0 <= c <= 32,
        ;
        assert(0 <= thickness * c / 2 <= 1_048_576) by (nonlinear_arith)
            requires 0 <= thickness * c <= 2_097_152,
        ;
    }
}

/// Half the nominal width of a road.
pub fn half_width(r: &Road, cfg: &Config) -> (w: u64)
    requires
        crate::types::config_wf(cfg),
        r.children_forwards@.len() + r.children_backwards@.len() <= 32,
    ensures
        w == spec_half_width(*r, cfg.lane_thickness as int),
        w <= 1_048_576,
{
    let c = r.children_forwards.len() + r.children_backwards.len();
    let t = cfg.lane_thickness as u64;
    proof {
        assert(t * c <= 65536 * 32) by (nonlinear_arith)
            requires 0 < t <= 65536 && c <= 32,
        ;
    }
    (t * (c as u64)) / 2
}

/// The trim radius of an intersection: the widest incident road's half
/// width.
pub fn intersection_radius(i: &Intersection, roads: &Vec<Road>, cfg: &Config) -> (r: u64)
    requires
        crate::types::config_wf(cfg),
        road_widths_ok(roads@),
        forall|q: int| 0 <= q < i.roads@.len() ==> (#[trigger] i.roads@[q]).0 < roads@.len(),
    ensures
        r == spec_radius(*i, roads@, cfg.lane_thickness as int),
        r <= 1_048_576,
{
    let n = i.roads.len();
    let mut best: u64 = 0;
    let mut j: usize = n;
    proof {
        lemma_radius_bounds(*i, roads@, cfg.lane_thickness as int, 0);
    }
    while j > 0
        invariant
            crate::types::config_wf(cfg),
            road_widths_ok(roads@),
            forall|q: int| 0 <= q < i.roads@.len() ==> (#[trigger] i.roads@[q]).0 < roads@.len(),
            n == i.roads@.len(),
            0 <= j <= n,
            best == radius_from(*i, roads@, cfg.lane_thickness as int, j as int),
            best <= 1_048_576,
        decreases j,
    {
        j = j - 1;
        let w = half_width(&roads[i.roads[j].0], cfg);
        if w > best {
            best = w;
        }
    }
    best
}

/// The two corner points of a tooth: the anchor moved sideways by `w` in
/// both directions across the segment `a -> b`.
fn tooth_corners(anchor: Pt2D, a: Pt2D, b: Pt2D, w: u64) -> (c: (Pt2D, Pt2D))
    requires
        pt_ok(a),
        pt_ok(b),
        pt_ok(anchor),
        w <= WIDTH_LIMIT,
    ensures
        ({
            let o = seg_offset(a, b, w as int);
            c.0 == (Pt2D { x: (anchor.x + o.0) as i64, y: (anchor.y + o.1) as i64 }) && c.1 == (
            Pt2D { x: (anchor.x - o.0) as i64, y: (anchor.y - o.1) as i64 })
        }),
{
    let l = seg_length(a, b);
    proof {
        lemma_seg_len_bounds(a, b);
        lemma_seg_offset_bound(a, b, w as int);
    }
    if l == 0 {
        return (anchor, anchor);
    }
    let dy: i128 = b.y as i128 - a.y as i128;
    let dx: i128 = b.x as i128 - a.x as i128;
    proof {
        assert(-0x1_0000_0000_0000_0000 < w as i128 * dy < 0x1_0000_0000_0000_0000
            && -0x1_0000_0000_0000_0000 < w as i128 * dx < 0x1_0000_0000_0000_0000)
            by (nonlinear_arith)
            requires
                0 <= w <= WIDTH_LIMIT,
                -4_000_000_000 <= dy <= 4_000_000_000,
                -4_000_000_000 <= dx <= 4_000_000_000,
        ;
    }
    let ox = div_trunc_exec(w as i128 * dy, l as i128);
    let oy = div_trunc_exec(-(w as i128 * dx), l as i128);
    (
        Pt2D { x: anchor.x + ox as i64, y: anchor.y + oy as i64 },
        Pt2D { x: anchor.x - ox as i64, y: anchor.y - oy as i64 },
    )
}

/// Pass 1: the coarse polygon of an intersection, carved from the incident
/// roads' nominal widths and centerline directions: the intersection point,
/// then one pair of corners per incident road, where each road's corridor
/// crosses the circle of the trim radius.
pub fn initial_intersection_polygon(i: &Intersection, roads: &Vec<Road>, cfg: &Config) -> (poly:
    Vec<Pt2D>)
    requires
        crate::types::config_wf(cfg),
        road_widths_ok(roads@),
        i.roads@.len() >= 1,
        forall|q: int| 0 <= q < i.roads@.len() ==> (#[trigger] i.roads@[q]).0 < roads@.len(),
        forall|k: int| 0 <= k < roads@.len() ==> crate::geometry::pl_nondegen(
            (#[trigger] roads@[k]).center_pts@,
        ),
    ensures
        poly@.len() == 1 + 2 * i.roads@.len(),
        poly@[0] == i.point,
{
    let radius = intersection_radius(i, roads, cfg);
    let mut poly: Vec<Pt2D> = Vec::new();
    poly.push(i.point);
    let n = i.roads.len();
    for j in 0..n
        invariant
            crate::types::config_wf(cfg),
            road_widths_ok(roads@),
            n == i.roads@.len(),
            forall|q: int| 0 <= q < i.roads@.len() ==> (#[trigger] i.roads@[q]).0 < roads@.len(),
            forall|k: int| 0 <= k < roads@.len() ==> crate::geometry::pl_nondegen(
                (#[trigger] roads@[k]).center_pts@,
            ),
            radius <= 1_048_576,
            poly@.len() == 1 + 2 * j,
            poly@[0] == i.point,
    {
        let road = &roads[i.roads[j].0];
        let w = half_width(road, cfg);
        let cl = &road.center_pts;
        let n_pts = cl.pts.len();
        // anchor the corners where the road's corridor meets the radius,
        // measured along the centerline from this intersection's end
        let (anchor, a, b): (Pt2D, Pt2D, Pt2D) = if road.src_i == i.id {
            (point_at_exec(&cl.pts, radius as u128), cl.pts[0], cl.pts[1])
        } else {
            let total = cl.length();
            let t: u128 = if total > radius as u128 {
                total - radius as u128
            } else {
                0
            };
            (point_at_exec(&cl.pts, t), cl.pts[n_pts - 1], cl.pts[n_pts - 2])
        };
        let (c1, c2) = tooth_corners(anchor, a, b, w);
        poly.push(c1);
        poly.push(c2);
    }
    poly
}

/// Pass 2: the refined polygon of an intersection, following the teeth of
/// the trimmed lanes that converge on it. Every incident lane's trimmed
/// endpoint is itself a vertex, so lanes provably terminate on the
/// boundary.
pub fn toothy_intersection_polygon(i: &Intersection, lanes: &Vec<Lane>, cfg: &Config) -> (poly:
    Vec<Pt2D>)
    requires
        crate::types::config_wf(cfg),
        forall|j: int| 0 <= j < i.incoming_lanes@.len() ==> (#[trigger] i.incoming_lanes@[j]).0
            < lanes@.len(),
        forall|j: int| 0 <= j < i.outgoing_lanes@.len() ==> (#[trigger] i.outgoing_lanes@[j]).0
            < lanes@.len(),
        forall|k: int| 0 <= k < lanes@.len() ==> crate::geometry::pl_wf(
            (#[trigger] lanes@[k]).lane_center_pts@,
        ),
    ensures
        poly@.len() == 3 * (i.incoming_lanes@.len() + i.outgoing_lanes@.len()),
        forall|j: int| 0 <= j < i.incoming_lanes@.len() ==> poly@[3 * j] == lanes@[(
        #[trigger] i.incoming_lanes@[j]).0 as int].lane_center_pts@.last(),
        forall|j: int| 0 <= j < i.outgoing_lanes@.len() ==> poly@[3 * (i.incoming_lanes@.len()
            + j)] == lanes@[(#[trigger] i.outgoing_lanes@[j]).0 as int].lane_center_pts@[0],
{
    let half: u64 = (cfg.lane_thickness / 2) as u64;
    let mut poly: Vec<Pt2D> = Vec::new();
    let n_in = i.incoming_lanes.len();
    let n_out = i.outgoing_lanes.len();
    for j in 0..n_in
        invariant
            crate::types::config_wf(cfg),
            half <= 32768,
            n_in == i.incoming_lanes@.len(),
            n_out == i.outgoing_lanes@.len(),
            forall|q: int| 0 <= q < i.incoming_lanes@.len() ==> (
            #[trigger] i.incoming_lanes@[q]).0 < lanes@.len(),
            forall|q: int| 0 <= q < i.outgoing_lanes@.len() ==> (
            #[trigger] i.outgoing_lanes@[q]).0 < lanes@.len(),
            forall|k: int| 0 <= k < lanes@.len() ==> crate::geometry::pl_wf(
                (#[trigger] lanes@[k]).lane_center_pts@,
            ),
            poly@.len() == 3 * j,
            forall|q: int| 0 <= q < j ==> poly@[3 * q] == lanes@[(
            #[trigger] i.incoming_lanes@[q]).0 as int].lane_center_pts@.last(),
    {
        let l: LaneID = i.incoming_lanes[j];
        let pl = &lanes[l.0].lane_center_pts;
        let m = pl.pts.len();
        let end = pl.pts[m - 1];
        let prev = pl.pts[m - 2];
        let (c1, c2) = tooth_corners(end, prev, end, half);
        poly.push(end);
        poly.push(c1);
        poly.push(c2);
    }
    for j in 0..n_out
        invariant
            crate::types::config_wf(cfg),
            half <= 32768,
            n_in == i.incoming_lanes@.len(),
            n_out == i.outgoing_lanes@.len(),
            forall|q: int| 0 <= q < i.incoming_lanes@.len() ==> (
            #[trigger] i.incoming_lanes@[q]).0 < lanes@.len(),
            forall|q: int| 0 <= q < i.outgoing_lanes@.len() ==> (
            #[trigger] i.outgoing_lanes@[q]).0 < lanes@.len(),
            forall|k: int| 0 <= k < lanes@.len() ==> crate::geometry::pl_wf(
                (#[trigger] lanes@[k]).lane_center_pts@,
            ),
            poly@.len() == 3 * n_in + 3 * j,
            forall|q: int| 0 <= q < n_in ==> poly@[3 * q] == lanes@[(
            #[trigger] i.incoming_lanes@[q]).0 as int].lane_center_pts@.last(),
            forall|q: int| 0 <= q < j ==> poly@[3 * (n_in + q)] == lanes@[(
            #[trigger] i.outgoing_lanes@[q]).0 as int].lane_center_pts@[0],
    {
        let l: LaneID = i.outgoing_lanes[j];
        let pl = &lanes[l.0].lane_center_pts;
        let start = pl.pts[0];
        let next = pl.pts[1];
        let (c1, c2) = tooth_corners(start, start, next, half);
        poly.push(start);
        poly.push(c1);
        poly.push(c2);
    }
    poly
}

} // verus!
