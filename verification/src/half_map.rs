//! The map construction pipeline: raw survey data in, a structurally sound
//! half-built map out.
//!
//! Every stage's obligations are stated as contracts: the finished map has
//! no self-loop road, no orphaned intersection, a deterministic and
//! duplicate-free turn set, and every lane terminating on the refined
//! polygons of its two intersections.

use crate::geometry::{
    dedup_pts, pl_nondegen, project, spec_project, GPSBounds, LonLat, PolyLine, Pt2D,
};
use crate::lanes::get_lane_specs;
use crate::model::{
    borders_are_dead_ends, inter_ids_ok, inter_lists_ok, lane_ids_ok, lane_refs_ok,
    lanes_ascending, lanes_registered, no_orphans, road_ids_ok, road_refs_ok, roads_ascending,
    turn_lt, turns_ok, Intersection, Lane, Road, Turn,
};
use crate::raw::{edits_wf, MapEdits, RawIntersection, RawMap, RawRoad};
use crate::types::{
    config_wf, Config, IntersectionID, IntersectionType, LaneID, MalformedKind, MapError, RoadID,
};
use vstd::prelude::*;

verus! {

/// The transient artifact the pipeline threads from stage to stage, and
/// hands over once finished.
#[derive(Debug)]
pub struct HalfMap {
    pub roads: Vec<Road>,
    pub lanes: Vec<Lane>,
    pub intersections: Vec<Intersection>,
    /// Strictly ordered by composite identity: a deterministic, ordered
    /// mapping from (intersection, source lane, destination lane) to the
    /// turn.
    pub turns: Vec<Turn>,
}

/// Every intersection node's coordinate projects onto the plane.
pub open spec fn inters_projectable(data: &RawMap, b: GPSBounds) -> bool {
    forall|k: int| 0 <= k < data.intersections@.len() ==> spec_project(
        (#[trigger] data.intersections@[k]).point,
        b,
    ) is Some
}

/// Every point of the way projects onto the plane.
pub open spec fn way_projectable(w: RawRoad, b: GPSBounds) -> bool {
    forall|i: int| 0 <= i < w.points@.len() ==> spec_project(#[trigger] w.points@[i], b) is Some
}

pub open spec fn ways_projectable(data: &RawMap, b: GPSBounds) -> bool {
    forall|w: int| 0 <= w < data.roads@.len() ==> way_projectable(#[trigger] data.roads@[w], b)
}

/// Some coordinate of the input leaves the representable range.
pub open spec fn has_bad_coord(data: &RawMap, b: GPSBounds) -> bool {
    !inters_projectable(data, b) || !ways_projectable(data, b)
}

/// The way's centerline: its points projected, consecutive duplicates
/// dropped. Meaningful once the way is projectable.
pub open spec fn way_pts(w: RawRoad, b: GPSBounds) -> Seq<Pt2D> {
    dedup_pts(Seq::new(w.points@.len(), |i: int| spec_project(w.points@[i], b)->Some_0))
}

/// The way has a usable centerline. One that collapses to fewer than two
/// distinct points is a degenerate self-loop: it is dropped, not an error.
pub open spec fn way_clean(w: RawRoad, b: GPSBounds) -> bool {
    way_pts(w, b).len() >= 2
}

/// The first intersection node sitting exactly on the point, scanning from
/// position `k`.
pub open spec fn idx_of_pt(is: Seq<RawIntersection>, b: GPSBounds, pt: Pt2D, k: int) -> Option<
    int,
>
    decreases is.len() - k,
{
    if k < 0 || k >= is.len() {
        None
    } else if spec_project(is[k].point, b) == Some(pt) {
        Some(k)
    } else {
        idx_of_pt(is, b, pt, k + 1)
    }
}

/// Where the way begins: the intersection its first point resolves to.
pub open spec fn way_src_idx(data: &RawMap, b: GPSBounds, w: int) -> Option<int> {
    idx_of_pt(data.intersections@, b, way_pts(data.roads@[w], b)[0], 0)
}

/// Where the way ends.
pub open spec fn way_dst_idx(data: &RawMap, b: GPSBounds, w: int) -> Option<int> {
    idx_of_pt(data.intersections@, b, way_pts(data.roads@[w], b).last(), 0)
}

/// Both endpoints of the way sit exactly on intersection nodes.
pub open spec fn way_matched(data: &RawMap, b: GPSBounds, w: int) -> bool {
    way_src_idx(data, b, w) is Some && way_dst_idx(data, b, w) is Some
}

/// Every way with a usable centerline has both endpoints on intersection
/// nodes. Degenerate ways are exempt: they are dropped during expansion.
pub open spec fn ways_matched(data: &RawMap, b: GPSBounds) -> bool {
    forall|w: int| 0 <= w < data.roads@.len() ==> (way_clean(#[trigger] data.roads@[w], b)
        ==> way_matched(data, b, w))
}

/// The way becomes a road: its endpoints resolve to two distinct
/// intersections. A self-loop way is dropped, not modeled.
pub open spec fn way_usable(data: &RawMap, b: GPSBounds, w: int) -> bool {
    &&& 0 <= w < data.roads@.len()
    &&& way_clean(data.roads@[w], b)
    &&& way_matched(data, b, w)
    &&& way_src_idx(data, b, w) != way_dst_idx(data, b, w)
}

/// How many of the first `j` ways touch intersection `k`.
pub open spec fn touch_count(data: &RawMap, b: GPSBounds, k: int, j: int) -> int
    decreases j,
{
    if j <= 0 {
        0
    } else {
        touch_count(data, b, k, j - 1) + if way_usable(data, b, j - 1) && (way_src_idx(
            data,
            b,
            j - 1,
        ) == Some(k) || way_dst_idx(data, b, j - 1) == Some(k)) {
            1int
        } else {
            0int
        }
    }
}

/// How many of the first `j` ways become roads.
pub open spec fn usable_count(data: &RawMap, b: GPSBounds, j: int) -> int
    decreases j,
{
    if j <= 0 {
        0
    } else {
        usable_count(data, b, j - 1) + if way_usable(data, b, j - 1) {
            1int
        } else {
            0int
        }
    }
}

/// Some intersection would end up with no incident lanes.
pub open spec fn some_orphan(data: &RawMap, b: GPSBounds) -> bool {
    exists|k: int| 0 <= k < data.intersections@.len() && touch_count(
        data,
        b,
        k,
        data.roads@.len() as int,
    ) == 0
}

/// Some intersection the raw data marks as a border is not a topological
/// dead-end.
pub open spec fn some_bad_border(data: &RawMap, b: GPSBounds) -> bool {
    exists|k: int| 0 <= k < data.intersections@.len() && (#[trigger] data.intersections@[k]).intersection_type
        == IntersectionType::Border && touch_count(data, b, k, data.roads@.len() as int) != 1
}

/// The raw input describes a buildable map.
pub open spec fn input_clean(data: &RawMap, b: GPSBounds) -> bool {
    &&& !has_bad_coord(data, b)
    &&& ways_matched(data, b)
    &&& !some_orphan(data, b)
    &&& !some_bad_border(data, b)
}

/// Every structural invariant of the finished map.
pub open spec fn half_map_wf(m: &HalfMap) -> bool {
    &&& inter_ids_ok(m.intersections@)
    &&& road_ids_ok(m.roads@)
    &&& lane_ids_ok(m.lanes@)
    &&& lane_refs_ok(m.lanes@, m.intersections@.len() as int, m.roads@.len() as int)
    &&& road_refs_ok(m.roads@, m.intersections@.len() as int)
    &&& inter_lists_ok(m.intersections@, m.roads@, m.lanes@)
    &&& lanes_registered(m.intersections@, m.lanes@)
    &&& no_orphans(m.intersections@)
    &&& borders_are_dead_ends(m.intersections@)
    &&& turns_ok(m.turns@, m.intersections@, m.lanes@)
    &&& crate::intersections::road_widths_ok(m.roads@)
}

/// The finished intersections carry their raw nodes over: record `k` keeps
/// the projected point, elevation and label of raw node `k`, and its type
/// tag is the raw one unless the pipeline recognised a border.
pub open spec fn carried_from_raw(is: Seq<Intersection>, data: &RawMap, b: GPSBounds) -> bool {
    &&& is.len() == data.intersections@.len()
    &&& forall|k: int| 0 <= k < is.len() ==> {
        let z = #[trigger] is[k];
        let a = data.intersections@[k];
        &&& Some(z.point) == spec_project(a.point, b)
        &&& z.elevation == a.elevation
        &&& z.label == a.label
        &&& (z.intersection_type == a.intersection_type || z.intersection_type
            == IntersectionType::Border)
    }
}

/// Every lane terminates on the refined polygons of both of its
/// intersections: its first point is a vertex of its source intersection's
/// polygon and its last point a vertex of its destination's.
pub open spec fn lane_ends_in_polygons(m: &HalfMap) -> bool {
    forall|k: int| 0 <= k < m.lanes@.len() ==> {
        let l = #[trigger] m.lanes@[k];
        &&& m.intersections@[l.src_i.0 as int].polygon@.contains(l.lane_center_pts@[0])
        &&& m.intersections@[l.dst_i.0 as int].polygon@.contains(l.lane_center_pts@.last())
    }
}

/// Project a way's points and drop consecutive duplicates. Fails exactly
/// when some point leaves the representable range.
fn build_centerline(points: &Vec<LonLat>, b: &GPSBounds) -> (r: Option<Vec<Pt2D>>)
    ensures
        r is Some <==> (forall|i: int| 0 <= i < points@.len() ==> spec_project(
            #[trigger] points@[i],
            *b,
        ) is Some),
        r is Some ==> r->Some_0@ == dedup_pts(
            Seq::new(points@.len(), |i: int| spec_project(points@[i], *b)->Some_0),
        ),
        r is Some ==> crate::geometry::pts_center_ok(r->Some_0@) && crate::geometry::adj_distinct(
            r->Some_0@,
        ) && crate::geometry::pts_ok(r->Some_0@),
{
    let ghost full = Seq::new(points@.len(), |i: int| spec_project(points@[i], *b)->Some_0);
    let n = points.len();
    let mut out: Vec<Pt2D> = Vec::new();
    for i in 0..n
        invariant
            n == points@.len(),
            full == Seq::new(points@.len(), |q: int| spec_project(points@[q], *b)->Some_0),
            forall|q: int| 0 <= q < i ==> spec_project(#[trigger] points@[q], *b) is Some,
            out@ == dedup_pts(full.subrange(0, i as int)),
            crate::geometry::pts_center_ok(out@),
            crate::geometry::adj_distinct(out@),
    {
        let p = match project(points[i], b) {
            Some(p) => p,
            None => {
                return None;
            },
        };
        proof {
            assert(full.subrange(0, i as int + 1).drop_last() =~= full.subrange(0, i as int));
            assert(full.subrange(0, i as int + 1).last() == full[i as int]);
            assert(full[i as int] == p);
        }
        let m = out.len();
        if m == 0 || !(out[m - 1] == p) {
            let ghost before = out@;
            out.push(p);
            proof {
                assert(out@.drop_last() == before);
                assert forall|q: int| 0 <= q < out@.len() - 1 implies #[trigger] out@[q] != out@[q
                    + 1] by {
                    if q < out@.len() - 2 {
                        assert(out@[q] == before[q] && out@[q + 1] == before[q + 1]);
                    } else {
                        assert(out@[q] == before.last() && out@[q + 1] == p);
                    }
                }
            }
        }
    }
    proof {
        assert(full.subrange(0, n as int) =~= full);
    }
    Some(out)
}

/// Find the intersection sitting exactly on a point.
fn find_intersection(
    is: &Vec<Intersection>,
    Ghost(data): Ghost<&RawMap>,
    Ghost(b): Ghost<GPSBounds>,
    pt: Pt2D,
) -> (r: Option<usize>)
    requires
        is@.len() == data.intersections@.len(),
        forall|k: int| 0 <= k < is@.len() ==> Some((#[trigger] is@[k]).point) == spec_project(
            data.intersections@[k].point,
            b,
        ),
    ensures
        r is Some <==> idx_of_pt(data.intersections@, b, pt, 0) is Some,
        r is Some ==> Some(r->Some_0 as int) == idx_of_pt(data.intersections@, b, pt, 0),
        r is Some ==> r->Some_0 < is@.len(),
{
    let n = is.len();
    for k in 0..n
        invariant
            n == is@.len(),
            is@.len() == data.intersections@.len(),
            forall|q: int| 0 <= q < is@.len() ==> Some((#[trigger] is@[q]).point) == spec_project(
                data.intersections@[q].point,
                b,
            ),
            idx_of_pt(data.intersections@, b, pt, 0) == idx_of_pt(data.intersections@, b, pt, k as int),
    {
        if is[k].point == pt {
            return Some(k);
        }
    }
    None
}

/// Record a new road on both of its endpoint intersections.
fn register_road(is: &mut Vec<Intersection>, i1: usize, i2: usize, rid: RoadID)
    requires
        i1 < old(is)@.len(),
        i2 < old(is)@.len(),
        i1 != i2,
    ensures
        final(is)@.len() == old(is)@.len(),
        forall|k: int| 0 <= k < old(is)@.len() && k != i1 && k != i2 ==> #[trigger] final(is)@[k]
            == old(is)@[k],
        final(is)@[i1 as int] == (Intersection {
            roads: final(is)@[i1 as int].roads,
            ..old(is)@[i1 as int]
        }),
        final(is)@[i2 as int] == (Intersection {
            roads: final(is)@[i2 as int].roads,
            ..old(is)@[i2 as int]
        }),
        final(is)@[i1 as int].roads@ == old(is)@[i1 as int].roads@.push(rid),
        final(is)@[i2 as int].roads@ == old(is)@[i2 as int].roads@.push(rid),
{
    let ghost before = is@;
    let mut rec = is.remove(i1);
    rec.roads.push(rid);
    is.insert(i1, rec);
    proof {
        assert(is@ =~= before.update(
            i1 as int,
            Intersection { roads: is@[i1 as int].roads, ..before[i1 as int] },
        ));
    }
    let ghost mid = is@;
    let mut rec2 = is.remove(i2);
    rec2.roads.push(rid);
    is.insert(i2, rec2);
    proof {
        assert(is@ =~= mid.update(
            i2 as int,
            Intersection { roads: is@[i2 as int].roads, ..mid[i2 as int] },
        ));
    }
}

/// Record a new lane on its source (outgoing) and destination (incoming)
/// intersections.
fn register_lane(is: &mut Vec<Intersection>, src: usize, dst: usize, id: LaneID)
    requires
        src < old(is)@.len(),
        dst < old(is)@.len(),
        src != dst,
    ensures
        final(is)@.len() == old(is)@.len(),
        forall|k: int| 0 <= k < old(is)@.len() && k != src && k != dst
            ==> #[trigger] final(is)@[k] == old(is)@[k],
        final(is)@[src as int] == (Intersection {
            outgoing_lanes: final(is)@[src as int].outgoing_lanes,
            ..old(is)@[src as int]
        }),
        final(is)@[dst as int] == (Intersection {
            incoming_lanes: final(is)@[dst as int].incoming_lanes,
            ..old(is)@[dst as int]
        }),
        final(is)@[src as int].outgoing_lanes@ == old(is)@[src as int].outgoing_lanes@.push(id),
        final(is)@[dst as int].incoming_lanes@ == old(is)@[dst as int].incoming_lanes@.push(id),
{
    let ghost before = is@;
    let mut rec = is.remove(src);
    rec.outgoing_lanes.push(id);
    is.insert(src, rec);
    proof {
        assert(is@ =~= before.update(
            src as int,
            Intersection { outgoing_lanes: is@[src as int].outgoing_lanes, ..before[src as int] },
        ));
    }
    let ghost mid = is@;
    let mut rec2 = is.remove(dst);
    rec2.incoming_lanes.push(id);
    is.insert(dst, rec2);
    proof {
        assert(is@ =~= mid.update(
            dst as int,
            Intersection { incoming_lanes: is@[dst as int].incoming_lanes, ..mid[dst as int] },
        ));
    }
}

/// Some lane of the run is a driving lane.
pub open spec fn any_driving(list: Seq<LaneID>, ls: Seq<Lane>) -> bool {
    exists|j: int| 0 <= j < list.len() && ls[(#[trigger] list[j]).0 as int].lane_type
        == crate::types::LaneType::Driving
}

fn has_driving(list: &Vec<LaneID>, lanes: &Vec<Lane>) -> (r: bool)
    requires
        forall|j: int| 0 <= j < list@.len() ==> (#[trigger] list@[j]).0 < lanes@.len(),
    ensures
        r == any_driving(list@, lanes@),
{
    let n = list.len();
    for j in 0..n
        invariant
            n == list@.len(),
            forall|q: int| 0 <= q < list@.len() ==> (#[trigger] list@[q]).0 < lanes@.len(),
            forall|q: int| 0 <= q < j ==> lanes@[(#[trigger] list@[q]).0 as int].lane_type
                != crate::types::LaneType::Driving,
    {
        if lanes[list[j].0].is_driving() {
            proof {
                assert(lanes@[(list@[j as int]).0 as int].lane_type
                    == crate::types::LaneType::Driving);
            }
            return true;
        }
    }
    false
}

/// Whether the finished map treats the intersection as a border: the raw
/// data said so, or it is a dead-end where driving traffic flows only one
/// way.
pub open spec fn spec_is_border(i: Intersection, ls: Seq<Lane>) -> bool {
    if i.intersection_type == IntersectionType::Border {
        true
    } else if i.roads@.len() != 1 {
        false
    } else {
        any_driving(i.incoming_lanes@, ls) != any_driving(i.outgoing_lanes@, ls)
    }
}

/// Decide whether an intersection is a border node. An intersection the raw
/// data already marks as a border must be a topological dead-end.
pub fn is_border(intersection: &Intersection, lanes: &Vec<Lane>) -> (r: bool)
    requires
        intersection.intersection_type == IntersectionType::Border
            ==> intersection.spec_is_dead_end(),
        forall|j: int| 0 <= j < intersection.incoming_lanes@.len() ==> (
        #[trigger] intersection.incoming_lanes@[j]).0 < lanes@.len(),
        forall|j: int| 0 <= j < intersection.outgoing_lanes@.len() ==> (
        #[trigger] intersection.outgoing_lanes@[j]).0 < lanes@.len(),
    ensures
        r == spec_is_border(*intersection, lanes@),
{
    if matches!(intersection.intersection_type, IntersectionType::Border) {
        return true;
    }
    if !intersection.is_dead_end() {
        return false;
    }
    let has_in = has_driving(&intersection.incoming_lanes, lanes);
    let has_out = has_driving(&intersection.outgoing_lanes, lanes);
    has_in != has_out
}

/// The intersection records as the registry first builds them: one per raw
/// node, same position in the list, projected point, raw type and label,
/// everything else still empty.
pub open spec fn fresh_intersections(
    is: Seq<Intersection>,
    data: &RawMap,
    b: GPSBounds,
) -> bool {
    &&& is.len() == data.intersections@.len()
    &&& forall|k: int| 0 <= k < is.len() ==> {
        let i = #[trigger] is[k];
        &&& i.id == IntersectionID(k as usize)
        &&& Some(i.point) == spec_project(data.intersections@[k].point, b)
        &&& i.intersection_type == data.intersections@[k].intersection_type
        &&& i.elevation == data.intersections@[k].elevation
        &&& i.label == data.intersections@[k].label
        &&& i.polygon@.len() == 0
        &&& i.turns@.len() == 0
    }
}

/// What expansion leaves of each intersection: only its lane lists and road
/// set have grown.
pub open spec fn expanded_intersections(
    is: Seq<Intersection>,
    data: &RawMap,
    b: GPSBounds,
) -> bool {
    &&& fresh_intersections(is, data, b)
    &&& forall|k: int| 0 <= k < is.len() ==> ((#[trigger] is[k]).incoming_lanes@.len()
        + is[k].outgoing_lanes@.len() > 0 <==> is[k].roads@.len() > 0)
    &&& forall|k: int| 0 <= k < is.len() ==> (#[trigger] is[k]).roads@.len() == touch_count(
        data,
        b,
        k,
        data.roads@.len() as int,
    )
}

/// Create one lane of a road: shift the centerline sideways by the lane's
/// offset — falling back to a blind shift, and marking the lane, when the
/// course is too short for a clean one — then register the lane on both
/// endpoint intersections.
#[verifier::rlimit(100)]
fn add_lane(
    is: &mut Vec<Intersection>,
    lanes: &mut Vec<Lane>,
    roads: &Vec<Road>,
    spec_rec: crate::lanes::LaneSpec,
    i1: usize,
    i2: usize,
    road_id: RoadID,
    cfg: &Config,
) -> (id: LaneID)
    requires
        config_wf(cfg),
        spec_rec.offset < crate::types::MAX_LANE_OFFSET,
        i1 < old(is)@.len(),
        i2 < old(is)@.len(),
        i1 != i2,
        road_id.0 < roads@.len(),
        pl_nondegen(roads@[road_id.0 as int].center_pts@),
        lane_ids_ok(old(lanes)@),
        lane_refs_ok(old(lanes)@, old(is)@.len() as int, roads@.len() as int),
        inter_lists_ok(old(is)@, roads@, old(lanes)@),
        lanes_registered(old(is)@, old(lanes)@),
    ensures
        id.0 == old(lanes)@.len(),
        final(lanes)@.len() == old(lanes)@.len() + 1,
        forall|k: int| 0 <= k < old(lanes)@.len() ==> #[trigger] final(lanes)@[k] == old(
            lanes,
        )@[k],
        ({
            let l = final(lanes)@[id.0 as int];
            &&& l.id == id
            &&& l.parent == road_id
            &&& l.lane_type == spec_rec.lane_type
            &&& (spec_rec.reverse_pts ==> l.src_i.0 == i2 && l.dst_i.0 == i1)
            &&& (!spec_rec.reverse_pts ==> l.src_i.0 == i1 && l.dst_i.0 == i2)
            &&& crate::geometry::pl_wf(l.lane_center_pts@)
        }),
        lane_ids_ok(final(lanes)@),
        lane_refs_ok(final(lanes)@, final(is)@.len() as int, roads@.len() as int),
        inter_lists_ok(final(is)@, roads@, final(lanes)@),
        lanes_registered(final(is)@, final(lanes)@),
        final(is)@.len() == old(is)@.len(),
        forall|k: int| 0 <= k < old(is)@.len() && k != i1 && k != i2
            ==> #[trigger] final(is)@[k] == old(is)@[k],
        forall|k: int| 0 <= k < old(is)@.len() ==> {
            let a = old(is)@[k];
            let z = #[trigger] final(is)@[k];
            &&& z.id == a.id
            &&& z.point == a.point
            &&& z.intersection_type == a.intersection_type
            &&& z.elevation == a.elevation
            &&& z.label == a.label
            &&& z.polygon == a.polygon
            &&& z.turns == a.turns
            &&& z.roads == a.roads
            &&& z.incoming_lanes@.len() >= a.incoming_lanes@.len()
            &&& z.outgoing_lanes@.len() >= a.outgoing_lanes@.len()
        },
        final(is)@[i1 as int].incoming_lanes@.len() + final(is)@[i1 as int].outgoing_lanes@.len()
            > 0,
        final(is)@[i2 as int].incoming_lanes@.len() + final(is)@[i2 as int].outgoing_lanes@.len()
            > 0,
{
    let id = LaneID(lanes.len());
    let t64: u64 = cfg.lane_thickness as u64;
    proof {
        assert(t64 / 2 + t64 * (spec_rec.offset as u64) <= 32768 + 65536 * 15)
            by (nonlinear_arith)
            requires
                0 < t64 <= 65536,
                spec_rec.offset < 16,
        ;
    }
    let width_u: u64 = t64 / 2 + t64 * (spec_rec.offset as u64);
    let width: i64 = width_u as i64;
    let (src, dst): (usize, usize) = if spec_rec.reverse_pts {
        (i2, i1)
    } else {
        (i1, i2)
    };
    let (lane_pts, broken): (PolyLine, bool) = if spec_rec.reverse_pts {
        let rev = roads[road_id.0].center_pts.reversed();
        proof {
            crate::geometry::lemma_reverse_nondegen(roads@[road_id.0 as int].center_pts@, rev@);
        }
        match rev.shift(width) {
            Some(p) => (p, false),
            None => (rev.shift_blindly(width), true),
        }
    } else {
        match roads[road_id.0].center_pts.shift(width) {
            Some(p) => (p, false),
            None => (roads[road_id.0].center_pts.shift_blindly(width), true),
        }
    };
    lanes.push(
        Lane {
            id,
            lane_center_pts: lane_pts,
            probably_broken: broken,
            src_i: IntersectionID(src),
            dst_i: IntersectionID(dst),
            lane_type: spec_rec.lane_type,
            parent: road_id,
            building_paths: Vec::new(),
            bus_stops: Vec::new(),
        },
    );
    let ghost lanes_now = lanes@;
    let ghost is_before = is@;
    register_lane(is, src, dst, id);
    proof {
        assert forall|k: int| 0 <= k < lanes_now.len() implies {
            let l = #[trigger] lanes_now[k];
            is@[l.dst_i.0 as int].incoming_lanes@.contains(l.id) && is@[
                l.src_i.0 as int
            ].outgoing_lanes@.contains(l.id)
        } by {
            let l = lanes_now[k];
            if k < lanes_now.len() - 1 {
                assert(is_before[l.dst_i.0 as int].incoming_lanes@.contains(l.id));
                assert(is_before[l.src_i.0 as int].outgoing_lanes@.contains(l.id));
                let ji = choose|j: int|
                    0 <= j < is_before[l.dst_i.0 as int].incoming_lanes@.len() && is_before[
                        l.dst_i.0 as int
                    ].incoming_lanes@[j] == l.id;
                assert(is@[l.dst_i.0 as int].incoming_lanes@[ji] == l.id);
                let jo = choose|j: int|
                    0 <= j < is_before[l.src_i.0 as int].outgoing_lanes@.len() && is_before[
                        l.src_i.0 as int
                    ].outgoing_lanes@[j] == l.id;
                assert(is@[l.src_i.0 as int].outgoing_lanes@[jo] == l.id);
            } else {
                assert(l.id == id);
                let inc = is@[dst as int].incoming_lanes@;
                assert(inc[inc.len() - 1] == id);
                let og = is@[src as int].outgoing_lanes@;
                assert(og[og.len() - 1] == id);
            }
        }
    }
    id
}

/// Expand every way into a road and its lanes, registering each on its two
/// endpoint intersections. Self-loop ways are dropped.
#[verifier::rlimit(100)]
fn expand_ways(
    data: &RawMap,
    b: &GPSBounds,
    edits: &MapEdits,
    cfg: &Config,
    is: &mut Vec<Intersection>,
) -> (out: (Vec<Road>, Vec<Lane>))
    requires
        edits_wf(edits),
        config_wf(cfg),
        ways_projectable(data, *b),
        ways_matched(data, *b),
        fresh_intersections(old(is)@, data, *b),
        forall|k: int| 0 <= k < old(is)@.len() ==> (#[trigger] old(is)@[k]).incoming_lanes@.len()
            == 0 && old(is)@[k].outgoing_lanes@.len() == 0 && old(is)@[k].roads@.len() == 0,
    ensures
        expanded_intersections(final(is)@, data, *b),
        road_ids_ok(out.0@),
        lane_ids_ok(out.1@),
        road_refs_ok(out.0@, final(is)@.len() as int),
        lane_refs_ok(out.1@, final(is)@.len() as int, out.0@.len() as int),
        inter_lists_ok(final(is)@, out.0@, out.1@),
        lanes_registered(final(is)@, out.1@),
        crate::intersections::road_widths_ok(out.0@),
        out.0@.len() == usable_count(data, *b, data.roads@.len() as int),
{
    let ghost bb = *b;
    let n_ways = data.roads.len();
    let mut roads: Vec<Road> = Vec::new();
    let mut lanes: Vec<Lane> = Vec::new();
    for w in 0..n_ways
        invariant
            edits_wf(edits),
            config_wf(cfg),
            ways_projectable(data, bb),
            ways_matched(data, bb),
            bb == *b,
            n_ways == data.roads@.len(),
            fresh_intersections(is@, data, bb),
            forall|k: int| 0 <= k < is@.len() ==> ((#[trigger] is@[k]).incoming_lanes@.len()
                + is@[k].outgoing_lanes@.len() > 0 <==> is@[k].roads@.len() > 0),
            forall|k: int| 0 <= k < is@.len() ==> (#[trigger] is@[k]).roads@.len() == touch_count(
                data,
                bb,
                k,
                w as int,
            ),
            road_ids_ok(roads@),
            lane_ids_ok(lanes@),
            road_refs_ok(roads@, is@.len() as int),
            lane_refs_ok(lanes@, is@.len() as int, roads@.len() as int),
            inter_lists_ok(is@, roads@, lanes@),
            lanes_registered(is@, lanes@),
            crate::intersections::road_widths_ok(roads@),
            roads@.len() == usable_count(data, bb, w as int),
    {
        let way = &data.roads[w];
        let cl_vec = match build_centerline(&way.points, b) {
            Some(v) => v,
            None => {
                proof {
                    assert(way_projectable(data.roads@[w as int], bb));
                }
                vstd::pervasive::unreached()
            },
        };
        proof {
            assert(cl_vec@ == way_pts(data.roads@[w as int], bb));
        }
        let n_cl = cl_vec.len();
        if n_cl < 2 {
            // a way that collapses to a point is a degenerate self-loop:
            // drop it and carry on
            proof {
                assert(!way_usable(data, bb, w as int));
                assert(usable_count(data, bb, w as int + 1) == usable_count(data, bb, w as int));
                assert forall|k: int| 0 <= k < is@.len() implies (#[trigger] is@[k]).roads@.len()
                    == touch_count(data, bb, k, w as int + 1) by {
                    assert(touch_count(data, bb, k, w as int + 1) == touch_count(
                        data,
                        bb,
                        k,
                        w as int,
                    ));
                }
            }
        } else {
        proof {
            assert(way_clean(data.roads@[w as int], bb));
        }
        let first = cl_vec[0];
        let last = cl_vec[n_cl - 1];
        let i1 = match find_intersection(is, Ghost(data), Ghost(bb), first) {
            Some(k) => k,
            None => {
                proof {
                    assert(way_matched(data, bb, w as int));
                }
                vstd::pervasive::unreached()
            },
        };
        let i2 = match find_intersection(is, Ghost(data), Ghost(bb), last) {
            Some(k) => k,
            None => {
                proof {
                    assert(way_matched(data, bb, w as int));
                }
                vstd::pervasive::unreached()
            },
        };
        proof {
            assert(Some(i1 as int) == way_src_idx(data, bb, w as int));
            assert(Some(i2 as int) == way_dst_idx(data, bb, w as int));
        }
        if i1 == i2 {
            // A self-loop way breaks pathfinding downstream: drop it and
            // carry on.
            proof {
                assert(!way_usable(data, bb, w as int));
                assert(usable_count(data, bb, w as int + 1) == usable_count(data, bb, w as int));
                assert forall|k: int| 0 <= k < is@.len() implies (#[trigger] is@[k]).roads@.len()
                    == touch_count(data, bb, k, w as int + 1) by {
                    assert(touch_count(data, bb, k, w as int + 1) == touch_count(
                        data,
                        bb,
                        k,
                        w as int,
                    ));
                }
            }
        } else {
            proof {
                assert(way_usable(data, bb, w as int));
                assert(usable_count(data, bb, w as int + 1) == usable_count(data, bb, w as int)
                    + 1);
            }
            let road_id = RoadID(roads.len());
            let center = PolyLine::new(cl_vec);
            roads.push(
                Road {
                    id: road_id,
                    osm_tags: way.osm_tags.clone(),
                    osm_way_id: way.osm_way_id,
                    children_forwards: Vec::new(),
                    children_backwards: Vec::new(),
                    center_pts: center,
                    src_i: IntersectionID(i1),
                    dst_i: IntersectionID(i2),
                },
            );
            let ghost is_before_road = is@;
            register_road(is, i1, i2, road_id);
            proof {
                assert forall|k: int| 0 <= k < is@.len() implies (#[trigger] is@[k]).roads@.len()
                    == touch_count(data, bb, k, w as int + 1) by {
                    if k == i1 as int || k == i2 as int {
                        assert(touch_count(data, bb, k, w as int + 1) == touch_count(
                            data,
                            bb,
                            k,
                            w as int,
                        ) + 1);
                    } else {
                        assert(touch_count(data, bb, k, w as int + 1) == touch_count(
                            data,
                            bb,
                            k,
                            w as int,
                        ));
                        assert(is@[k] == is_before_road[k]);
                    }
                }
            }
            let specs = get_lane_specs(way, edits);
            let mut children_f: Vec<(LaneID, crate::types::LaneType)> = Vec::new();
            let mut children_b: Vec<(LaneID, crate::types::LaneType)> = Vec::new();
            let n_specs = specs.len();
            let ghost lanes_at_start = lanes@.len() as int;
            for s in 0..n_specs
                invariant
                    edits_wf(edits),
                    config_wf(cfg),
                    bb == *b,
                    n_ways == data.roads@.len(),
                    0 <= w < n_ways,
                    n_specs == specs@.len(),
                    crate::lanes::specs_wf(specs@),
                    1 <= n_specs <= 32,
                    fresh_intersections(is@, data, bb),
                    forall|k: int| 0 <= k < is@.len() ==> (#[trigger] is@[k]).roads@.len()
                        == touch_count(data, bb, k, w as int + 1),
                    forall|k: int| 0 <= k < is@.len() && k != i1 as int && k != i2 as int ==> ((
                    #[trigger] is@[k]).incoming_lanes@.len() + is@[k].outgoing_lanes@.len() > 0
                        <==> is@[k].roads@.len() > 0),
                    is@[i1 as int].roads@.len() > 0,
                    is@[i2 as int].roads@.len() > 0,
                    s > 0 ==> is@[i1 as int].incoming_lanes@.len()
                        + is@[i1 as int].outgoing_lanes@.len() > 0,
                    s > 0 ==> is@[i2 as int].incoming_lanes@.len()
                        + is@[i2 as int].outgoing_lanes@.len() > 0,
                    s == 0 ==> (forall|k: int| 0 <= k < is@.len() ==> ((
                    #[trigger] is@[k]).incoming_lanes@.len() + is@[k].outgoing_lanes@.len() > 0
                        ==> is@[k].roads@.len() > 0)),
                    i1 < is@.len(),
                    i2 < is@.len(),
                    i1 != i2,
                    road_ids_ok(roads@),
                    lane_ids_ok(lanes@),
                    road_refs_ok(roads@, is@.len() as int),
                    lane_refs_ok(lanes@, is@.len() as int, roads@.len() as int),
                    inter_lists_ok(is@, roads@, lanes@),
                    lanes_registered(is@, lanes@),
                    crate::intersections::road_widths_ok(roads@),
                    roads@.len() == usable_count(data, bb, w as int) + 1,
                    road_id.0 == roads@.len() - 1,
                    roads@[road_id.0 as int].children_forwards@.len() == 0,
                    roads@[road_id.0 as int].children_backwards@.len() == 0,
                    pl_nondegen(roads@[road_id.0 as int].center_pts@),
                    roads@[road_id.0 as int].src_i.0 == i1,
                    roads@[road_id.0 as int].dst_i.0 == i2,
                    children_f@.len() + children_b@.len() == s,
                    forall|c: int| 0 <= c < children_f@.len() ==> {
                        let ch = #[trigger] children_f@[c];
                        &&& ch.0.0 < lanes@.len()
                        &&& lanes@[ch.0.0 as int].parent == road_id
                        &&& lanes@[ch.0.0 as int].lane_type == ch.1
                    },
                    forall|c: int| 0 <= c < children_b@.len() ==> {
                        let ch = #[trigger] children_b@[c];
                        &&& ch.0.0 < lanes@.len()
                        &&& lanes@[ch.0.0 as int].parent == road_id
                        &&& lanes@[ch.0.0 as int].lane_type == ch.1
                    },
            {
                let spec_rec = specs[s];
                proof {
                    assert(specs@[s as int].offset < crate::types::MAX_LANE_OFFSET);
                }
                let id = add_lane(is, &mut lanes, &roads, spec_rec, i1, i2, road_id, cfg);
                if spec_rec.reverse_pts {
                    children_b.push((id, spec_rec.lane_type));
                } else {
                    children_f.push((id, spec_rec.lane_type));
                }
            }
            // attach the children to the road
            let mut rec = match roads.pop() {
                Some(r) => r,
                None => vstd::pervasive::unreached(),
            };
            rec.children_forwards = children_f;
            rec.children_backwards = children_b;
            roads.push(rec);
            proof {
                assert(roads@.len() == usable_count(data, bb, w as int + 1));
                assert(road_refs_ok(roads@, is@.len() as int));
            }
        }
        }
    }
    (roads, lanes)
}

/// Check coordinates, centerlines and endpoint matching, in that order of
/// severity.
fn validate_input(data: &RawMap, b: &GPSBounds) -> (r: Result<(), MapError>)
    ensures
        r is Ok <==> !has_bad_coord(data, *b) && ways_matched(data, *b),
        r == Err::<(), MapError>(MapError::MalformedInput(MalformedKind::BadCoordinate))
            <==> has_bad_coord(data, *b),
        r == Err::<(), MapError>(MapError::MalformedInput(MalformedKind::UnmatchedEndpoint))
            <==> (!has_bad_coord(data, *b) && !ways_matched(data, *b)),
        r is Err ==> (r->Err_0 == MapError::MalformedInput(MalformedKind::BadCoordinate)
            || r->Err_0 == MapError::MalformedInput(MalformedKind::UnmatchedEndpoint)),
{
    let n_is = data.intersections.len();
    for k in 0..n_is
        invariant
            n_is == data.intersections@.len(),
            forall|q: int| 0 <= q < k ==> spec_project(
                (#[trigger] data.intersections@[q]).point,
                *b,
            ) is Some,
    {
        if project(data.intersections[k].point, b).is_none() {
            return Err(MapError::MalformedInput(MalformedKind::BadCoordinate));
        }
    }
    let n_ways = data.roads.len();
    for w in 0..n_ways
        invariant
            n_ways == data.roads@.len(),
            inters_projectable(data, *b),
            forall|q: int| 0 <= q < w ==> way_projectable(#[trigger] data.roads@[q], *b),
    {
        if build_centerline(&data.roads[w].points, b).is_none() {
            return Err(MapError::MalformedInput(MalformedKind::BadCoordinate));
        }
    }
    // the endpoint lookup needs the registry's view of the nodes
    let pts: Vec<Intersection> = build_intersections(data, b);
    for w in 0..n_ways
        invariant
            n_ways == data.roads@.len(),
            inters_projectable(data, *b),
            ways_projectable(data, *b),
            fresh_intersections(pts@, data, *b),
            forall|q: int| 0 <= q < w ==> (way_clean(#[trigger] data.roads@[q], *b)
                ==> way_matched(data, *b, q)),
    {
        let v = match build_centerline(&data.roads[w].points, b) {
            Some(v) => v,
            None => vstd::pervasive::unreached(),
        };
        let n_v = v.len();
        proof {
            assert(v@ == way_pts(data.roads@[w as int], *b));
        }
        // a degenerate way is dropped by the expander, so its endpoints
        // need not match anything
        if n_v >= 2 {
            proof {
                assert(v@[n_v - 1] == way_pts(data.roads@[w as int], *b).last());
            }
            let src = find_intersection(&pts, Ghost(data), Ghost(*b), v[0]);
            let dst = find_intersection(&pts, Ghost(data), Ghost(*b), v[n_v - 1]);
            if src.is_none() || dst.is_none() {
                proof {
                    assert(!way_matched(data, *b, w as int));
                }
                return Err(MapError::MalformedInput(MalformedKind::UnmatchedEndpoint));
            }
            proof {
                assert(way_matched(data, *b, w as int));
            }
        }
    }
    Ok(())
}

/// The registry: one intersection record per raw node, in order, each
/// carrying its projected point and a fresh identifier.
fn build_intersections(data: &RawMap, b: &GPSBounds) -> (is: Vec<Intersection>)
    requires
        inters_projectable(data, *b),
    ensures
        fresh_intersections(is@, data, *b),
        forall|k: int| 0 <= k < is@.len() ==> (#[trigger] is@[k]).incoming_lanes@.len() == 0
            && is@[k].outgoing_lanes@.len() == 0 && is@[k].roads@.len() == 0,
{
    let n_is = data.intersections.len();
    let mut is: Vec<Intersection> = Vec::new();
    for k in 0..n_is
        invariant
            n_is == data.intersections@.len(),
            inters_projectable(data, *b),
            is@.len() == k,
            forall|q: int| 0 <= q < k ==> {
                let i = #[trigger] is@[q];
                &&& i.id == IntersectionID(q as usize)
                &&& Some(i.point) == spec_project(data.intersections@[q].point, *b)
                &&& i.intersection_type == data.intersections@[q].intersection_type
                &&& i.elevation == data.intersections@[q].elevation
                &&& i.label == data.intersections@[q].label
                &&& i.polygon@.len() == 0
                &&& i.turns@.len() == 0
                &&& i.incoming_lanes@.len() == 0
                &&& i.outgoing_lanes@.len() == 0
                &&& i.roads@.len() == 0
            },
    {
        let raw = &data.intersections[k];
        let pt = match project(raw.point, b) {
            Some(p) => p,
            None => vstd::pervasive::unreached(),
        };
        let label: Option<String> = match &raw.label {
            Some(s) => Some(s.clone()),
            None => None,
        };
        proof {
            assert(label == raw.label);
        }
        is.push(
            Intersection {
                id: IntersectionID(k),
                point: pt,
                polygon: Vec::new(),
                turns: Vec::new(),
                elevation: raw.elevation,
                intersection_type: raw.intersection_type,
                label,
                incoming_lanes: Vec::new(),
                outgoing_lanes: Vec::new(),
                roads: Vec::new(),
            },
        );
    }
    is
}

/// Replace one intersection's polygon.
fn set_polygon(is: &mut Vec<Intersection>, k: usize, poly: Vec<Pt2D>)
    requires
        k < old(is)@.len(),
    ensures
        final(is)@.len() == old(is)@.len(),
        forall|q: int| 0 <= q < old(is)@.len() && q != k ==> #[trigger] final(is)@[q] == old(
            is,
        )@[q],
        final(is)@[k as int] == (Intersection {
            polygon: final(is)@[k as int].polygon,
            ..old(is)@[k as int]
        }),
        final(is)@[k as int].polygon == poly,
{
    let ghost before = is@;
    let mut rec = is.remove(k);
    rec.polygon = poly;
    is.insert(k, rec);
    proof {
        assert(is@ =~= before.update(
            k as int,
            Intersection { polygon: is@[k as int].polygon, ..before[k as int] },
        ));
    }
}

/// Mark one intersection as a border node.
fn set_border_type(is: &mut Vec<Intersection>, k: usize)
    requires
        k < old(is)@.len(),
    ensures
        final(is)@.len() == old(is)@.len(),
        forall|q: int| 0 <= q < old(is)@.len() && q != k ==> #[trigger] final(is)@[q] == old(
            is,
        )@[q],
        final(is)@[k as int] == (Intersection {
            intersection_type: IntersectionType::Border,
            ..old(is)@[k as int]
        }),
{
    let ghost before = is@;
    let mut rec = is.remove(k);
    rec.intersection_type = IntersectionType::Border;
    is.insert(k, rec);
    proof {
        assert(is@ =~= before.update(
            k as int,
            Intersection { intersection_type: IntersectionType::Border, ..before[k as int] },
        ));
    }
}

/// Record one intersection's turns.
fn set_turns(is: &mut Vec<Intersection>, k: usize, ids: Vec<crate::types::TurnID>)
    requires
        k < old(is)@.len(),
    ensures
        final(is)@.len() == old(is)@.len(),
        forall|q: int| 0 <= q < old(is)@.len() && q != k ==> #[trigger] final(is)@[q] == old(
            is,
        )@[q],
        final(is)@[k as int] == (Intersection {
            turns: final(is)@[k as int].turns,
            ..old(is)@[k as int]
        }),
        final(is)@[k as int].turns == ids,
{
    let ghost before = is@;
    let mut rec = is.remove(k);
    rec.turns = ids;
    is.insert(k, rec);
    proof {
        assert(is@ =~= before.update(
            k as int,
            Intersection { turns: is@[k as int].turns, ..before[k as int] },
        ));
    }
}

/// Everything structural that holds from expansion on, apart from border
/// typing: identifiers are positions, every reference is real, lists are
/// ascending and mutually consistent, no intersection is orphaned.
pub open spec fn topo_ok(is: Seq<Intersection>, rs: Seq<Road>, ls: Seq<Lane>) -> bool {
    &&& inter_ids_ok(is)
    &&& road_ids_ok(rs)
    &&& lane_ids_ok(ls)
    &&& lane_refs_ok(ls, is.len() as int, rs.len() as int)
    &&& road_refs_ok(rs, is.len() as int)
    &&& inter_lists_ok(is, rs, ls)
    &&& lanes_registered(is, ls)
    &&& crate::intersections::road_widths_ok(rs)
    &&& no_orphans(is)
    &&& forall|k: int| 0 <= k < is.len() ==> (#[trigger] is[k]).roads@.len() > 0
}

/// A stage keeps every intersection's identity, projected point, elevation
/// and label: only polygons, turn lists and type tags may change.
pub open spec fn core_fields_kept(is0: Seq<Intersection>, is1: Seq<Intersection>) -> bool {
    &&& is1.len() == is0.len()
    &&& forall|q: int| 0 <= q < is0.len() ==> {
        let a = is0[q];
        let z = #[trigger] is1[q];
        &&& z.id == a.id
        &&& z.point == a.point
        &&& z.elevation == a.elevation
        &&& z.label == a.label
    }
}

/// The state every stage after border typing preserves.
pub open spec fn staged(is: Seq<Intersection>, rs: Seq<Road>, ls: Seq<Lane>) -> bool {
    topo_ok(is, rs, ls) && borders_are_dead_ends(is)
}

/// A stage that keeps each intersection's identity, type, lane lists and
/// road set keeps the whole staged structure.
proof fn lemma_staged_preserved(
    is0: Seq<Intersection>,
    is1: Seq<Intersection>,
    rs: Seq<Road>,
    ls: Seq<Lane>,
)
    requires
        staged(is0, rs, ls),
        is1.len() == is0.len(),
        forall|q: int| 0 <= q < is0.len() ==> {
            let a = is0[q];
            let z = #[trigger] is1[q];
            &&& z.id == a.id
            &&& z.intersection_type == a.intersection_type
            &&& z.incoming_lanes == a.incoming_lanes
            &&& z.outgoing_lanes == a.outgoing_lanes
            &&& z.roads == a.roads
        },
    ensures
        staged(is1, rs, ls),
{
    crate::model::lemma_lists_preserved(is0, is1, rs, ls);
    crate::model::lemma_registration_preserved(is0, is1, ls, ls);
}

/// So does a lane rewrite that keeps each lane's identity, endpoints,
/// parent and a usable centerline.
proof fn lemma_staged_lanes_preserved(
    is: Seq<Intersection>,
    rs: Seq<Road>,
    ls0: Seq<Lane>,
    ls1: Seq<Lane>,
)
    requires
        staged(is, rs, ls0),
        ls1.len() == ls0.len(),
        forall|k: int| 0 <= k < ls0.len() ==> {
            let a = ls0[k];
            let z = #[trigger] ls1[k];
            &&& z.id == a.id
            &&& z.src_i == a.src_i
            &&& z.dst_i == a.dst_i
            &&& z.parent == a.parent
            &&& crate::geometry::pl_wf(z.lane_center_pts@)
        },
    ensures
        staged(is, rs, ls1),
{
    crate::model::lemma_lists_preserved(is, is, rs, ls1);
    crate::model::lemma_registration_preserved(is, is, ls0, ls1);
}

/// No intersection may be orphaned: that is a defect of the raw graph, not
/// a recoverable condition.
fn check_orphans(is: &Vec<Intersection>, data: &RawMap, b: &GPSBounds) -> (r: Result<
    (),
    MapError,
>)
    requires
        expanded_intersections(is@, data, *b),
    ensures
        r is Ok <==> !some_orphan(data, *b),
        r is Ok ==> no_orphans(is@) && (forall|k: int| 0 <= k < is@.len()
            ==> (#[trigger] is@[k]).roads@.len() > 0),
        r is Err ==> r->Err_0 == MapError::MalformedInput(MalformedKind::OrphanedIntersection),
{
    let n_is = is.len();
    let ghost n_ways = data.roads@.len() as int;
    for k in 0..n_is
        invariant
            n_is == is@.len(),
            n_ways == data.roads@.len() as int,
            expanded_intersections(is@, data, *b),
            forall|q: int| 0 <= q < k ==> (#[trigger] is@[q]).incoming_lanes@.len() + is@[
                q
            ].outgoing_lanes@.len() > 0,
    {
        if is[k].incoming_lanes.len() == 0 && is[k].outgoing_lanes.len() == 0 {
            proof {
                assert(is@[k as int].roads@.len() == 0);
                assert(touch_count(data, *b, k as int, n_ways) == 0);
            }
            return Err(MapError::MalformedInput(MalformedKind::OrphanedIntersection));
        }
    }
    proof {
        assert(!some_orphan(data, *b)) by {
            assert forall|k: int| 0 <= k < data.intersections@.len() implies touch_count(
                data,
                *b,
                k,
                data.roads@.len() as int,
            ) != 0 by {
                assert(is@[k].roads@.len() > 0);
            }
        }
        assert forall|k: int| 0 <= k < is@.len() implies (#[trigger] is@[k]).roads@.len()
            > 0 by {
            assert(is@[k].incoming_lanes@.len() + is@[k].outgoing_lanes@.len() > 0);
        }
    }
    Ok(())
}

/// A raw border node must be a topological dead-end; beyond that, a
/// dead-end where driving traffic flows only one way becomes a border.
#[verifier::rlimit(60)]
fn apply_borders(
    is: &mut Vec<Intersection>,
    roads: &Vec<Road>,
    lanes: &Vec<Lane>,
    data: &RawMap,
    b: &GPSBounds,
) -> (r: Result<(), MapError>)
    requires
        expanded_intersections(old(is)@, data, *b),
        topo_ok(old(is)@, roads@, lanes@),
    ensures
        r is Ok <==> !some_bad_border(data, *b),
        r is Ok ==> staged(final(is)@, roads@, lanes@),
        r is Ok ==> core_fields_kept(old(is)@, final(is)@),
        r is Ok ==> forall|q: int| 0 <= q < old(is)@.len()
            ==> ((#[trigger] final(is)@[q]).intersection_type == old(
            is,
        )@[q].intersection_type || final(is)@[q].intersection_type == IntersectionType::Border),
        r is Err ==> r->Err_0 == MapError::MalformedInput(MalformedKind::BorderNotDeadEnd),
{
    let ghost entry = old(is)@;
    let n_is = is.len();
    let ghost n_ways = data.roads@.len() as int;
    for k in 0..n_is
        invariant
            n_is == is@.len(),
            n_ways == data.roads@.len() as int,
            is@.len() == data.intersections@.len(),
            topo_ok(is@, roads@, lanes@),
            forall|q: int| 0 <= q < is@.len() ==> (#[trigger] is@[q]).roads@.len() == touch_count(
                data,
                *b,
                q,
                n_ways,
            ),
            forall|q: int| k <= q < is@.len() ==> (#[trigger] is@[q]).intersection_type
                == data.intersections@[q].intersection_type,
            forall|q: int| 0 <= q < k ==> !((#[trigger] data.intersections@[q]).intersection_type
                == IntersectionType::Border && touch_count(data, *b, q, n_ways) != 1),
            forall|q: int| 0 <= q < k ==> ((#[trigger] is@[q]).intersection_type
                == IntersectionType::Border ==> is@[q].roads@.len() == 1),
            core_fields_kept(entry, is@),
            forall|q: int| 0 <= q < entry.len() ==> ((#[trigger] is@[q]).intersection_type
                == entry[q].intersection_type || is@[q].intersection_type
                == IntersectionType::Border),
    {
        let ghost is0 = is@;
        if matches!(is[k].intersection_type, IntersectionType::Border) {
            if is[k].roads.len() != 1 {
                proof {
                    assert(data.intersections@[k as int].intersection_type
                        == IntersectionType::Border);
                    assert(touch_count(data, *b, k as int, n_ways) != 1);
                }
                return Err(MapError::MalformedInput(MalformedKind::BorderNotDeadEnd));
            }
        } else {
            let border = is_border(&is[k], lanes);
            if border && is[k].roads.len() == 1 {
                set_border_type(is, k);
                proof {
                    crate::model::lemma_lists_preserved(is0, is@, roads@, lanes@);
                    crate::model::lemma_registration_preserved(is0, is@, lanes@, lanes@);
                    assert forall|q: int| 0 <= q < is@.len() implies (
                    #[trigger] is@[q]).roads@.len() == touch_count(data, *b, q, n_ways) by {
                        assert(is@[q].roads == is0[q].roads);
                    }
                    assert forall|q: int| 0 <= q < is@.len() implies (
                    #[trigger] is@[q]).roads@.len() > 0 by {
                        assert(is@[q].roads == is0[q].roads);
                    }
                    assert(no_orphans(is@)) by {
                        assert forall|q: int| 0 <= q < is@.len() implies (
                        #[trigger] is@[q]).incoming_lanes@.len() + is@[q].outgoing_lanes@.len()
                            > 0 by {
                            assert(is@[q].incoming_lanes == is0[q].incoming_lanes);
                            assert(is@[q].outgoing_lanes == is0[q].outgoing_lanes);
                        }
                    }
                    assert forall|q: int| 0 <= q < entry.len() implies {
                        let a = entry[q];
                        let z = #[trigger] is@[q];
                        z.id == a.id && z.point == a.point && z.elevation == a.elevation
                            && z.label == a.label && (z.intersection_type == a.intersection_type
                            || z.intersection_type == IntersectionType::Border)
                    } by {
                        if q != k as int {
                            assert(is@[q] == is0[q]);
                        }
                    }
                }
            }
        }
    }
    proof {
        assert(!some_bad_border(data, *b));
        assert(borders_are_dead_ends(is@));
    }
    Ok(())
}

/// Pass 1: give every intersection its coarse polygon, carved from the
/// incident roads' widths and directions, to trim against.
fn initial_polygons(is: &mut Vec<Intersection>, roads: &Vec<Road>, lanes: &Vec<Lane>, cfg: &Config)
    requires
        config_wf(cfg),
        staged(old(is)@, roads@, lanes@),
    ensures
        staged(final(is)@, roads@, lanes@),
        core_fields_kept(old(is)@, final(is)@),
        forall|q: int| 0 <= q < old(is)@.len() ==> (#[trigger] final(is)@[q]).intersection_type
            == old(is)@[q].intersection_type,
{
    let ghost entry = old(is)@;
    let n_is = is.len();
    for k in 0..n_is
        invariant
            config_wf(cfg),
            n_is == is@.len(),
            staged(is@, roads@, lanes@),
            core_fields_kept(entry, is@),
            forall|q: int| 0 <= q < entry.len() ==> (#[trigger] is@[q]).intersection_type
                == entry[q].intersection_type,
    {
        let poly = crate::intersections::initial_intersection_polygon(&is[k], roads, cfg);
        let ghost is0 = is@;
        set_polygon(is, k, poly);
        proof {
            lemma_staged_preserved(is0, is@, roads@, lanes@);
            assert forall|q: int| 0 <= q < entry.len() implies {
                let a = entry[q];
                let z = #[trigger] is@[q];
                z.id == a.id && z.point == a.point && z.elevation == a.elevation && z.label
                    == a.label && z.intersection_type == a.intersection_type
            } by {
                if q != k as int {
                    assert(is@[q] == is0[q]);
                }
            }
        }
    }
}

/// Trim every lane back to each of its intersections' radii.
fn trim_all(lanes: &mut Vec<Lane>, is: &Vec<Intersection>, roads: &Vec<Road>, cfg: &Config)
    requires
        config_wf(cfg),
        staged(is@, roads@, old(lanes)@),
    ensures
        staged(is@, roads@, final(lanes)@),
        final(lanes)@.len() == old(lanes)@.len(),
{
    let n_is = is.len();
    for k in 0..n_is
        invariant
            config_wf(cfg),
            n_is == is@.len(),
            lanes@.len() == old(lanes)@.len(),
            staged(is@, roads@, lanes@),
    {
        let rad = crate::intersections::intersection_radius(&is[k], roads, cfg);
        let ghost l0 = lanes@;
        crate::trim_lines::trim_lines(lanes, &is[k], rad);
        proof {
            assert forall|q: int| 0 <= q < lanes@.len() implies {
                let a = l0[q];
                let z = #[trigger] lanes@[q];
                &&& z.id == a.id
                &&& z.src_i == a.src_i
                &&& z.dst_i == a.dst_i
                &&& z.parent == a.parent
                &&& crate::geometry::pl_wf(z.lane_center_pts@)
            } by {
                assert(crate::trim_lines::lane_body_kept(l0[q], lanes@[q]));
            }
            lemma_staged_lanes_preserved(is@, roads@, l0, lanes@);
        }
    }
}

/// Enumerate every legal turn, intersection by intersection in identifier
/// order, and record each intersection's own turns on it. The global run is
/// strictly sorted by composite identity: deterministic, and free of
/// duplicates by construction.
#[verifier::rlimit(60)]
fn build_turns(
    is: &mut Vec<Intersection>,
    roads: &Vec<Road>,
    lanes: &Vec<Lane>,
    cfg: &Config,
) -> (turns: Vec<Turn>)
    requires
        config_wf(cfg),
        staged(old(is)@, roads@, lanes@),
    ensures
        staged(final(is)@, roads@, lanes@),
        core_fields_kept(old(is)@, final(is)@),
        forall|q: int| 0 <= q < old(is)@.len() ==> (#[trigger] final(is)@[q]).intersection_type
            == old(is)@[q].intersection_type,
        turns_ok(turns@, final(is)@, lanes@),
{
    let ghost entry = old(is)@;
    let ghost rs = roads@;
    let mut turns: Vec<Turn> = Vec::new();
    let n_is = is.len();
    for k in 0..n_is
        invariant
            config_wf(cfg),
            n_is == is@.len(),
            staged(is@, rs, lanes@),
            core_fields_kept(entry, is@),
            forall|q: int| 0 <= q < entry.len() ==> (#[trigger] is@[q]).intersection_type
                == entry[q].intersection_type,
            forall|j: int, q: int| 0 <= j < q < turns@.len() ==> turn_lt(
                (#[trigger] turns@[j]).id,
                (#[trigger] turns@[q]).id,
            ),
            forall|p: int| 0 <= p < turns@.len() ==> {
                let t = #[trigger] turns@[p];
                &&& t.id.parent.0 < k
                &&& is@[t.id.parent.0 as int].incoming_lanes@.contains(t.id.src)
                &&& is@[t.id.parent.0 as int].outgoing_lanes@.contains(t.id.dst)
            },
    {
        let ts = crate::turns::make_turns_for(&is[k], lanes, &cfg.policy);
        let ghost base = turns@;
        let n_ts = ts.len();
        let mut ids: Vec<crate::types::TurnID> = Vec::new();
        for q in 0..n_ts
            invariant
                n_ts == ts@.len(),
                turns@ == base + ts@.subrange(0, q as int),
                ids@.len() == q,
        {
            turns.push(ts[q]);
            ids.push(ts[q].id);
            proof {
                assert(turns@ =~= base + ts@.subrange(0, q as int + 1));
            }
        }
        proof {
            assert(ts@.subrange(0, n_ts as int) =~= ts@);
            assert(turns@ == base + ts@);
            assert forall|j: int, p: int| 0 <= j < p < turns@.len() implies turn_lt(
                (#[trigger] turns@[j]).id,
                (#[trigger] turns@[p]).id,
            ) by {
                if j < base.len() && p >= base.len() {
                    assert(turns@[j] == base[j]);
                    assert(turns@[p] == ts@[p - base.len()]);
                    assert(ts@[p - base.len()].id.parent == is@[k as int].id);
                    assert(is@[k as int].id == IntersectionID(k as usize));
                } else if j >= base.len() {
                    assert(turns@[j] == ts@[j - base.len()]);
                    assert(turns@[p] == ts@[p - base.len()]);
                } else {
                    assert(turns@[j] == base[j] && turns@[p] == base[p]);
                }
            }
            assert forall|p: int| 0 <= p < turns@.len() implies {
                let t = #[trigger] turns@[p];
                &&& t.id.parent.0 < k + 1
                &&& is@[t.id.parent.0 as int].incoming_lanes@.contains(t.id.src)
                &&& is@[t.id.parent.0 as int].outgoing_lanes@.contains(t.id.dst)
            } by {
                if p >= base.len() {
                    assert(turns@[p] == ts@[p - base.len()]);
                    assert(ts@[p - base.len()].id.parent == is@[k as int].id);
                }
            }
        }
        let ghost is0 = is@;
        set_turns(is, k, ids);
        proof {
            lemma_staged_preserved(is0, is@, rs, lanes@);
            assert forall|q: int| 0 <= q < entry.len() implies {
                let a = entry[q];
                let z = #[trigger] is@[q];
                z.id == a.id && z.point == a.point && z.elevation == a.elevation && z.label
                    == a.label && z.intersection_type == a.intersection_type
            } by {
                if q != k as int {
                    assert(is@[q] == is0[q]);
                }
            }
            assert forall|p: int| 0 <= p < turns@.len() implies {
                let t = #[trigger] turns@[p];
                &&& t.id.parent.0 < k + 1
                &&& is@[t.id.parent.0 as int].incoming_lanes@.contains(t.id.src)
                &&& is@[t.id.parent.0 as int].outgoing_lanes@.contains(t.id.dst)
            } by {
                let t = turns@[p];
                assert(is@[t.id.parent.0 as int].incoming_lanes == is0[
                    t.id.parent.0 as int
                ].incoming_lanes);
                assert(is@[t.id.parent.0 as int].outgoing_lanes == is0[
                    t.id.parent.0 as int
                ].outgoing_lanes);
            }
        }
    }
    turns
}

/// Pass 2: refine every intersection's polygon from the teeth of its
/// trimmed lanes. Every incident lane's endpoint becomes a polygon vertex.
fn refine_polygons(is: &mut Vec<Intersection>, roads: &Vec<Road>, lanes: &Vec<Lane>, cfg: &Config)
    requires
        config_wf(cfg),
        staged(old(is)@, roads@, lanes@),
    ensures
        staged(final(is)@, roads@, lanes@),
        core_fields_kept(old(is)@, final(is)@),
        forall|q: int| 0 <= q < old(is)@.len() ==> (#[trigger] final(is)@[q]).intersection_type
            == old(is)@[q].intersection_type,
        forall|q: int| 0 <= q < final(is)@.len() ==> {
            let i = #[trigger] final(is)@[q];
            &&& (forall|j: int| 0 <= j < i.incoming_lanes@.len() ==> i.polygon@.contains(
                lanes@[(#[trigger] i.incoming_lanes@[j]).0 as int].lane_center_pts@.last(),
            ))
            &&& (forall|j: int| 0 <= j < i.outgoing_lanes@.len() ==> i.polygon@.contains(
                lanes@[(#[trigger] i.outgoing_lanes@[j]).0 as int].lane_center_pts@[0],
            ))
        },
{
    let ghost entry = old(is)@;
    let n_is = is.len();
    for k in 0..n_is
        invariant
            config_wf(cfg),
            n_is == is@.len(),
            staged(is@, roads@, lanes@),
            core_fields_kept(entry, is@),
            forall|q: int| 0 <= q < entry.len() ==> (#[trigger] is@[q]).intersection_type
                == entry[q].intersection_type,
            forall|q: int| 0 <= q < k ==> {
                let i = #[trigger] is@[q];
                &&& (forall|j: int| 0 <= j < i.incoming_lanes@.len() ==> i.polygon@.contains(
                    lanes@[(#[trigger] i.incoming_lanes@[j]).0 as int].lane_center_pts@.last(),
                ))
                &&& (forall|j: int| 0 <= j < i.outgoing_lanes@.len() ==> i.polygon@.contains(
                    lanes@[(#[trigger] i.outgoing_lanes@[j]).0 as int].lane_center_pts@[0],
                ))
            },
    {
        let poly = crate::intersections::toothy_intersection_polygon(&is[k], lanes, cfg);
        let ghost pv = poly@;
        let ghost is0 = is@;
        set_polygon(is, k, poly);
        proof {
            lemma_staged_preserved(is0, is@, roads@, lanes@);
            assert forall|q: int| 0 <= q < entry.len() implies {
                let a = entry[q];
                let z = #[trigger] is@[q];
                z.id == a.id && z.point == a.point && z.elevation == a.elevation && z.label
                    == a.label && z.intersection_type == a.intersection_type
            } by {
                if q != k as int {
                    assert(is@[q] == is0[q]);
                }
            }
            let i = is@[k as int];
            assert(i.incoming_lanes == is0[k as int].incoming_lanes);
            assert(i.outgoing_lanes == is0[k as int].outgoing_lanes);
            assert(i.polygon@ == pv);
            assert forall|j: int| 0 <= j < i.incoming_lanes@.len() implies i.polygon@.contains(
                lanes@[(#[trigger] i.incoming_lanes@[j]).0 as int].lane_center_pts@.last(),
            ) by {
                assert(pv[3 * j] == lanes@[i.incoming_lanes@[j].0 as int].lane_center_pts@.last());
            }
            assert forall|j: int| 0 <= j < i.outgoing_lanes@.len() implies i.polygon@.contains(
                lanes@[(#[trigger] i.outgoing_lanes@[j]).0 as int].lane_center_pts@[0],
            ) by {
                assert(pv[3 * (i.incoming_lanes@.len() + j)] == lanes@[(
                i.outgoing_lanes@[j]).0 as int].lane_center_pts@[0]);
            }
        }
    }
}

/// Lanes terminate on the refined polygons: every lane's endpoints are
/// vertices of its two intersections' polygons, because refinement made
/// them so and every lane is registered on both.
proof fn lemma_lane_ends(is: Seq<Intersection>, ls: Seq<Lane>)
    requires
        ls.len() <= usize::MAX,
        lane_ids_ok(ls),
        forall|k: int| 0 <= k < ls.len() ==> (#[trigger] ls[k]).src_i.0 < is.len() && ls[
            k
        ].dst_i.0 < is.len(),
        lanes_registered(is, ls),
        forall|q: int| 0 <= q < is.len() ==> {
            let i = #[trigger] is[q];
            &&& (forall|j: int| 0 <= j < i.incoming_lanes@.len() ==> i.polygon@.contains(
                ls[(#[trigger] i.incoming_lanes@[j]).0 as int].lane_center_pts@.last(),
            ))
            &&& (forall|j: int| 0 <= j < i.outgoing_lanes@.len() ==> i.polygon@.contains(
                ls[(#[trigger] i.outgoing_lanes@[j]).0 as int].lane_center_pts@[0],
            ))
        },
    ensures
        forall|k: int| 0 <= k < ls.len() ==> {
            let l = #[trigger] ls[k];
            &&& is[l.src_i.0 as int].polygon@.contains(l.lane_center_pts@[0])
            &&& is[l.dst_i.0 as int].polygon@.contains(l.lane_center_pts@.last())
        },
{
    assert forall|k: int| 0 <= k < ls.len() implies {
        let l = #[trigger] ls[k];
        &&& is[l.src_i.0 as int].polygon@.contains(l.lane_center_pts@[0])
        &&& is[l.dst_i.0 as int].polygon@.contains(l.lane_center_pts@.last())
    } by {
        let l = ls[k];
        assert(l.id == LaneID(k as usize));
        assert(is[l.dst_i.0 as int].incoming_lanes@.contains(l.id));
        let ji = choose|j: int|
            0 <= j < is[l.dst_i.0 as int].incoming_lanes@.len() && is[
                l.dst_i.0 as int
            ].incoming_lanes@[j] == l.id;
        assert(is[l.dst_i.0 as int].polygon@.contains(
            ls[l.id.0 as int].lane_center_pts@.last(),
        ));
        assert(is[l.src_i.0 as int].outgoing_lanes@.contains(l.id));
        let jo = choose|j: int|
            0 <= j < is[l.src_i.0 as int].outgoing_lanes@.len() && is[
                l.src_i.0 as int
            ].outgoing_lanes@[j] == l.id;
        assert(is[l.src_i.0 as int].polygon@.contains(ls[l.id.0 as int].lane_center_pts@[0]));
    }
}

/// Build the half map: project the raw graph, register intersections,
/// expand ways into roads and lanes, carve coarse polygons, trim lanes at
/// them, enumerate turns, and refine every polygon from the trimmed lane
/// teeth.
///
/// Succeeds exactly on self-consistent input; every structural fault of
/// the raw data is reported as the `MalformedInput` it is, and no internal
/// invariant can fail.
#[verifier::rlimit(100)]
pub fn make_half_map(
    data: &RawMap,
    gps_bounds: &GPSBounds,
    edits: &MapEdits,
    cfg: &Config,
) -> (r: Result<HalfMap, MapError>)
    requires
        edits_wf(edits),
        config_wf(cfg),
    ensures
        r is Ok <==> input_clean(data, *gps_bounds),
        r is Ok ==> half_map_wf(&r->Ok_0),
        r is Ok ==> lane_ends_in_polygons(&r->Ok_0),
        r is Ok ==> r->Ok_0.intersections@.len() == data.intersections@.len(),
        r is Ok ==> carried_from_raw(r->Ok_0.intersections@, data, *gps_bounds),
        r is Ok ==> r->Ok_0.roads@.len() == usable_count(
            data,
            *gps_bounds,
            data.roads@.len() as int,
        ),
        r == Err::<HalfMap, MapError>(MapError::MalformedInput(MalformedKind::BadCoordinate))
            <==> has_bad_coord(data, *gps_bounds),
        r == Err::<HalfMap, MapError>(MapError::MalformedInput(MalformedKind::UnmatchedEndpoint))
            <==> (!has_bad_coord(data, *gps_bounds) && !ways_matched(data, *gps_bounds)),
        r == Err::<HalfMap, MapError>(
            MapError::MalformedInput(MalformedKind::OrphanedIntersection),
        ) <==> (!has_bad_coord(data, *gps_bounds) && ways_matched(data, *gps_bounds)
            && some_orphan(data, *gps_bounds)),
        r == Err::<HalfMap, MapError>(MapError::MalformedInput(MalformedKind::BorderNotDeadEnd))
            <==> (!has_bad_coord(data, *gps_bounds) && ways_matched(data, *gps_bounds)
            && !some_orphan(data, *gps_bounds) && some_bad_border(data, *gps_bounds)),
        r != Err::<HalfMap, MapError>(MapError::InternalInvariantViolation),
{
    match validate_input(data, gps_bounds) {
        Err(e) => {
            return Err(e);
        },
        Ok(()) => {},
    }
    let mut is = build_intersections(data, gps_bounds);
    let (roads, mut lanes) = expand_ways(data, gps_bounds, edits, cfg, &mut is);
    match check_orphans(&is, data, gps_bounds) {
        Err(e) => {
            return Err(e);
        },
        Ok(()) => {},
    }
    proof {
        assert(topo_ok(is@, roads@, lanes@));
    }
    let ghost s1 = is@;
    match apply_borders(&mut is, &roads, &lanes, data, gps_bounds) {
        Err(e) => {
            return Err(e);
        },
        Ok(()) => {},
    }
    let ghost s2 = is@;
    initial_polygons(&mut is, &roads, &lanes, cfg);
    let ghost s3 = is@;
    trim_all(&mut lanes, &is, &roads, cfg);
    let turns = build_turns(&mut is, &roads, &lanes, cfg);
    let ghost s4 = is@;
    refine_polygons(&mut is, &roads, &lanes, cfg);
    proof {
        assert forall|k: int| 0 <= k < is@.len() implies {
            let z = #[trigger] is@[k];
            let a = data.intersections@[k];
            &&& Some(z.point) == spec_project(a.point, *gps_bounds)
            &&& z.elevation == a.elevation
            &&& z.label == a.label
            &&& (z.intersection_type == a.intersection_type || z.intersection_type
                == IntersectionType::Border)
        } by {
            assert(s2[k].point == s1[k].point && s2[k].elevation == s1[k].elevation && s2[k].label
                == s1[k].label);
            assert(s3[k].point == s2[k].point && s3[k].elevation == s2[k].elevation && s3[k].label
                == s2[k].label && s3[k].intersection_type == s2[k].intersection_type);
            assert(s4[k].point == s3[k].point && s4[k].elevation == s3[k].elevation && s4[k].label
                == s3[k].label && s4[k].intersection_type == s3[k].intersection_type);
            assert(is@[k].point == s4[k].point && is@[k].elevation == s4[k].elevation
                && is@[k].label == s4[k].label && is@[k].intersection_type
                == s4[k].intersection_type);
        }
    }
    let n_lanes = lanes.len();
    proof {
        assert(lanes@.len() == n_lanes);
        lemma_lane_ends(is@, lanes@);
    }
    let m = HalfMap { roads, lanes, intersections: is, turns };
    Ok(m)
}

/// Law: no road of a finished map loops back to its own intersection —
/// its source and destination intersections always differ.
pub proof fn lemma_no_self_loop_roads(m: &HalfMap)
    requires
        half_map_wf(m),
    ensures
        forall|k: int| 0 <= k < m.roads@.len() ==> (#[trigger] m.roads@[k]).src_i != m.roads@[
            k
        ].dst_i,
{
}

/// Law: no intersection of a finished map is orphaned — each has at least
/// one incoming or outgoing lane.
pub proof fn lemma_no_orphaned_intersections(m: &HalfMap)
    requires
        half_map_wf(m),
    ensures
        forall|k: int| 0 <= k < m.intersections@.len() ==> (
        #[trigger] m.intersections@[k]).incoming_lanes@.len() + m.intersections@[
            k
        ].outgoing_lanes@.len() > 0,
{
}

/// Law: the turn set is deduplicated — no two turns of a finished map share
/// the same (intersection, source lane, destination lane) identity.
pub proof fn lemma_turns_deduplicated(m: &HalfMap)
    requires
        half_map_wf(m),
    ensures
        forall|j: int, k: int| 0 <= j < k < m.turns@.len() ==> (#[trigger] m.turns@[j]).id != (
        #[trigger] m.turns@[k]).id,
{
    assert forall|j: int, k: int| 0 <= j < k < m.turns@.len() implies (
    #[trigger] m.turns@[j]).id != (#[trigger] m.turns@[k]).id by {
        assert(crate::model::turn_lt(m.turns@[j].id, m.turns@[k].id));
    }
}

/// Law: every lane of a finished map terminates on the refined polygon of
/// both of its intersections — its endpoints are polygon vertices.
pub proof fn lemma_lane_ends_on_polygons(m: &HalfMap)
    requires
        half_map_wf(m),
        lane_ends_in_polygons(m),
    ensures
        forall|k: int| 0 <= k < m.lanes@.len() ==> {
            let l = #[trigger] m.lanes@[k];
            &&& m.intersections@[l.src_i.0 as int].polygon@.contains(l.lane_center_pts@[0])
            &&& m.intersections@[l.dst_i.0 as int].polygon@.contains(l.lane_center_pts@.last())
        },
{
}

/// Law: identifier assignment is deterministic — in any finished map, every
/// record's identifier is its position, so two runs on the same input
/// assign identical identifiers.
pub proof fn lemma_identifiers_deterministic(m: &HalfMap)
    requires
        half_map_wf(m),
    ensures
        forall|k: int| 0 <= k < m.intersections@.len() ==> (#[trigger] m.intersections@[k]).id
            == IntersectionID(k as usize),
        forall|k: int| 0 <= k < m.roads@.len() ==> (#[trigger] m.roads@[k]).id == RoadID(
            k as usize,
        ),
        forall|k: int| 0 <= k < m.lanes@.len() ==> (#[trigger] m.lanes@[k]).id
            == crate::types::LaneID(k as usize),
{
}

} // verus!
