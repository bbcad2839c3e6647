//! The records of the half-built map — intersections, roads, lanes, turns —
//! and the structural invariants that tie them together.

use crate::geometry::{pl_nondegen, pl_wf, PolyLine, Pt2D};
use crate::types::{
    BuildingID, BusStopID, IntersectionID, IntersectionType, LaneID, LaneType, RoadID, TurnID,
};
use vstd::prelude::*;

verus! {

/// A node of the finished graph, with the polygon carved for it and the
/// ordered lists of lanes that arrive and depart.
#[derive(Clone, Debug, PartialEq)]
pub struct Intersection {
    pub id: IntersectionID,
    pub point: Pt2D,
    /// Rewritten twice during construction: a coarse polygon first, the
    /// refined "toothy" polygon after trimming.
    pub polygon: Vec<Pt2D>,
    pub turns: Vec<TurnID>,
    pub elevation: i64,
    pub intersection_type: IntersectionType,
    pub label: Option<String>,
    pub incoming_lanes: Vec<LaneID>,
    pub outgoing_lanes: Vec<LaneID>,
    /// The adjacent roads, ascending and without repeats: an ordered set.
    pub roads: Vec<RoadID>,
}

impl Intersection {
    /// A dead-end touches exactly one road.
    pub open spec fn spec_is_dead_end(&self) -> bool {
        self.roads@.len() == 1
    }

    pub fn is_dead_end(&self) -> (r: bool)
        ensures
            r == self.spec_is_dead_end(),
    {
        self.roads.len() == 1
    }
}

/// A road of the finished graph, holding its child lanes by direction.
#[derive(Clone, Debug, PartialEq)]
pub struct Road {
    pub id: RoadID,
    pub osm_tags: Vec<(String, String)>,
    pub osm_way_id: i64,
    pub children_forwards: Vec<(LaneID, LaneType)>,
    pub children_backwards: Vec<(LaneID, LaneType)>,
    pub center_pts: PolyLine,
    pub src_i: IntersectionID,
    pub dst_i: IntersectionID,
}

/// One directional traffic channel of a road, with its own offset
/// centerline. The centerline is rewritten once by the trimming pass.
#[derive(Clone, Debug, PartialEq)]
pub struct Lane {
    pub id: LaneID,
    pub lane_center_pts: PolyLine,
    /// The lateral offset could not be computed cleanly and fell back to a
    /// best-effort shift.
    pub probably_broken: bool,
    pub src_i: IntersectionID,
    pub dst_i: IntersectionID,
    pub lane_type: LaneType,
    pub parent: RoadID,
    /// Filled in by later consumers of the finished map.
    pub building_paths: Vec<BuildingID>,
    /// Filled in by later consumers of the finished map.
    pub bus_stops: Vec<BusStopID>,
}

impl Lane {
    pub open spec fn spec_is_driving(&self) -> bool {
        self.lane_type == LaneType::Driving
    }

    pub fn is_driving(&self) -> (r: bool)
        ensures
            r == self.spec_is_driving(),
    {
        matches!(self.lane_type, LaneType::Driving)
    }
}

/// One legal point-to-point movement through an intersection, from the end
/// of the source lane to the start of the destination lane. Never mutated
/// once created.
#[derive(Clone, Copy, Debug, PartialEq)]
pub struct Turn {
    pub id: TurnID,
    /// Where the movement begins: the end of the source lane.
    pub line_start: Pt2D,
    /// Where the movement ends: the start of the destination lane.
    pub line_end: Pt2D,
}

/// Strict ordering of composite turn identities: by intersection, then
/// source lane, then destination lane.
pub open spec fn turn_lt(a: TurnID, b: TurnID) -> bool {
    ||| a.parent.0 < b.parent.0
    ||| (a.parent.0 == b.parent.0 && a.src.0 < b.src.0)
    ||| (a.parent.0 == b.parent.0 && a.src.0 == b.src.0 && a.dst.0 < b.dst.0)
}

/// A strictly ascending run of lane identifiers.
pub open spec fn lanes_ascending(s: Seq<LaneID>) -> bool {
    forall|j: int, k: int| 0 <= j < k < s.len() ==> s[j].0 < s[k].0
}

/// A strictly ascending run of road identifiers.
pub open spec fn roads_ascending(s: Seq<RoadID>) -> bool {
    forall|j: int, k: int| 0 <= j < k < s.len() ==> s[j].0 < s[k].0
}

/// Identifiers are the positions: record `k` carries identifier `k`.
pub open spec fn inter_ids_ok(is: Seq<Intersection>) -> bool {
    forall|k: int| 0 <= k < is.len() ==> (#[trigger] is[k]).id == IntersectionID(k as usize)
}

pub open spec fn road_ids_ok(rs: Seq<Road>) -> bool {
    forall|k: int| 0 <= k < rs.len() ==> (#[trigger] rs[k]).id == RoadID(k as usize)
}

pub open spec fn lane_ids_ok(ls: Seq<Lane>) -> bool {
    forall|k: int| 0 <= k < ls.len() ==> (#[trigger] ls[k]).id == LaneID(k as usize)
}

/// Every lane points at real intersections and a real parent road, never
/// loops on one intersection, and carries a usable centerline.
pub open spec fn lane_refs_ok(ls: Seq<Lane>, n_inter: int, n_roads: int) -> bool {
    forall|k: int| 0 <= k < ls.len() ==> {
        let l = #[trigger] ls[k];
        &&& l.src_i.0 < n_inter
        &&& l.dst_i.0 < n_inter
        &&& l.src_i != l.dst_i
        &&& l.parent.0 < n_roads
        &&& pl_wf(l.lane_center_pts@)
    }
}

/// Every road joins two distinct real intersections with a shiftable
/// centerline.
pub open spec fn road_refs_ok(rs: Seq<Road>, n_inter: int) -> bool {
    forall|k: int| 0 <= k < rs.len() ==> {
        let r = #[trigger] rs[k];
        &&& r.src_i.0 < n_inter
        &&& r.dst_i.0 < n_inter
        &&& r.src_i != r.dst_i
        &&& pl_nondegen(r.center_pts@)
    }
}

/// An intersection's lane lists are ascending and name real lanes that
/// really end (incoming) or begin (outgoing) here; its road set is an
/// ascending set of real adjacent roads.
pub open spec fn inter_lists_ok(is: Seq<Intersection>, rs: Seq<Road>, ls: Seq<Lane>) -> bool {
    forall|k: int| 0 <= k < is.len() ==> {
        let i = #[trigger] is[k];
        &&& lanes_ascending(i.incoming_lanes@)
        &&& lanes_ascending(i.outgoing_lanes@)
        &&& roads_ascending(i.roads@)
        &&& (forall|j: int| 0 <= j < i.incoming_lanes@.len() ==> {
            let l = (#[trigger] i.incoming_lanes@[j]).0;
            l < ls.len() && ls[l as int].dst_i.0 == k
        })
        &&& (forall|j: int| 0 <= j < i.outgoing_lanes@.len() ==> {
            let l = (#[trigger] i.outgoing_lanes@[j]).0;
            l < ls.len() && ls[l as int].src_i.0 == k
        })
        &&& (forall|j: int| 0 <= j < i.roads@.len() ==> {
            let rd = (#[trigger] i.roads@[j]).0;
            rd < rs.len() && (rs[rd as int].src_i.0 == k || rs[rd as int].dst_i.0 == k)
        })
    }
}

/// Every lane is registered on both of its endpoint intersections.
pub open spec fn lanes_registered(is: Seq<Intersection>, ls: Seq<Lane>) -> bool {
    forall|k: int| 0 <= k < ls.len() ==> {
        let l = #[trigger] ls[k];
        &&& is[l.dst_i.0 as int].incoming_lanes@.contains(l.id)
        &&& is[l.src_i.0 as int].outgoing_lanes@.contains(l.id)
    }
}

/// No intersection is orphaned: each has an incident lane.
pub open spec fn no_orphans(is: Seq<Intersection>) -> bool {
    forall|k: int| 0 <= k < is.len() ==> (#[trigger] is[k]).incoming_lanes@.len() + is[
        k
    ].outgoing_lanes@.len() > 0
}

/// Border intersections are topological dead-ends.
pub open spec fn borders_are_dead_ends(is: Seq<Intersection>) -> bool {
    forall|k: int| 0 <= k < is.len() ==> ((#[trigger] is[k]).intersection_type
        == IntersectionType::Border ==> is[k].roads@.len() == 1)
}

/// The turn set is strictly ordered by composite identity — so iteration is
/// deterministic and no identity repeats — and each turn names an
/// intersection it really crosses, from a lane that arrives there to a lane
/// that departs.
pub open spec fn turns_ok(ts: Seq<Turn>, is: Seq<Intersection>, ls: Seq<Lane>) -> bool {
    &&& forall|j: int, k: int| 0 <= j < k < ts.len() ==> turn_lt(
        (#[trigger] ts[j]).id,
        (#[trigger] ts[k]).id,
    )
    &&& forall|j: int| 0 <= j < ts.len() ==> {
        let t = #[trigger] ts[j];
        &&& t.id.parent.0 < is.len()
        &&& is[t.id.parent.0 as int].incoming_lanes@.contains(t.id.src)
        &&& is[t.id.parent.0 as int].outgoing_lanes@.contains(t.id.dst)
    }
}

/// Registration survives any step that keeps each lane's identity and
/// endpoints and each intersection's lane lists.
pub proof fn lemma_registration_preserved(
    is0: Seq<Intersection>,
    is1: Seq<Intersection>,
    ls0: Seq<Lane>,
    ls1: Seq<Lane>,
)
    requires
        lanes_registered(is0, ls0),
        is1.len() == is0.len(),
        ls1.len() == ls0.len(),
        forall|k: int| 0 <= k < ls0.len() ==> (#[trigger] ls1[k]).id == ls0[k].id && ls1[k].src_i
            == ls0[k].src_i && ls1[k].dst_i == ls0[k].dst_i,
        forall|k: int| 0 <= k < ls0.len() ==> (#[trigger] ls0[k]).src_i.0 < is0.len() && ls0[
            k
        ].dst_i.0 < is0.len(),
        forall|q: int| 0 <= q < is0.len() ==> (#[trigger] is1[q]).incoming_lanes == is0[
            q
        ].incoming_lanes && is1[q].outgoing_lanes == is0[q].outgoing_lanes,
    ensures
        lanes_registered(is1, ls1),
{
    assert forall|k: int| 0 <= k < ls1.len() implies {
        let l = #[trigger] ls1[k];
        &&& is1[l.dst_i.0 as int].incoming_lanes@.contains(l.id)
        &&& is1[l.src_i.0 as int].outgoing_lanes@.contains(l.id)
    } by {
        let l0 = ls0[k];
        assert(is0[l0.dst_i.0 as int].incoming_lanes@.contains(l0.id));
        assert(is0[l0.src_i.0 as int].outgoing_lanes@.contains(l0.id));
        assert(is1[l0.dst_i.0 as int].incoming_lanes == is0[l0.dst_i.0 as int].incoming_lanes);
        assert(is1[l0.src_i.0 as int].outgoing_lanes == is0[l0.src_i.0 as int].outgoing_lanes);
    }
}

/// The structural facts survive any step that keeps each intersection's
/// identity, lane lists and road set, and each lane's identity and
/// endpoints.
pub proof fn lemma_lists_preserved(
    is0: Seq<Intersection>,
    is1: Seq<Intersection>,
    rs: Seq<Road>,
    ls: Seq<Lane>,
)
    requires
        inter_lists_ok(is0, rs, ls),
        is1.len() == is0.len(),
        forall|q: int| 0 <= q < is0.len() ==> (#[trigger] is1[q]).incoming_lanes == is0[
            q
        ].incoming_lanes && is1[q].outgoing_lanes == is0[q].outgoing_lanes && is1[q].roads == is0[
            q
        ].roads,
    ensures
        inter_lists_ok(is1, rs, ls),
{
    assert forall|k: int| 0 <= k < is1.len() implies {
        let i = #[trigger] is1[k];
        &&& lanes_ascending(i.incoming_lanes@)
        &&& lanes_ascending(i.outgoing_lanes@)
        &&& roads_ascending(i.roads@)
        &&& (forall|j: int| 0 <= j < i.incoming_lanes@.len() ==> {
            let l = (#[trigger] i.incoming_lanes@[j]).0;
            l < ls.len() && ls[l as int].dst_i.0 == k
        })
        &&& (forall|j: int| 0 <= j < i.outgoing_lanes@.len() ==> {
            let l = (#[trigger] i.outgoing_lanes@[j]).0;
            l < ls.len() && ls[l as int].src_i.0 == k
        })
        &&& (forall|j: int| 0 <= j < i.roads@.len() ==> {
            let rd = (#[trigger] i.roads@[j]).0;
            rd < rs.len() && (rs[rd as int].src_i.0 == k || rs[rd as int].dst_i.0 == k)
        })
    } by {
        assert(is1[k].incoming_lanes == is0[k].incoming_lanes);
        assert(is1[k].outgoing_lanes == is0[k].outgoing_lanes);
        assert(is1[k].roads == is0[k].roads);
    }
}

} // verus!
