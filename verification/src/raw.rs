//! The raw survey data the pipeline consumes: intersection nodes, ways, and
//! the edit set of lane-specification overrides.

use crate::geometry::LonLat;
use crate::lanes::LaneSpec;
use crate::types::{IntersectionType, MAX_LANES_PER_ROAD, MAX_LANE_OFFSET};
use vstd::prelude::*;

verus! {

/// One intersection node of the raw graph.
#[derive(Clone, Debug, PartialEq)]
pub struct RawIntersection {
    pub point: LonLat,
    pub intersection_type: IntersectionType,
    /// Height above some datum, in map units.
    pub elevation: i64,
    pub label: Option<String>,
}

/// One way of the raw graph: an ordered run of geographic points with its
/// tag set.
#[derive(Clone, Debug, PartialEq)]
pub struct RawRoad {
    pub points: Vec<LonLat>,
    pub osm_tags: Vec<(String, String)>,
    pub osm_way_id: i64,
}

/// The raw graph.
#[derive(Clone, Debug, PartialEq)]
pub struct RawMap {
    pub intersections: Vec<RawIntersection>,
    pub roads: Vec<RawRoad>,
}

/// Lane-specification overrides, keyed by way identifier. An entry replaces
/// the tag-derived lane list of its way wholesale.
#[derive(Clone, Debug, PartialEq)]
pub struct MapEdits {
    pub overrides: Vec<(i64, Vec<LaneSpec>)>,
}

/// The override list a way may carry: never wider than a road may be, with
/// offsets small enough that every requested shift stays representable. An
/// empty list is allowed and means the way keeps its tag-derived lanes.
pub open spec fn override_list_wf(s: Seq<LaneSpec>) -> bool {
    &&& s.len() <= MAX_LANES_PER_ROAD
    &&& forall|i: int| 0 <= i < s.len() ==> (#[trigger] s[i]).offset < MAX_LANE_OFFSET
}

/// Every override of the edit set is usable.
pub open spec fn edits_wf(e: &MapEdits) -> bool {
    forall|i: int| 0 <= i < e.overrides@.len() ==> override_list_wf(
        (#[trigger] e.overrides@[i]).1@,
    )
}

/// The override for a way, if any: the first entry with its identifier,
/// scanning from position `i`.
pub open spec fn override_from(s: Seq<(i64, Vec<LaneSpec>)>, way: i64, i: int) -> Option<
    Seq<LaneSpec>,
>
    decreases s.len() - i,
{
    if i < 0 || i >= s.len() {
        None
    } else if s[i].0 == way {
        Some(s[i].1@)
    } else {
        override_from(s, way, i + 1)
    }
}

/// The override the edit set holds for a way, if any.
pub open spec fn spec_override(e: &MapEdits, way: i64) -> Option<Seq<LaneSpec>> {
    override_from(e.overrides@, way, 0)
}

/// In a usable edit set, whatever override a lookup finds is itself usable.
pub proof fn lemma_override_wf(e: &MapEdits, way: i64, i: int)
    requires
        edits_wf(e),
        override_from(e.overrides@, way, i) is Some,
    ensures
        override_list_wf(override_from(e.overrides@, way, i)->Some_0),
    decreases e.overrides@.len() - i,
{
    if 0 <= i < e.overrides@.len() {
        if e.overrides@[i].0 == way {
        } else {
            lemma_override_wf(e, way, i + 1);
        }
    }
}

impl MapEdits {
    /// An empty edit set.
    pub fn none() -> (r: MapEdits)
        ensures
            edits_wf(&r),
            forall|way: i64| spec_override(&r, way) is None,
    {
        MapEdits { overrides: Vec::new() }
    }

    /// Look up the override for a way.
    pub fn override_for(&self, way: i64) -> (r: Option<&Vec<LaneSpec>>)
        ensures
            r is Some <==> spec_override(self, way) is Some,
            r is Some ==> r->Some_0@ == spec_override(self, way)->Some_0,
    {
        let n = self.overrides.len();
        for i in 0..n
            invariant
                n == self.overrides@.len(),
                spec_override(self, way) == override_from(self.overrides@, way, i as int),
        {
            if self.overrides[i].0 == way {
                return Some(&self.overrides[i].1);
            }
        }
        None
    }
}

} // verus!
