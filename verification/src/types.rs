//! Identifiers, enumerations, errors and the configuration value threaded
//! through every stage of the map construction pipeline.

use vstd::prelude::*;

verus! {

/// Stable sequential identifier of an intersection.
#[derive(Clone, Copy, Debug, PartialEq, Eq, Structural, Hash)]
pub struct IntersectionID(pub usize);

/// Stable sequential identifier of a road.
#[derive(Clone, Copy, Debug, PartialEq, Eq, Structural, Hash)]
pub struct RoadID(pub usize);

/// Stable sequential identifier of a lane.
#[derive(Clone, Copy, Debug, PartialEq, Eq, Structural, Hash)]
pub struct LaneID(pub usize);

/// Identifier of a building whose access path reaches a lane; filled in by a
/// later consumer of the finished map.
#[derive(Clone, Copy, Debug, PartialEq, Eq, Structural, Hash)]
pub struct BuildingID(pub usize);

/// Identifier of a bus stop on a lane; filled in by a later consumer.
#[derive(Clone, Copy, Debug, PartialEq, Eq, Structural, Hash)]
pub struct BusStopID(pub usize);

/// Composite identity of a turn: one legal movement through `parent` from
/// lane `src` to lane `dst`.
#[derive(Clone, Copy, Debug, PartialEq, Eq, Structural, Hash)]
pub struct TurnID {
    pub parent: IntersectionID,
    pub src: LaneID,
    pub dst: LaneID,
}

/// What kind of traffic a lane carries.
#[derive(Clone, Copy, Debug, PartialEq, Eq, Structural, Hash)]
pub enum LaneType {
    Driving,
    Parking,
    Biking,
    Bus,
    Sidewalk,
}

/// The role of an intersection in the finished map.
#[derive(Clone, Copy, Debug, PartialEq, Eq, Structural, Hash)]
pub enum IntersectionType {
    Regular,
    Border,
    DeadEnd,
    Merged,
}

/// The way a raw input fails to describe a buildable map.
#[derive(Clone, Copy, Debug, PartialEq, Eq, Structural)]
pub enum MalformedKind {
    /// A geographic coordinate lies outside the representable range of the
    /// projection.
    BadCoordinate,
    /// A way endpoint matches no intersection point exactly.
    UnmatchedEndpoint,
    /// An intersection would end up with no incident lanes.
    OrphanedIntersection,
    /// The raw data marks an intersection as a border although it is not a
    /// topological dead-end.
    BorderNotDeadEnd,
}

/// A fatal failure of map construction.
#[derive(Clone, Copy, Debug, PartialEq, Eq, Structural)]
pub enum MapError {
    /// The raw input is self-inconsistent; the value says how.
    MalformedInput(MalformedKind),
    /// A structural invariant of the pipeline itself was violated. The
    /// pipeline proves its invariants, so this is never produced; it exists
    /// so callers can distinguish the two halves of the error taxonomy.
    InternalInvariantViolation,
}

/// Largest lateral offset index a lane specification may carry.
pub const MAX_LANE_OFFSET: u8 = 16;

/// Largest number of lanes one road may carry.
pub const MAX_LANES_PER_ROAD: usize = 32;

/// Which lane-type pairs may be connected by a turn: an injectable
/// connectivity policy consulted, not re-derived, by the turn generator.
#[derive(Clone, Debug, PartialEq)]
pub struct TurnPolicy {
    pub allowed: Vec<(LaneType, LaneType)>,
}

impl TurnPolicy {
    /// A movement from a lane of type `src` to one of type `dst` is legal.
    pub open spec fn spec_allows(&self, src: LaneType, dst: LaneType) -> bool {
        self.allowed@.contains((src, dst))
    }

    pub fn allows(&self, src: LaneType, dst: LaneType) -> (r: bool)
        ensures
            r == self.spec_allows(src, dst),
    {
        let n = self.allowed.len();
        for i in 0..n
            invariant
                n == self.allowed@.len(),
                forall|j: int| 0 <= j < i ==> self.allowed@[j] != (src, dst),
        {
            let (a, b) = self.allowed[i];
            if a == src && b == dst {
                proof {
                    assert(self.allowed@[i as int] == (src, dst));
                }
                return true;
            }
        }
        false
    }

    /// The usual policy: traffic stays in its own kind of lane, and buses
    /// may mix with general driving traffic.
    pub fn standard() -> (r: TurnPolicy)
        ensures
            r.spec_allows(LaneType::Driving, LaneType::Driving),
            r.spec_allows(LaneType::Biking, LaneType::Biking),
            r.spec_allows(LaneType::Sidewalk, LaneType::Sidewalk),
            r.spec_allows(LaneType::Bus, LaneType::Bus),
            r.spec_allows(LaneType::Bus, LaneType::Driving),
            r.spec_allows(LaneType::Driving, LaneType::Bus),
            forall|a: LaneType, b: LaneType| r.spec_allows(a, b) ==> standard_pair(a, b),
    {
        let mut v: Vec<(LaneType, LaneType)> = Vec::new();
        v.push((LaneType::Driving, LaneType::Driving));
        v.push((LaneType::Biking, LaneType::Biking));
        v.push((LaneType::Sidewalk, LaneType::Sidewalk));
        v.push((LaneType::Bus, LaneType::Bus));
        v.push((LaneType::Bus, LaneType::Driving));
        v.push((LaneType::Driving, LaneType::Bus));
        proof {
            assert(v@[0] == (LaneType::Driving, LaneType::Driving));
            assert(v@[1] == (LaneType::Biking, LaneType::Biking));
            assert(v@[2] == (LaneType::Sidewalk, LaneType::Sidewalk));
            assert(v@[3] == (LaneType::Bus, LaneType::Bus));
            assert(v@[4] == (LaneType::Bus, LaneType::Driving));
            assert(v@[5] == (LaneType::Driving, LaneType::Bus));
        }
        TurnPolicy { allowed: v }
    }
}

/// The pairs the standard policy admits.
pub open spec fn standard_pair(a: LaneType, b: LaneType) -> bool {
    ||| (a == LaneType::Driving && b == LaneType::Driving)
    ||| (a == LaneType::Biking && b == LaneType::Biking)
    ||| (a == LaneType::Sidewalk && b == LaneType::Sidewalk)
    ||| (a == LaneType::Bus && b == LaneType::Bus)
    ||| (a == LaneType::Bus && b == LaneType::Driving)
    ||| (a == LaneType::Driving && b == LaneType::Bus)
}

/// The configuration threaded through every pipeline stage, in place of
/// module-level constants, so a build is reproducible with varied
/// parameters.
#[derive(Clone, Debug, PartialEq)]
pub struct Config {
    /// Width of one lane, in map units. Must be even and modest, so that
    /// every lateral shift the expander requests stays within
    /// `geometry::WIDTH_LIMIT`.
    pub lane_thickness: u32,
    /// Which lane-type pairs the turn generator connects.
    pub policy: TurnPolicy,
}

pub open spec fn config_wf(c: &Config) -> bool {
    &&& 2 <= c.lane_thickness <= 65536
    &&& c.lane_thickness % 2 == 0
}

impl Config {
    /// A configuration with the given lane thickness and the standard turn
    /// policy.
    pub fn standard(lane_thickness: u32) -> (r: Config)
        requires
            2 <= lane_thickness <= 65536,
            lane_thickness % 2 == 0,
        ensures
            config_wf(&r),
            r.lane_thickness == lane_thickness,
    {
        Config { lane_thickness, policy: TurnPolicy::standard() }
    }
}

} // verus!
