//! End-to-end checks of the map construction pipeline.

use map_model::geometry::{GPSBounds, LonLat};
use map_model::half_map::make_half_map;
use map_model::raw::{MapEdits, RawIntersection, RawMap, RawRoad};
use map_model::lanes::LaneSpec;
use map_model::types::{Config, IntersectionType, LaneType, MalformedKind, MapError};

fn bounds() -> GPSBounds {
    GPSBounds { min_lon: 0, min_lat: 0, max_lon: 100_000, max_lat: 100_000 }
}

fn node(lon: i64, lat: i64) -> RawIntersection {
    RawIntersection {
        point: LonLat { lon, lat },
        intersection_type: IntersectionType::Regular,
        elevation: 0,
        label: None,
    }
}

fn way(pts: &[(i64, i64)], id: i64) -> RawRoad {
    RawRoad {
        points: pts.iter().map(|&(lon, lat)| LonLat { lon, lat }).collect(),
        osm_tags: Vec::new(),
        osm_way_id: id,
    }
}

fn cfg() -> Config {
    Config::standard(250)
}

/// Two roads sharing one endpoint intersection, no lane overrides.
#[test]
fn two_roads_shared_endpoint() {
    let data = RawMap {
        intersections: vec![
            node(0, 100_000),
            node(1000, 100_000),
            node(2000, 100_000),
        ],
        roads: vec![
            way(&[(0, 100_000), (1000, 100_000)], 1),
            way(&[(1000, 100_000), (2000, 100_000)], 2),
        ],
    };
    let m = make_half_map(&data, &bounds(), &MapEdits::none(), &cfg()).unwrap();
    assert_eq!(m.intersections.len(), 3);
    assert_eq!(m.roads.len(), 2);
    // an untagged way: one driving lane and a sidewalk per direction
    assert_eq!(m.lanes.len(), 8);
    // the shared intersection is adjacent to both roads
    assert_eq!(m.intersections[1].roads.len(), 2);
    // the innermost lane is shifted by half a lane thickness: the first
    // road runs along y = 0, so its forward driving lane sits at y = -125
    let innermost = &m.lanes[0];
    assert_eq!(innermost.lane_type, LaneType::Driving);
    assert!(!innermost.probably_broken);
    for p in &innermost.lane_center_pts.pts {
        assert_eq!(p.y, -125);
    }
}

/// A way whose first and last points coincide is dropped, with no lanes.
#[test]
fn self_loop_way_dropped() {
    let data = RawMap {
        intersections: vec![node(0, 100_000), node(1000, 100_000)],
        roads: vec![
            way(&[(0, 100_000), (1000, 100_000)], 1),
            way(&[(0, 100_000), (500, 99_000), (0, 100_000)], 2),
        ],
    };
    let m = make_half_map(&data, &bounds(), &MapEdits::none(), &cfg()).unwrap();
    assert_eq!(m.roads.len(), 1);
    assert_eq!(m.lanes.len(), 4);
}

/// A centerline shorter than the lane thickness cannot be shifted cleanly:
/// the lane is marked degraded but still has usable geometry.
#[test]
fn short_way_degrades_lane() {
    let data = RawMap {
        intersections: vec![node(0, 100_000), node(100, 100_000)],
        roads: vec![way(&[(0, 100_000), (100, 100_000)], 1)],
    };
    let m = make_half_map(&data, &bounds(), &MapEdits::none(), &cfg()).unwrap();
    // the innermost lane needs a shift of 125, but the way is only 100 long
    let innermost = &m.lanes[0];
    assert!(innermost.probably_broken);
    assert!(innermost.lane_center_pts.pts.len() >= 2);
}

/// Re-running the pipeline on identical input produces identical
/// identifier assignments and polygon vertex sequences.
#[test]
fn idempotent_rebuild() {
    let data = RawMap {
        intersections: vec![
            node(0, 100_000),
            node(1000, 100_000),
            node(2000, 100_000),
        ],
        roads: vec![
            way(&[(0, 100_000), (1000, 100_000)], 1),
            way(&[(1000, 100_000), (2000, 100_000)], 2),
        ],
    };
    let m1 = make_half_map(&data, &bounds(), &MapEdits::none(), &cfg()).unwrap();
    let m2 = make_half_map(&data, &bounds(), &MapEdits::none(), &cfg()).unwrap();
    assert_eq!(m1.intersections, m2.intersections);
    assert_eq!(m1.roads, m2.roads);
    assert_eq!(m1.lanes, m2.lanes);
    assert_eq!(m1.turns, m2.turns);
}

/// The turn set is strictly ordered by composite identity, so no two turns
/// share one, and enumeration is stable.
#[test]
fn turns_ordered_and_deduplicated() {
    let data = RawMap {
        intersections: vec![
            node(0, 100_000),
            node(1000, 100_000),
            node(2000, 100_000),
        ],
        roads: vec![
            way(&[(0, 100_000), (1000, 100_000)], 1),
            way(&[(1000, 100_000), (2000, 100_000)], 2),
        ],
    };
    let m = make_half_map(&data, &bounds(), &MapEdits::none(), &cfg()).unwrap();
    // driving->driving and sidewalk->sidewalk pairs: 2 at each end, 8 in
    // the middle
    assert_eq!(m.turns.len(), 12);
    for w in m.turns.windows(2) {
        let a = w[0].id;
        let b = w[1].id;
        assert!(
            (a.parent.0, a.src.0, a.dst.0) < (b.parent.0, b.src.0, b.dst.0),
            "turns out of order"
        );
    }
}

/// Every trimmed lane terminates on the refined polygons of both of its
/// intersections.
#[test]
fn lane_ends_are_polygon_vertices() {
    let data = RawMap {
        intersections: vec![
            node(0, 100_000),
            node(1000, 100_000),
            node(2000, 100_000),
        ],
        roads: vec![
            way(&[(0, 100_000), (1000, 100_000)], 1),
            way(&[(1000, 100_000), (2000, 100_000)], 2),
        ],
    };
    let m = make_half_map(&data, &bounds(), &MapEdits::none(), &cfg()).unwrap();
    for lane in &m.lanes {
        let first = lane.lane_center_pts.pts[0];
        let last = *lane.lane_center_pts.pts.last().unwrap();
        assert!(m.intersections[lane.src_i.0].polygon.contains(&first));
        assert!(m.intersections[lane.dst_i.0].polygon.contains(&last));
    }
}

#[test]
fn bad_coordinate_rejected() {
    let data = RawMap {
        intersections: vec![node(-5, 100_000), node(1000, 100_000)],
        roads: vec![way(&[(-5, 100_000), (1000, 100_000)], 1)],
    };
    let r = make_half_map(&data, &bounds(), &MapEdits::none(), &cfg());
    assert_eq!(
        r.unwrap_err(),
        MapError::MalformedInput(MalformedKind::BadCoordinate)
    );
}

/// A way whose points are all geographically identical is a degenerate
/// self-loop: it is dropped and the build continues.
#[test]
fn degenerate_way_dropped() {
    let data = RawMap {
        intersections: vec![node(0, 100_000), node(1000, 100_000)],
        roads: vec![
            way(&[(0, 100_000), (1000, 100_000)], 1),
            way(&[(500, 100_000), (500, 100_000)], 2),
        ],
    };
    let m = make_half_map(&data, &bounds(), &MapEdits::none(), &cfg()).unwrap();
    assert_eq!(m.roads.len(), 1);
    assert_eq!(m.lanes.len(), 4);
}

#[test]
fn unmatched_endpoint_rejected() {
    let data = RawMap {
        intersections: vec![node(0, 100_000), node(1000, 100_000)],
        roads: vec![
            way(&[(0, 100_000), (1000, 100_000)], 1),
            way(&[(0, 100_000), (777, 99_000)], 2),
        ],
    };
    let r = make_half_map(&data, &bounds(), &MapEdits::none(), &cfg());
    assert_eq!(
        r.unwrap_err(),
        MapError::MalformedInput(MalformedKind::UnmatchedEndpoint)
    );
}

#[test]
fn orphaned_intersection_rejected() {
    let data = RawMap {
        intersections: vec![
            node(0, 100_000),
            node(1000, 100_000),
            node(5000, 95_000),
        ],
        roads: vec![way(&[(0, 100_000), (1000, 100_000)], 1)],
    };
    let r = make_half_map(&data, &bounds(), &MapEdits::none(), &cfg());
    assert_eq!(
        r.unwrap_err(),
        MapError::MalformedInput(MalformedKind::OrphanedIntersection)
    );
}

#[test]
fn border_that_is_no_dead_end_rejected() {
    let mut middle = node(1000, 100_000);
    middle.intersection_type = IntersectionType::Border;
    let data = RawMap {
        intersections: vec![node(0, 100_000), middle, node(2000, 100_000)],
        roads: vec![
            way(&[(0, 100_000), (1000, 100_000)], 1),
            way(&[(1000, 100_000), (2000, 100_000)], 2),
        ],
    };
    let r = make_half_map(&data, &bounds(), &MapEdits::none(), &cfg());
    assert_eq!(
        r.unwrap_err(),
        MapError::MalformedInput(MalformedKind::BorderNotDeadEnd)
    );
}

/// A raw border node that is a dead-end stays a border in the finished map.
#[test]
fn border_dead_end_kept() {
    let mut end = node(0, 100_000);
    end.intersection_type = IntersectionType::Border;
    let data = RawMap {
        intersections: vec![end, node(1000, 100_000)],
        roads: vec![way(&[(0, 100_000), (1000, 100_000)], 1)],
    };
    let m = make_half_map(&data, &bounds(), &MapEdits::none(), &cfg()).unwrap();
    assert_eq!(m.intersections[0].intersection_type, IntersectionType::Border);
}

/// An override from the edit set replaces the tag-derived lanes wholesale.
#[test]
fn edit_override_applies() {
    let edits = MapEdits {
        overrides: vec![(
            7,
            vec![LaneSpec { lane_type: LaneType::Driving, offset: 0, reverse_pts: false }],
        )],
    };
    let data = RawMap {
        intersections: vec![node(0, 100_000), node(1000, 100_000)],
        roads: vec![way(&[(0, 100_000), (1000, 100_000)], 7)],
    };
    let m = make_half_map(&data, &bounds(), &edits, &cfg()).unwrap();
    assert_eq!(m.lanes.len(), 1);
    assert_eq!(m.lanes[0].lane_type, LaneType::Driving);
}

/// The structural invariants of the finished map, checked on values: no
/// road loops on one intersection, and no intersection is orphaned.
#[test]
fn structural_invariants_hold() {
    let data = RawMap {
        intersections: vec![
            node(0, 100_000),
            node(1000, 100_000),
            node(2000, 100_000),
        ],
        roads: vec![
            way(&[(0, 100_000), (1000, 100_000)], 1),
            way(&[(1000, 100_000), (2000, 100_000)], 2),
        ],
    };
    let m = make_half_map(&data, &bounds(), &MapEdits::none(), &cfg()).unwrap();
    for r in &m.roads {
        assert_ne!(r.src_i, r.dst_i);
    }
    for i in &m.intersections {
        assert!(i.incoming_lanes.len() + i.outgoing_lanes.len() > 0);
    }
}

/// A dead-end where driving traffic flows only one way is recognised as a
/// border node.
#[test]
fn one_way_dead_end_becomes_border() {
    let mut oneway = way(&[(0, 100_000), (1000, 100_000)], 1);
    oneway.osm_tags.push(("oneway".to_owned(), "yes".to_owned()));
    let data = RawMap {
        intersections: vec![node(0, 100_000), node(1000, 100_000)],
        roads: vec![oneway],
    };
    let m = make_half_map(&data, &bounds(), &MapEdits::none(), &cfg()).unwrap();
    // driving traffic only departs the west end and only arrives at the east
    assert_eq!(m.intersections[0].intersection_type, IntersectionType::Border);
    assert_eq!(m.intersections[1].intersection_type, IntersectionType::Border);
}
