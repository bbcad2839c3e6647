//! Checks of the geometry, lane derivation, color classification and
//! debug-hider pieces.

use map_model::colors::{
    classify_delay, classify_percent, osm_rank_to_color, rotating_color, AgentColorScheme, Color,
    ColorScheme, InnerAgentColorScheme, UnzoomedAgent, VehicleType,
};
use map_model::geometry::{
    isqrt, point_at_exec, project, GPSBounds, LonLat, PolyLine, Pt2D,
};
use map_model::hider::{Hider, ID};
use map_model::lanes::{get_lane_specs, LaneSpec};
use map_model::raw::{MapEdits, RawRoad};
use map_model::types::{LaneType, RoadID, TurnPolicy};

fn pt(x: i64, y: i64) -> Pt2D {
    Pt2D { x, y }
}

#[test]
fn isqrt_exact() {
    assert_eq!(isqrt(0), 0);
    assert_eq!(isqrt(15), 3);
    assert_eq!(isqrt(16), 4);
    assert_eq!(isqrt(1_000_000), 1000);
}

#[test]
fn projection_formula() {
    let b = GPSBounds { min_lon: 100, min_lat: 0, max_lon: 10_000, max_lat: 50_000 };
    assert_eq!(project(LonLat { lon: 600, lat: 49_000 }, &b), Some(pt(500, 1000)));
    // west of the box: out of representable range
    assert_eq!(project(LonLat { lon: 50, lat: 49_000 }, &b), None);
    // north of the box
    assert_eq!(project(LonLat { lon: 600, lat: 50_001 }, &b), None);
}

#[test]
fn polyline_length_is_exact() {
    let pl = PolyLine { pts: vec![pt(0, 0), pt(3, 0), pt(3, 4)] };
    assert_eq!(pl.length(), 7);
}

#[test]
fn shift_moves_sideways() {
    let pl = PolyLine { pts: vec![pt(0, 0), pt(100, 0)] };
    let shifted = pl.shift(10).unwrap();
    // a positive shift moves to the right of travel: negative y here
    assert_eq!(shifted.pts, vec![pt(0, -10), pt(100, -10)]);
    // too short for a clean shift of more than half its length
    assert!(pl.shift(60).is_none());
    let blind = pl.shift_blindly(60);
    assert_eq!(blind.pts.len(), 2);
}

#[test]
fn trimming_cuts_both_ends() {
    let pl = PolyLine { pts: vec![pt(0, 0), pt(100, 0)] };
    let t = pl.trimmed(10, 20);
    assert_eq!(t.pts[0], pt(10, 0));
    assert_eq!(*t.pts.last().unwrap(), pt(80, 0));
}

#[test]
fn point_along_polyline() {
    let pts = vec![pt(0, 0), pt(3, 0), pt(3, 4)];
    assert_eq!(point_at_exec(&pts, 0), pt(0, 0));
    assert_eq!(point_at_exec(&pts, 3), pt(3, 0));
    assert_eq!(point_at_exec(&pts, 5), pt(3, 2));
    assert_eq!(point_at_exec(&pts, 7), pt(3, 4));
    // running past the end clamps to the last point
    assert_eq!(point_at_exec(&pts, 99), pt(3, 4));
}

fn tagged(tags: &[(&str, &str)]) -> RawRoad {
    RawRoad {
        points: Vec::new(),
        osm_tags: tags.iter().map(|&(k, v)| (k.to_owned(), v.to_owned())).collect(),
        osm_way_id: 1,
    }
}

#[test]
fn lane_specs_untagged() {
    let specs = get_lane_specs(&tagged(&[]), &MapEdits::none());
    let kinds: Vec<(LaneType, u8, bool)> =
        specs.iter().map(|s| (s.lane_type, s.offset, s.reverse_pts)).collect();
    assert_eq!(
        kinds,
        vec![
            (LaneType::Driving, 0, false),
            (LaneType::Sidewalk, 1, false),
            (LaneType::Driving, 0, true),
            (LaneType::Sidewalk, 1, true),
        ]
    );
}

#[test]
fn lane_specs_oneway_and_counts() {
    let specs = get_lane_specs(&tagged(&[("oneway", "yes"), ("lanes", "2")]), &MapEdits::none());
    let kinds: Vec<(LaneType, u8, bool)> =
        specs.iter().map(|s| (s.lane_type, s.offset, s.reverse_pts)).collect();
    assert_eq!(
        kinds,
        vec![
            (LaneType::Driving, 0, false),
            (LaneType::Driving, 1, false),
            (LaneType::Sidewalk, 2, false),
            (LaneType::Sidewalk, 0, true),
        ]
    );
}

#[test]
fn lane_specs_parking_and_bike() {
    let specs = get_lane_specs(
        &tagged(&[("parking", "yes"), ("cycleway", "lane")]),
        &MapEdits::none(),
    );
    let fwd: Vec<LaneType> =
        specs.iter().filter(|s| !s.reverse_pts).map(|s| s.lane_type).collect();
    assert_eq!(
        fwd,
        vec![LaneType::Driving, LaneType::Parking, LaneType::Biking, LaneType::Sidewalk]
    );
}

#[test]
fn edit_override_wins() {
    let edits = MapEdits {
        overrides: vec![(
            1,
            vec![LaneSpec { lane_type: LaneType::Bus, offset: 0, reverse_pts: false }],
        )],
    };
    let specs = get_lane_specs(&tagged(&[("lanes", "4")]), &edits);
    assert_eq!(specs.len(), 1);
    assert_eq!(specs[0].lane_type, LaneType::Bus);
}

#[test]
fn turn_policy_standard() {
    let p = TurnPolicy::standard();
    assert!(p.allows(LaneType::Driving, LaneType::Driving));
    assert!(p.allows(LaneType::Bus, LaneType::Driving));
    assert!(!p.allows(LaneType::Driving, LaneType::Sidewalk));
    assert!(!p.allows(LaneType::Parking, LaneType::Parking));
}

#[test]
fn hider_hides_and_clears() {
    let mut h = Hider::new();
    let id = ID::Road(RoadID(3));
    assert!(h.show(id));
    h.conceal(id);
    assert!(!h.show(id));
    assert!(h.show(ID::Road(RoadID(4))));
    h.unhide_all();
    assert!(h.show(id));
}

#[test]
fn delay_categories() {
    assert_eq!(classify_delay(60), "<= 1 minute");
    assert_eq!(classify_delay(61), "<= 5 minutes");
    assert_eq!(classify_delay(300), "<= 5 minutes");
    assert_eq!(classify_delay(301), "> 5 minutes");
}

#[test]
fn percent_categories() {
    assert_eq!(classify_percent(50), "<= 10%");
    assert_eq!(classify_percent(149), "<= 10%");
    assert_eq!(classify_percent(150), "<= 20%");
    assert_eq!(classify_percent(860), "<= 90%");
    assert_eq!(classify_percent(901), "> 90%");
}

#[test]
fn rank_colors_default() {
    let cs = ColorScheme::plain();
    assert_eq!(osm_rank_to_color(&cs, 20), Color::rgb(232, 146, 162));
    assert_eq!(osm_rank_to_color(&cs, 10), Color::rgb(255, 199, 62));
    assert_eq!(osm_rank_to_color(&cs, 0), Color::rgb(255, 255, 255));
}

#[test]
fn rank_colors_respect_overrides() {
    let cs = ColorScheme {
        overrides: vec![("unzoomed highway road".to_owned(), Color::rgb(1, 2, 3))],
    };
    assert_eq!(osm_rank_to_color(&cs, 20), Color::rgb(1, 2, 3));
    assert_eq!(osm_rank_to_color(&cs, 0), Color::rgb(255, 255, 255));
}

fn cyclist() -> UnzoomedAgent {
    UnzoomedAgent {
        vehicle_type: Some(VehicleType::Bike),
        time_spent_blocked: 0,
        trip_time_so_far: 0,
        percent_dist_crossed: 0,
    }
}

#[test]
fn agent_scheme_rows_and_colors() {
    let cs = ColorScheme::plain();
    let acs = AgentColorScheme::new(InnerAgentColorScheme::VehicleTypes, &cs);
    assert_eq!(acs.title, "vehicle types");
    assert_eq!(acs.rows.len(), 4);
    assert_eq!(acs.rows[1].0, "bike");
    assert_eq!(acs.color(&cyclist()), Some(Color::rgb(0, 255, 0).alpha(128)));
}

#[test]
fn agent_scheme_toggle() {
    let cs = ColorScheme::plain();
    let mut acs = AgentColorScheme::new(InnerAgentColorScheme::VehicleTypes, &cs);
    acs.toggle("bike".to_owned());
    assert_eq!(acs.color(&cyclist()), None);
    acs.toggle("bike".to_owned());
    assert_eq!(acs.color(&cyclist()), Some(Color::rgb(0, 255, 0).alpha(128)));
}

#[test]
fn all_schemes_listed() {
    let cs = ColorScheme::plain();
    let all = AgentColorScheme::all(&cs);
    assert_eq!(all.len(), 4);
    assert_eq!(all[0].1, "vehicle types");
    assert_eq!(all[3].1, "distance crossed to goal so far");
}

#[test]
fn distance_scheme_uses_rotating_palette() {
    let cs = ColorScheme::plain();
    let acs = AgentColorScheme::new(InnerAgentColorScheme::DistanceCrossedSoFar, &cs);
    assert_eq!(acs.rows.len(), 10);
    for (j, row) in acs.rows.iter().enumerate() {
        assert_eq!(row.1, rotating_color(j));
    }
    let mut agent = cyclist();
    agent.percent_dist_crossed = 450;
    assert_eq!(acs.color(&agent), Some(rotating_color(4)));
}
