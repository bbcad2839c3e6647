//! Deriving the ordered lane specifications of a way from its tags, with
//! the edit set's overrides applied.

use crate::raw::{edits_wf, spec_override, MapEdits, RawRoad};
use crate::types::{LaneType, MAX_LANES_PER_ROAD, MAX_LANE_OFFSET};
use vstd::prelude::*;

verus! {

/// One lane to create for a way: its type, its lateral position (0 is
/// innermost) and whether it runs against the way's stored direction.
#[derive(Clone, Copy, Debug, PartialEq, Eq, Structural)]
pub struct LaneSpec {
    pub lane_type: LaneType,
    pub offset: u8,
    pub reverse_pts: bool,
}

/// The value of the first tag named `key`, scanning from position `i`.
pub open spec fn tag_from(tags: Seq<(String, String)>, key: Seq<char>, i: int) -> Option<Seq<char>>
    decreases tags.len() - i,
{
    if i < 0 || i >= tags.len() {
        None
    } else if tags[i].0@ == key {
        Some(tags[i].1@)
    } else {
        tag_from(tags, key, i + 1)
    }
}

/// The value of the first tag named `key`, if any.
pub open spec fn spec_tag(tags: Seq<(String, String)>, key: Seq<char>) -> Option<Seq<char>> {
    tag_from(tags, key, 0)
}

/// The way carries tag `key` with exactly the value `val`.
pub open spec fn tag_is(tags: Seq<(String, String)>, key: Seq<char>, val: Seq<char>) -> bool {
    spec_tag(tags, key) == Some(val)
}

/// Look up a tag by key.
pub fn get_tag<'a>(tags: &'a Vec<(String, String)>, key: &String) -> (r: Option<&'a String>)
    ensures
        r is Some <==> spec_tag(tags@, key@) is Some,
        r is Some ==> Some(r->Some_0@) == spec_tag(tags@, key@),
{
    let n = tags.len();
    for i in 0..n
        invariant
            n == tags@.len(),
            spec_tag(tags@, key@) == tag_from(tags@, key@, i as int),
    {
        if tags[i].0.eq(key) {
            return Some(&tags[i].1);
        }
    }
    None
}

/// The way carries tag `key` with exactly the value `val`.
pub fn tag_equals(tags: &Vec<(String, String)>, key: &String, val: &String) -> (r: bool)
    ensures
        r == tag_is(tags@, key@, val@),
{
    match get_tag(tags, key) {
        Some(v) => v.eq(val),
        None => false,
    }
}

/// How many driving lanes each direction of the way carries.
pub open spec fn spec_driving_count(tags: Seq<(String, String)>) -> int {
    if tag_is(tags, "lanes"@, "2"@) {
        2
    } else if tag_is(tags, "lanes"@, "3"@) {
        3
    } else if tag_is(tags, "lanes"@, "4"@) {
        4
    } else {
        1
    }
}

/// The lanes of one side of the way, innermost first: its driving lanes,
/// then a parking lane where tagged, a bike lane where tagged, and always a
/// sidewalk outermost.
pub open spec fn side_specs(tags: Seq<(String, String)>, rev: bool) -> Seq<LaneSpec> {
    let d = Seq::new(
        spec_driving_count(tags) as nat,
        |i: int| LaneSpec { lane_type: LaneType::Driving, offset: i as u8, reverse_pts: rev },
    );
    let d2 = if tag_is(tags, "parking"@, "yes"@) || tag_is(tags, "parking"@, "both"@) {
        d.push(LaneSpec { lane_type: LaneType::Parking, offset: d.len() as u8, reverse_pts: rev })
    } else {
        d
    };
    let d3 = if tag_is(tags, "cycleway"@, "lane"@) {
        d2.push(
            LaneSpec { lane_type: LaneType::Biking, offset: d2.len() as u8, reverse_pts: rev },
        )
    } else {
        d2
    };
    d3.push(LaneSpec { lane_type: LaneType::Sidewalk, offset: d3.len() as u8, reverse_pts: rev })
}

/// All lanes the way's tags call for: the forward side, then the backward
/// side — only a sidewalk there when the way is oneway.
pub open spec fn spec_lane_specs(tags: Seq<(String, String)>) -> Seq<LaneSpec> {
    let fwd = side_specs(tags, false);
    if tag_is(tags, "oneway"@, "yes"@) {
        fwd.push(LaneSpec { lane_type: LaneType::Sidewalk, offset: 0, reverse_pts: true })
    } else {
        fwd + side_specs(tags, true)
    }
}

/// The lane specifications of a way: its override when the edit set has a
/// non-empty one, else what its tags call for.
pub open spec fn spec_specs_for(r: &RawRoad, edits: &MapEdits) -> Seq<LaneSpec> {
    match spec_override(edits, r.osm_way_id) {
        Some(s) => if s.len() > 0 {
            s
        } else {
            spec_lane_specs(r.osm_tags@)
        },
        None => spec_lane_specs(r.osm_tags@),
    }
}

/// Every lane list the pipeline works with is non-empty, bounded, and keeps
/// its offsets within range.
pub open spec fn specs_wf(s: Seq<LaneSpec>) -> bool {
    &&& 1 <= s.len() <= MAX_LANES_PER_ROAD
    &&& forall|i: int| 0 <= i < s.len() ==> (#[trigger] s[i]).offset < MAX_LANE_OFFSET
}

/// One side's derived lanes are usable: between two and seven of them, all
/// offsets small.
pub proof fn lemma_side_specs_wf(tags: Seq<(String, String)>, rev: bool)
    ensures
        2 <= side_specs(tags, rev).len() <= 7,
        forall|i: int| 0 <= i < side_specs(tags, rev).len() ==> (#[trigger] side_specs(
            tags,
            rev,
        )[i]).offset < MAX_LANE_OFFSET,
        forall|i: int| 0 <= i < side_specs(tags, rev).len() ==> (#[trigger] side_specs(
            tags,
            rev,
        )[i]).reverse_pts == rev,
{
    let s = side_specs(tags, rev);
    let n = spec_driving_count(tags);
    assert(1 <= n <= 4);
    assert forall|i: int| 0 <= i < s.len() implies (#[trigger] s[i]).offset < MAX_LANE_OFFSET
        && s[i].reverse_pts == rev by {
        assert(s[i].offset <= 6);
    }
}

/// A way's derived lane list is usable.
pub proof fn lemma_lane_specs_wf(tags: Seq<(String, String)>)
    ensures
        specs_wf(spec_lane_specs(tags)),
{
    lemma_side_specs_wf(tags, false);
    lemma_side_specs_wf(tags, true);
    let s = spec_lane_specs(tags);
    let fwd = side_specs(tags, false);
    if tag_is(tags, "oneway"@, "yes"@) {
        assert(forall|i: int| 0 <= i < s.len() ==> (#[trigger] s[i]).offset < MAX_LANE_OFFSET)
            by {
            assert forall|i: int| 0 <= i < s.len() implies (#[trigger] s[i]).offset
                < MAX_LANE_OFFSET by {
                if i < fwd.len() {
                    assert(s[i] == fwd[i]);
                }
            }
        }
    } else {
        let bwd = side_specs(tags, true);
        assert forall|i: int| 0 <= i < s.len() implies (#[trigger] s[i]).offset
            < MAX_LANE_OFFSET by {
            if i < fwd.len() {
                assert(s[i] == fwd[i]);
            } else {
                assert(s[i] == bwd[i - fwd.len()]);
            }
        }
    }
}

/// Append one side's derived lanes.
fn push_side(out: &mut Vec<LaneSpec>, tags: &Vec<(String, String)>, rev: bool)
    ensures
        final(out)@ == old(out)@ + side_specs(tags@, rev),
{
    let ghost base = out@;
    let lanes_key = "lanes".to_owned();
    let n: usize = if tag_equals(tags, &lanes_key, &"2".to_owned()) {
        2
    } else if tag_equals(tags, &lanes_key, &"3".to_owned()) {
        3
    } else if tag_equals(tags, &lanes_key, &"4".to_owned()) {
        4
    } else {
        1
    };
    proof {
        assert(n == spec_driving_count(tags@));
    }
    let mut k: usize = 0;
    while k < n
        invariant
            0 <= k <= n <= 4,
            out@.len() == base.len() + k,
            out@ =~= base + Seq::new(
                k as nat,
                |i: int| LaneSpec {
                    lane_type: LaneType::Driving,
                    offset: i as u8,
                    reverse_pts: rev,
                },
            ),
        decreases n - k,
    {
        out.push(LaneSpec { lane_type: LaneType::Driving, offset: k as u8, reverse_pts: rev });
        k = k + 1;
        proof {
            assert(out@ =~= base + Seq::new(
                k as nat,
                |i: int| LaneSpec {
                    lane_type: LaneType::Driving,
                    offset: i as u8,
                    reverse_pts: rev,
                },
            ));
        }
    }
    let mut count: u8 = n as u8;
    let parking_key = "parking".to_owned();
    if tag_equals(tags, &parking_key, &"yes".to_owned()) || tag_equals(
        tags,
        &parking_key,
        &"both".to_owned(),
    ) {
        out.push(LaneSpec { lane_type: LaneType::Parking, offset: count, reverse_pts: rev });
        count = count + 1;
    }
    if tag_equals(tags, &"cycleway".to_owned(), &"lane".to_owned()) {
        out.push(LaneSpec { lane_type: LaneType::Biking, offset: count, reverse_pts: rev });
        count = count + 1;
    }
    out.push(LaneSpec { lane_type: LaneType::Sidewalk, offset: count, reverse_pts: rev });
    proof {
        assert(out@ =~= base + side_specs(tags@, rev));
    }
}

/// The ordered lane specifications of a way. The edit set's override,
/// where a non-empty one exists, replaces the tag-derived list wholesale.
pub fn get_lane_specs(r: &RawRoad, edits: &MapEdits) -> (v: Vec<LaneSpec>)
    requires
        edits_wf(edits),
    ensures
        v@ == spec_specs_for(r, edits),
        specs_wf(v@),
{
    match edits.override_for(r.osm_way_id) {
        Some(list) if list.len() > 0 => {
            let mut out: Vec<LaneSpec> = Vec::new();
            let n = list.len();
            for i in 0..n
                invariant
                    n == list@.len(),
                    out@ =~= list@.subrange(0, i as int),
            {
                out.push(list[i]);
            }
            proof {
                assert(out@ =~= list@);
                crate::raw::lemma_override_wf(edits, r.osm_way_id, 0);
            }
            out
        },
        _ => {
            let mut out: Vec<LaneSpec> = Vec::new();
            push_side(&mut out, &r.osm_tags, false);
            if tag_equals(&r.osm_tags, &"oneway".to_owned(), &"yes".to_owned()) {
                out.push(
                    LaneSpec { lane_type: LaneType::Sidewalk, offset: 0, reverse_pts: true },
                );
            } else {
                push_side(&mut out, &r.osm_tags, true);
            }
            proof {
                assert(out@ =~= spec_lane_specs(r.osm_tags@));
                lemma_lane_specs_wf(r.osm_tags@);
            }
            out
        },
    }
}

} // verus!
