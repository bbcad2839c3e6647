//! Trimming lane centerlines back to the intersection boundary, so lanes
//! terminate at the coarse polygon's radius instead of overlapping the
//! intersection's interior.

use crate::geometry::{pl_wf, point_at, total_len};
use crate::model::{Intersection, Lane};
use crate::types::LaneID;
use vstd::prelude::*;

verus! {

/// Everything of the lane but its centerline is as it was, and the
/// centerline is still usable.
pub open spec fn lane_body_kept(l0: Lane, l1: Lane) -> bool {
    &&& l1.id == l0.id
    &&& l1.src_i == l0.src_i
    &&& l1.dst_i == l0.dst_i
    &&& l1.lane_type == l0.lane_type
    &&& l1.parent == l0.parent
    &&& l1.probably_broken == l0.probably_broken
    &&& l1.building_paths == l0.building_paths
    &&& l1.bus_stops == l0.bus_stops
    &&& pl_wf(l1.lane_center_pts@)
}

/// The lane after one trim of `radius` off one end: where the old
/// centerline was long enough, the trimmed end now sits exactly `radius`
/// back along the old course; a lane too short to trim is left as it is
/// rather than collapsed.
pub open spec fn trimmed_lane(l0: Lane, l1: Lane, radius: int, at_end: bool) -> bool {
    &&& lane_body_kept(l0, l1)
    &&& if radius < total_len(l0.lane_center_pts@) {
        if at_end {
            l1.lane_center_pts@[0] == l0.lane_center_pts@[0] && l1.lane_center_pts@.last()
                == point_at(l0.lane_center_pts@, total_len(l0.lane_center_pts@) - radius)
        } else {
            l1.lane_center_pts@[0] == point_at(l0.lane_center_pts@, radius)
                && l1.lane_center_pts@.last() == l0.lane_center_pts@.last()
        }
    } else {
        l1.lane_center_pts@ == l0.lane_center_pts@
    }
}

/// Trim every lane incident to one intersection: incoming lanes lose
/// `radius` at their end, outgoing lanes at their start. Lanes not incident
/// to the intersection are untouched.
#[verifier::rlimit(100)]
pub fn trim_lines(lanes: &mut Vec<Lane>, i: &Intersection, radius: u64)
    requires
        forall|j: int| 0 <= j < i.incoming_lanes@.len() ==> {
            let l = (#[trigger] i.incoming_lanes@[j]).0;
            l < old(lanes)@.len() && old(lanes)@[l as int].dst_i == i.id
        },
        forall|j: int| 0 <= j < i.outgoing_lanes@.len() ==> {
            let l = (#[trigger] i.outgoing_lanes@[j]).0;
            l < old(lanes)@.len() && old(lanes)@[l as int].src_i == i.id
        },
        forall|k: int| 0 <= k < old(lanes)@.len() ==> (#[trigger] old(lanes)@[k]).src_i != old(
            lanes,
        )@[k].dst_i,
        crate::model::lanes_ascending(i.incoming_lanes@),
        crate::model::lanes_ascending(i.outgoing_lanes@),
        forall|k: int| 0 <= k < old(lanes)@.len() ==> pl_wf(
            (#[trigger] old(lanes)@[k]).lane_center_pts@,
        ),
    ensures
        final(lanes)@.len() == old(lanes)@.len(),
        forall|k: int| 0 <= k < old(lanes)@.len() && !i.incoming_lanes@.contains(LaneID(
            k as usize,
        )) && !i.outgoing_lanes@.contains(LaneID(k as usize)) ==> #[trigger] final(lanes)@[k]
            == old(lanes)@[k],
        forall|j: int| 0 <= j < i.incoming_lanes@.len() ==> trimmed_lane(
            old(lanes)@[(#[trigger] i.incoming_lanes@[j]).0 as int],
            final(lanes)@[i.incoming_lanes@[j].0 as int],
            radius as int,
            true,
        ),
        forall|j: int| 0 <= j < i.outgoing_lanes@.len() ==> trimmed_lane(
            old(lanes)@[(#[trigger] i.outgoing_lanes@[j]).0 as int],
            final(lanes)@[i.outgoing_lanes@[j].0 as int],
            radius as int,
            false,
        ),
        forall|k: int| 0 <= k < old(lanes)@.len() ==> lane_body_kept(
            old(lanes)@[k],
            #[trigger] final(lanes)@[k],
        ),
{
    let ghost l0 = old(lanes)@;
    let n_in = i.incoming_lanes.len();
    for j in 0..n_in
        invariant
            l0 == old(lanes)@,
            n_in == i.incoming_lanes@.len(),
            lanes@.len() == l0.len(),
            forall|q: int| 0 <= q < i.incoming_lanes@.len() ==> {
                let l = (#[trigger] i.incoming_lanes@[q]).0;
                l < l0.len() && l0[l as int].dst_i == i.id
            },
            crate::model::lanes_ascending(i.incoming_lanes@),
            forall|k: int| 0 <= k < lanes@.len() && !i.incoming_lanes@.subrange(
                0,
                j as int,
            ).contains(LaneID(k as usize)) ==> #[trigger] lanes@[k] == l0[k],
            forall|q: int| 0 <= q < j ==> trimmed_lane(
                l0[(#[trigger] i.incoming_lanes@[q]).0 as int],
                lanes@[i.incoming_lanes@[q].0 as int],
                radius as int,
                true,
            ),
            forall|k: int| 0 <= k < lanes@.len() ==> lane_body_kept(l0[k], #[trigger] lanes@[k]),
    {
        let l = i.incoming_lanes[j].0;
        proof {
            assert(!i.incoming_lanes@.subrange(0, j as int).contains(LaneID(l))) by {
                if i.incoming_lanes@.subrange(0, j as int).contains(LaneID(l)) {
                    let q = choose|q: int|
                        0 <= q < j && i.incoming_lanes@.subrange(0, j as int)[q] == LaneID(l);
                    assert(i.incoming_lanes@[q] == LaneID(l));
                }
            }
            assert(lanes@[l as int] == l0[l as int]);
        }
        let total = lanes[l].lane_center_pts.length();
        if (radius as u128) < total {
            proof {
                crate::geometry::lemma_point_at_zero(l0[l as int].lane_center_pts@);
            }
            let pl = lanes[l].lane_center_pts.trimmed(0, radius as u128);
            let mut rec = lanes.remove(l);
            rec.lane_center_pts = pl;
            lanes.insert(l, rec);
        }
        proof {
            assert forall|k: int|
                0 <= k < lanes@.len() && !i.incoming_lanes@.subrange(0, j as int + 1).contains(
                    LaneID(k as usize),
                ) implies #[trigger] lanes@[k] == l0[k] by {
                assert(k != l as int) by {
                    if k == l as int {
                        assert(i.incoming_lanes@.subrange(0, j as int + 1)[j as int] == LaneID(
                            k as usize,
                        ));
                    }
                }
                assert(!i.incoming_lanes@.subrange(0, j as int).contains(LaneID(k as usize))) by {
                    if i.incoming_lanes@.subrange(0, j as int).contains(LaneID(k as usize)) {
                        let q = choose|q: int|
                            0 <= q < j && i.incoming_lanes@.subrange(0, j as int)[q] == LaneID(
                                k as usize,
                            );
                        assert(i.incoming_lanes@.subrange(0, j as int + 1)[q] == LaneID(
                            k as usize,
                        ));
                    }
                }
            }
            assert forall|q: int| 0 <= q < j + 1 implies trimmed_lane(
                l0[(#[trigger] i.incoming_lanes@[q]).0 as int],
                lanes@[i.incoming_lanes@[q].0 as int],
                radius as int,
                true,
            ) by {
                if q < j {
                    assert(i.incoming_lanes@[q].0 != l) by {
                        assert(i.incoming_lanes@[q].0 < i.incoming_lanes@[j as int].0);
                    }
                }
            }
        }
    }
    let ghost mid = lanes@;
    let n_out = i.outgoing_lanes.len();
    for j in 0..n_out
        invariant
            l0 == old(lanes)@,
            mid.len() == l0.len(),
            n_out == i.outgoing_lanes@.len(),
            lanes@.len() == l0.len(),
            forall|q: int| 0 <= q < i.outgoing_lanes@.len() ==> {
                let l = (#[trigger] i.outgoing_lanes@[q]).0;
                l < l0.len() && l0[l as int].src_i == i.id
            },
            forall|q: int| 0 <= q < i.incoming_lanes@.len() ==> {
                let l = (#[trigger] i.incoming_lanes@[q]).0;
                l < l0.len() && l0[l as int].dst_i == i.id
            },
            forall|k: int| 0 <= k < l0.len() ==> (#[trigger] l0[k]).src_i != l0[k].dst_i,
            crate::model::lanes_ascending(i.outgoing_lanes@),
            forall|k: int| 0 <= k < lanes@.len() && !i.outgoing_lanes@.subrange(
                0,
                j as int,
            ).contains(LaneID(k as usize)) ==> #[trigger] lanes@[k] == mid[k],
            forall|k: int| 0 <= k < l0.len() ==> lane_body_kept(l0[k], #[trigger] mid[k]),
            forall|k: int| 0 <= k < lanes@.len() && !i.incoming_lanes@.contains(LaneID(k as usize))
                && !i.outgoing_lanes@.subrange(0, j as int).contains(LaneID(k as usize)) ==> (
            #[trigger] lanes@[k]) == l0[k],
            forall|q: int| 0 <= q < i.incoming_lanes@.len() ==> trimmed_lane(
                l0[(#[trigger] i.incoming_lanes@[q]).0 as int],
                mid[i.incoming_lanes@[q].0 as int],
                radius as int,
                true,
            ),
            forall|k: int| 0 <= k < l0.len() && (i.incoming_lanes@.contains(LaneID(k as usize))
                || !i.outgoing_lanes@.subrange(0, j as int).contains(LaneID(k as usize))) ==> (
            #[trigger] lanes@[k]) == mid[k],
            forall|q: int| 0 <= q < j ==> trimmed_lane(
                mid[(#[trigger] i.outgoing_lanes@[q]).0 as int],
                lanes@[i.outgoing_lanes@[q].0 as int],
                radius as int,
                false,
            ),
            forall|q: int| 0 <= q < j ==> mid[(#[trigger] i.outgoing_lanes@[q]).0 as int] == l0[
                i.outgoing_lanes@[q].0 as int
            ],
            forall|k: int| 0 <= k < lanes@.len() ==> lane_body_kept(l0[k], #[trigger] lanes@[k]),
    {
        let l = i.outgoing_lanes[j].0;
        proof {
            assert(!i.outgoing_lanes@.subrange(0, j as int).contains(LaneID(l))) by {
                if i.outgoing_lanes@.subrange(0, j as int).contains(LaneID(l)) {
                    let q = choose|q: int|
                        0 <= q < j && i.outgoing_lanes@.subrange(0, j as int)[q] == LaneID(l);
                    assert(i.outgoing_lanes@[q] == LaneID(l));
                }
            }
            assert(lanes@[l as int] == mid[l as int]);
            // a lane departing here cannot also arrive here, so the first
            // pass left it alone
            assert(!i.incoming_lanes@.contains(LaneID(l))) by {
                if i.incoming_lanes@.contains(LaneID(l)) {
                    let q = choose|q: int|
                        0 <= q < i.incoming_lanes@.len() && i.incoming_lanes@[q] == LaneID(l);
                    assert(l0[l as int].dst_i == i.id);
                }
            }
            assert(mid[l as int] == l0[l as int]);
        }
        let total = lanes[l].lane_center_pts.length();
        if (radius as u128) < total {
            proof {
                crate::geometry::lemma_point_at_total(l0[l as int].lane_center_pts@);
            }
            let pl = lanes[l].lane_center_pts.trimmed(radius as u128, 0);
            let mut rec = lanes.remove(l);
            rec.lane_center_pts = pl;
            lanes.insert(l, rec);
        }
        proof {
            assert forall|k: int|
                0 <= k < lanes@.len() && !i.outgoing_lanes@.subrange(0, j as int + 1).contains(
                    LaneID(k as usize),
                ) implies #[trigger] lanes@[k] == mid[k] by {
                assert(k != l as int) by {
                    if k == l as int {
                        assert(i.outgoing_lanes@.subrange(0, j as int + 1)[j as int] == LaneID(
                            k as usize,
                        ));
                    }
                }
                assert(!i.outgoing_lanes@.subrange(0, j as int).contains(LaneID(k as usize))) by {
                    if i.outgoing_lanes@.subrange(0, j as int).contains(LaneID(k as usize)) {
                        let q = choose|q: int|
                            0 <= q < j && i.outgoing_lanes@.subrange(0, j as int)[q] == LaneID(
                                k as usize,
                            );
                        assert(i.outgoing_lanes@.subrange(0, j as int + 1)[q] == LaneID(
                            k as usize,
                        ));
                    }
                }
            }
            assert forall|q: int| 0 <= q < j + 1 implies trimmed_lane(
                mid[(#[trigger] i.outgoing_lanes@[q]).0 as int],
                lanes@[i.outgoing_lanes@[q].0 as int],
                radius as int,
                false,
            ) && mid[i.outgoing_lanes@[q].0 as int] == l0[i.outgoing_lanes@[q].0 as int] by {
                if q < j {
                    assert(i.outgoing_lanes@[q].0 != l) by {
                        assert(i.outgoing_lanes@[q].0 < i.outgoing_lanes@[j as int].0);
                    }
                }
            }
        }
    }
    proof {
        assert forall|k: int|
            0 <= k < l0.len() && !i.incoming_lanes@.contains(LaneID(k as usize))
                && !i.outgoing_lanes@.contains(LaneID(k as usize)) implies #[trigger] lanes@[k]
            == l0[k] by {
            assert(!i.outgoing_lanes@.subrange(0, n_out as int).contains(LaneID(k as usize))) by {
                assert(i.outgoing_lanes@.subrange(0, n_out as int) =~= i.outgoing_lanes@);
            }
        }
        assert forall|j: int| 0 <= j < i.incoming_lanes@.len() implies trimmed_lane(
            l0[(#[trigger] i.incoming_lanes@[j]).0 as int],
            lanes@[i.incoming_lanes@[j].0 as int],
            radius as int,
            true,
        ) by {
            let l = i.incoming_lanes@[j].0;
            assert(lanes@[l as int] == mid[l as int]) by {
                assert(i.incoming_lanes@.contains(LaneID(l)));
            }
        }
        assert forall|j: int| 0 <= j < i.outgoing_lanes@.len() implies trimmed_lane(
            l0[(#[trigger] i.outgoing_lanes@[j]).0 as int],
            lanes@[i.outgoing_lanes@[j].0 as int],
            radius as int,
            false,
        ) by {
            assert(i.outgoing_lanes@.subrange(0, n_out as int)[j] == i.outgoing_lanes@[j]);
        }
    }
}

} // verus!
