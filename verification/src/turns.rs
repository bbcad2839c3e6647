//! Enumerating the legal lane-to-lane movements at each intersection.
//!
//! Determinism matters here: the turn list must be a pure function of the
//! identifier order, so downstream consumers iterate it stably. The
//! generator therefore emits turns in strictly ascending composite-identity
//! order, which also makes the set provably free of duplicates.

use crate::model::{lanes_ascending, turn_lt, Intersection, Lane, Turn};
use crate::types::{IntersectionID, LaneID, TurnID, TurnPolicy};
use vstd::prelude::*;

verus! {

/// Some turn in the run carries this identity.
pub open spec fn contains_turn(ts: Seq<Turn>, tid: TurnID) -> bool {
    exists|j: int| 0 <= j < ts.len() && (#[trigger] ts[j]).id == tid
}

/// Every turn names its intersection, a lane that arrives, a lane that
/// departs, a pair the policy allows, and the movement's true endpoints.
pub open spec fn turns_sound(
    ts: Seq<Turn>,
    i: Intersection,
    ls: Seq<Lane>,
    policy: &TurnPolicy,
) -> bool {
    forall|p: int| 0 <= p < ts.len() ==> {
        let t = #[trigger] ts[p];
        &&& t.id.parent == i.id
        &&& i.incoming_lanes@.contains(t.id.src)
        &&& i.outgoing_lanes@.contains(t.id.dst)
        &&& t.id.src.0 < ls.len()
        &&& t.id.dst.0 < ls.len()
        &&& policy.spec_allows(ls[t.id.src.0 as int].lane_type, ls[t.id.dst.0 as int].lane_type)
        &&& t.line_start == ls[t.id.src.0 as int].lane_center_pts@.last()
        &&& t.line_end == ls[t.id.dst.0 as int].lane_center_pts@[0]
    }
}

/// Every pair the policy allows is present.
pub open spec fn turns_complete(
    ts: Seq<Turn>,
    i: Intersection,
    ls: Seq<Lane>,
    policy: &TurnPolicy,
) -> bool {
    forall|a: int, b: int|
        0 <= a < i.incoming_lanes@.len() && 0 <= b < i.outgoing_lanes@.len()
            && policy.spec_allows(
            ls[#[trigger] i.incoming_lanes@[a].0 as int].lane_type,
            ls[#[trigger] i.outgoing_lanes@[b].0 as int].lane_type,
        ) ==> contains_turn(
            ts,
            TurnID { parent: i.id, src: i.incoming_lanes@[a], dst: i.outgoing_lanes@[b] },
        )
}

/// Completeness for the rows already enumerated: all pairs with a source
/// before `ji`, plus those with source `ji` and a destination before `jo`.
spec fn complete_below(
    ts: Seq<Turn>,
    i: Intersection,
    ls: Seq<Lane>,
    policy: &TurnPolicy,
    ji: int,
    jo: int,
) -> bool {
    forall|a: int, b: int|
        0 <= a < i.incoming_lanes@.len() && 0 <= b < i.outgoing_lanes@.len() && (a < ji || (a
            == ji && b < jo)) && policy.spec_allows(
            ls[#[trigger] i.incoming_lanes@[a].0 as int].lane_type,
            ls[#[trigger] i.outgoing_lanes@[b].0 as int].lane_type,
        ) ==> contains_turn(
            ts,
            TurnID { parent: i.id, src: i.incoming_lanes@[a], dst: i.outgoing_lanes@[b] },
        )
}

/// Everything emitted so far sits strictly below the enumeration position
/// `(ji, jo)`.
spec fn below_pair(ts: Seq<Turn>, i: Intersection, ji: int, jo: int) -> bool {
    forall|p: int| 0 <= p < ts.len() ==> {
        let tid = (#[trigger] ts[p]).id;
        ||| tid.src.0 < i.incoming_lanes@[ji].0
        ||| (tid.src == i.incoming_lanes@[ji] && (jo < i.outgoing_lanes@.len() ==> tid.dst.0
            < i.outgoing_lanes@[jo].0))
    }
}

/// The turns of one intersection: one per (incoming, outgoing) pair the
/// policy allows, in strictly ascending identity order.
#[verifier::rlimit(100)]
pub fn make_turns_for(i: &Intersection, lanes: &Vec<Lane>, policy: &TurnPolicy) -> (ts: Vec<Turn>)
    requires
        lanes_ascending(i.incoming_lanes@),
        lanes_ascending(i.outgoing_lanes@),
        forall|j: int| 0 <= j < i.incoming_lanes@.len() ==> (#[trigger] i.incoming_lanes@[j]).0
            < lanes@.len(),
        forall|j: int| 0 <= j < i.outgoing_lanes@.len() ==> (#[trigger] i.outgoing_lanes@[j]).0
            < lanes@.len(),
        forall|k: int| 0 <= k < lanes@.len() ==> (#[trigger] lanes@[k]).lane_center_pts@.len()
            >= 1,
    ensures
        forall|j: int, k: int| 0 <= j < k < ts@.len() ==> turn_lt(
            (#[trigger] ts@[j]).id,
            (#[trigger] ts@[k]).id,
        ),
        turns_sound(ts@, *i, lanes@, policy),
        turns_complete(ts@, *i, lanes@, policy),
{
    let ghost inc = i.incoming_lanes@;
    let ghost out = i.outgoing_lanes@;
    let mut ts: Vec<Turn> = Vec::new();
    let n_in = i.incoming_lanes.len();
    let n_out = i.outgoing_lanes.len();
    for ji in 0..n_in
        invariant
            inc == i.incoming_lanes@,
            out == i.outgoing_lanes@,
            n_in == inc.len(),
            n_out == out.len(),
            lanes_ascending(inc),
            lanes_ascending(out),
            forall|j: int| 0 <= j < inc.len() ==> (#[trigger] inc[j]).0 < lanes@.len(),
            forall|j: int| 0 <= j < out.len() ==> (#[trigger] out[j]).0 < lanes@.len(),
            forall|k: int| 0 <= k < lanes@.len() ==> (#[trigger] lanes@[k]).lane_center_pts@.len()
                >= 1,
            forall|j: int, k: int| 0 <= j < k < ts@.len() ==> turn_lt(
                (#[trigger] ts@[j]).id,
                (#[trigger] ts@[k]).id,
            ),
            turns_sound(ts@, *i, lanes@, policy),
            complete_below(ts@, *i, lanes@, policy, ji as int, 0),
            ji < n_in ==> forall|p: int| 0 <= p < ts@.len() ==> (#[trigger] ts@[p]).id.src.0
                < inc[ji as int].0,
    {
        let src = i.incoming_lanes[ji];
        for jo in 0..n_out
            invariant
                inc == i.incoming_lanes@,
                out == i.outgoing_lanes@,
                n_in == inc.len(),
                n_out == out.len(),
                0 <= ji < inc.len(),
                src == inc[ji as int],
                lanes_ascending(inc),
                lanes_ascending(out),
                forall|j: int| 0 <= j < inc.len() ==> (#[trigger] inc[j]).0 < lanes@.len(),
                forall|j: int| 0 <= j < out.len() ==> (#[trigger] out[j]).0 < lanes@.len(),
                forall|k: int| 0 <= k < lanes@.len() ==> (
                #[trigger] lanes@[k]).lane_center_pts@.len() >= 1,
                forall|j: int, k: int| 0 <= j < k < ts@.len() ==> turn_lt(
                    (#[trigger] ts@[j]).id,
                    (#[trigger] ts@[k]).id,
                ),
                turns_sound(ts@, *i, lanes@, policy),
                complete_below(ts@, *i, lanes@, policy, ji as int, jo as int),
                below_pair(ts@, *i, ji as int, jo as int),
        {
            let dst = i.outgoing_lanes[jo];
            let src_lane = &lanes[src.0];
            let dst_lane = &lanes[dst.0];
            let ghost ts0 = ts@;
            if policy.allows(src_lane.lane_type, dst_lane.lane_type) {
                let tid = TurnID { parent: i.id, src, dst };
                let t = Turn {
                    id: tid,
                    line_start: src_lane.lane_center_pts.last_pt(),
                    line_end: dst_lane.lane_center_pts.first_pt(),
                };
                ts.push(t);
                proof {
                    assert(inc.contains(src)) by {
                        assert(inc[ji as int] == src);
                    }
                    assert(out.contains(dst)) by {
                        assert(out[jo as int] == dst);
                    }
                    // the new turn follows everything already emitted
                    assert forall|j: int, k: int| 0 <= j < k < ts@.len() implies turn_lt(
                        (#[trigger] ts@[j]).id,
                        (#[trigger] ts@[k]).id,
                    ) by {
                        if k == ts@.len() - 1 {
                            assert(ts@[j] == ts0[j]);
                        }
                    }
                    assert forall|a: int, b: int|
                        0 <= a < inc.len() && 0 <= b < out.len() && (a < ji as int || (a
                            == ji as int && b < jo as int + 1)) && policy.spec_allows(
                            lanes@[#[trigger] inc[a].0 as int].lane_type,
                            lanes@[#[trigger] out[b].0 as int].lane_type,
                        ) implies contains_turn(
                        ts@,
                        TurnID { parent: i.id, src: inc[a], dst: out[b] },
                    ) by {
                        if a < ji as int || b < jo as int {
                            let tid2 = TurnID { parent: i.id, src: inc[a], dst: out[b] };
                            assert(contains_turn(ts0, tid2));
                            let j = choose|j: int|
                                0 <= j < ts0.len() && (#[trigger] ts0[j]).id == tid2;
                            assert(ts@[j].id == tid2);
                        } else {
                            assert(ts@[ts@.len() - 1].id == (TurnID {
                                parent: i.id,
                                src: inc[a],
                                dst: out[b],
                            }));
                        }
                    }
                }
            } else {
                proof {
                    assert forall|a: int, b: int|
                        0 <= a < inc.len() && 0 <= b < out.len() && (a < ji as int || (a
                            == ji as int && b < jo as int + 1)) && policy.spec_allows(
                            lanes@[#[trigger] inc[a].0 as int].lane_type,
                            lanes@[#[trigger] out[b].0 as int].lane_type,
                        ) implies contains_turn(
                        ts@,
                        TurnID { parent: i.id, src: inc[a], dst: out[b] },
                    ) by {
                        assert(a < ji as int || b < jo as int);
                    }
                }
            }
        }
        proof {
            if ji as int + 1 < n_in {
                assert forall|p: int| 0 <= p < ts@.len() implies (#[trigger] ts@[p]).id.src.0
                    < inc[ji as int + 1].0 by {
                    let tid = ts@[p].id;
                    assert(tid.src.0 < inc[ji as int].0 || tid.src == inc[ji as int]);
                    assert(inc[ji as int].0 < inc[ji as int + 1].0);
                }
            }
        }
    }
    proof {
        assert(complete_below(ts@, *i, lanes@, policy, n_in as int, 0));
    }
    ts
}

} // verus!
