//! A debug aid: a set of map objects the viewer has chosen to hide.

use crate::types::{BuildingID, IntersectionID, LaneID, RoadID, TurnID};
use vstd::prelude::*;

verus! {

/// Something on the map a viewer can point at and hide.
#[derive(Clone, Copy, Debug, PartialEq, Eq, Structural, Hash)]
pub enum ID {
    Road(RoadID),
    Lane(LaneID),
    Intersection(IntersectionID),
    Building(BuildingID),
    Turn(TurnID),
}

/// The set of hidden objects. Held as a duplicate-free list.
pub struct Hider {
    items: Vec<ID>,
}

impl Hider {
    /// The objects hidden so far.
    pub closed spec fn hidden(&self) -> Set<ID> {
        self.items@.to_set()
    }

    /// A hider with nothing hidden.
    pub fn new() -> (h: Hider)
        ensures
            h.hidden() == Set::<ID>::empty(),
    {
        let h = Hider { items: Vec::new() };
        proof {
            assert(h.items@.to_set() =~= Set::<ID>::empty());
        }
        h
    }

    /// The object is not hidden.
    pub fn show(&self, id: ID) -> (r: bool)
        ensures
            r == !self.hidden().contains(id),
    {
        proof {
            assert(self.items@.to_set().contains(id) == self.items@.contains(id));
        }
        !self.contains(id)
    }

    fn contains(&self, id: ID) -> (r: bool)
        ensures
            r == self.items@.contains(id),
    {
        let n = self.items.len();
        for j in 0..n
            invariant
                n == self.items@.len(),
                forall|k: int| 0 <= k < j ==> self.items@[k] != id,
        {
            if self.items[j] == id {
                return true;
            }
        }
        false
    }

    /// Hide one more object.
    pub fn conceal(&mut self, id: ID)
        ensures
            final(self).hidden() == old(self).hidden().insert(id),
    {
        if self.contains(id) {
            proof {
                assert(self.items@.to_set() =~= self.items@.to_set().insert(id));
            }
            return;
        }
        let ghost before = self.items@;
        self.items.push(id);
        proof {
            assert(self.items@.drop_last() == before);
            assert(self.items@.to_set() =~= before.to_set().insert(id)) by {
                assert forall|x: ID| self.items@.contains(x) implies before.to_set().insert(
                    id,
                ).contains(x) by {
                    let j = choose|j: int| 0 <= j < self.items@.len() && self.items@[j] == x;
                    if j < before.len() {
                        assert(before[j] == x);
                    }
                }
                assert forall|x: ID| before.to_set().insert(id).contains(x) implies
                    self.items@.contains(x) by {
                    if x == id {
                        assert(self.items@[self.items@.len() - 1] == x);
                    } else {
                        let j = choose|j: int| 0 <= j < before.len() && before[j] == x;
                        assert(self.items@[j] == x);
                    }
                }
            }
        }
    }

    /// Unhide everything.
    pub fn unhide_all(&mut self)
        ensures
            final(self).hidden() == Set::<ID>::empty(),
    {
        self.items = Vec::new();
        proof {
            assert(self.items@.to_set() =~= Set::<ID>::empty());
        }
    }
}

} // verus!
