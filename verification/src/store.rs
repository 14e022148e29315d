use vstd::prelude::*;
use crate::entity::{Team, Unit};

verus! {

/// A stable, generation-checked reference to a unit in the `EntityStore`.
/// A handle stays valid across removals of other entities; after its own
/// entity is removed, lookups with it fail rather than alias whatever
/// later reuses the slot.
#[derive(Debug, PartialEq, Eq, Structural, Hash, Copy, Clone)]
pub struct EntityIndex {
    pub slot: usize,
    pub generation: u64,
}

#[derive(Debug, Copy, Clone)]
pub struct SlotEntry {
    pub generation: u64,
    pub live: bool,
    pub unit: Unit,
}

/// Whether some live unit of the store belongs to the team.
pub open spec fn spec_team_alive(store: EntityStore, team: Team) -> bool {
    exists|h: EntityIndex| #[trigger] store.spec_contains(h)
        && store.spec_unit(h).team == team
}

/// A compacting-free arena of units. Slots are reused only with a fresh
/// generation, so a removed handle can never resolve again; a slot whose
/// generation counter is exhausted is retired rather than reused.
#[derive(Debug)]
pub struct EntityStore {
    pub slots: Vec<SlotEntry>,
}

impl EntityStore {
    /// Whether the handle resolves to a live unit.
    pub open spec fn spec_contains(self, h: EntityIndex) -> bool {
        &&& h.slot < self.slots@.len()
        &&& self.slots@[h.slot as int].generation == h.generation
        &&& self.slots@[h.slot as int].live
    }

    /// The unit a live handle resolves to.
    pub open spec fn spec_unit(self, h: EntityIndex) -> Unit {
        self.slots@[h.slot as int].unit
    }

    /// How many slots the store has ever used; handles index below this.
    pub open spec fn spec_slot_count(self) -> int {
        self.slots@.len() as int
    }

    pub fn new() -> (r: Self)
        ensures
            forall|h: EntityIndex| !r.spec_contains(h),
            r.spec_slot_count() == 0,
    {
        EntityStore { slots: Vec::new() }
    }

    /// Inserts a unit and returns a handle to it. The handle did not
    /// resolve before the call, and every other handle is untouched.
    pub fn insert(&mut self, unit: Unit) -> (h: EntityIndex)
        ensures
            final(self).spec_contains(h),
            final(self).spec_unit(h) == unit,
            !old(self).spec_contains(h),
            forall|g: EntityIndex| g != h
                ==> final(self).spec_contains(g) == old(self).spec_contains(g),
            forall|g: EntityIndex| g != h && old(self).spec_contains(g)
                ==> final(self).spec_unit(g) == old(self).spec_unit(g),
            old(self).spec_slot_count() <= final(self).spec_slot_count(),
    {
        let mut i: usize = 0;
        let len = self.slots.len();
        while i < len
            invariant
                self.slots@ == old(self).slots@,
                len == self.slots@.len(),
                i <= len,
            decreases len - i,
        {
            if !self.slots[i].live && self.slots[i].generation < u64::MAX {
                let generation = self.slots[i].generation;
                let entry = SlotEntry { generation, live: true, unit };
                self.slots[i] = entry;
                let h = EntityIndex { slot: i, generation };
                proof {
                    assert forall|g: EntityIndex| g != h
                        implies self.spec_contains(g) == old(self).spec_contains(g) by {
                        if g.slot < self.slots@.len() && g.slot != h.slot {
                            assert(self.slots@[g.slot as int]
                                == old(self).slots@[g.slot as int]);
                        }
                    }
                }
                return h;
            }
            i = i + 1;
        }
        let generation: u64 = 0;
        self.slots.push(SlotEntry { generation, live: true, unit });
        let h = EntityIndex { slot: len, generation };
        proof {
            assert forall|g: EntityIndex| g != h
                implies self.spec_contains(g) == old(self).spec_contains(g) by {
                if g.slot < len {
                    assert(self.slots@[g.slot as int] == old(self).slots@[g.slot as int]);
                }
            }
        }
        h
    }

    pub fn contains(&self, h: EntityIndex) -> (r: bool)
        ensures
            r == self.spec_contains(h),
    {
        h.slot < self.slots.len() && self.slots[h.slot].generation == h.generation
            && self.slots[h.slot].live
    }

    /// Looks the handle up; fails cleanly when it was removed or never
    /// issued.
    pub fn get(&self, h: EntityIndex) -> (r: Option<Unit>)
        ensures
            r == if self.spec_contains(h) {
                Some(self.spec_unit(h))
            } else {
                None::<Unit>
            },
    {
        if self.contains(h) {
            Some(self.slots[h.slot].unit)
        } else {
            None
        }
    }

    /// Looks two distinct handles up at once. Equal handles are rejected
    /// outright, so a unit can never be paired with itself.
    pub fn get2(&self, a: EntityIndex, b: EntityIndex) -> (r: (Option<Unit>, Option<Unit>))
        ensures
            a == b ==> r.0 is None && r.1 is None,
            a != b ==> r.0 == if self.spec_contains(a) {
                Some(self.spec_unit(a))
            } else {
                None::<Unit>
            },
            a != b ==> r.1 == if self.spec_contains(b) {
                Some(self.spec_unit(b))
            } else {
                None::<Unit>
            },
    {
        if a.slot == b.slot && a.generation == b.generation {
            (None, None)
        } else {
            (self.get(a), self.get(b))
        }
    }

    /// Replaces the unit a live handle resolves to.
    pub fn update_unit(&mut self, h: EntityIndex, unit: Unit)
        requires
            old(self).spec_contains(h),
        ensures
            final(self).spec_contains(h),
            final(self).spec_unit(h) == unit,
            forall|g: EntityIndex| final(self).spec_contains(g) == old(self).spec_contains(g),
            forall|g: EntityIndex| g != h && old(self).spec_contains(g)
                ==> final(self).spec_unit(g) == old(self).spec_unit(g),
            final(self).spec_slot_count() == old(self).spec_slot_count(),
    {
        let mut entry = self.slots[h.slot];
        entry.unit = unit;
        self.slots[h.slot] = entry;
        proof {
            assert forall|g: EntityIndex| self.spec_contains(g)
                == old(self).spec_contains(g) by {
                if g.slot < self.slots@.len() && g.slot != h.slot {
                    assert(self.slots@[g.slot as int] == old(self).slots@[g.slot as int]);
                }
            }
        }
    }

    /// Removes the unit the handle resolves to, returning it; a handle
    /// that does not resolve leaves the store unchanged. The freed slot
    /// only ever comes back under a fresh generation.
    pub fn remove(&mut self, h: EntityIndex) -> (r: Option<Unit>)
        ensures
            old(self).spec_contains(h) ==> {
                &&& r == Some(old(self).spec_unit(h))
                &&& !final(self).spec_contains(h)
            },
            !old(self).spec_contains(h) ==> r is None && *final(self) == *old(self),
            forall|g: EntityIndex| g != h
                ==> final(self).spec_contains(g) == old(self).spec_contains(g),
            forall|g: EntityIndex| g != h && old(self).spec_contains(g)
                ==> final(self).spec_unit(g) == old(self).spec_unit(g),
            final(self).spec_slot_count() == old(self).spec_slot_count(),
    {
        if !self.contains(h) {
            return None;
        }
        let mut entry = self.slots[h.slot];
        let unit = entry.unit;
        entry.live = false;
        if entry.generation < u64::MAX {
            entry.generation = entry.generation + 1;
        }
        self.slots[h.slot] = entry;
        proof {
            assert forall|g: EntityIndex| g != h
                implies self.spec_contains(g) == old(self).spec_contains(g) by {
                if g.slot < self.slots@.len() && g.slot != h.slot {
                    assert(self.slots@[g.slot as int] == old(self).slots@[g.slot as int]);
                }
            }
        }
        Some(unit)
    }

    /// Whether some live unit belongs to the team.
    pub fn team_has_units(&self, team: Team) -> (r: bool)
        ensures
            r == spec_team_alive(*self, team),
    {
        let mut i: usize = 0;
        let len = self.slots.len();
        while i < len
            invariant
                len == self.slots@.len(),
                i <= len,
                forall|j: int| 0 <= j < i
                    ==> !(self.slots@[j].live && self.slots@[j].unit.team == team),
            decreases len - i,
        {
            if self.slots[i].live && self.slots[i].unit.team == team {
                let h = EntityIndex { slot: i, generation: self.slots[i].generation };
                proof {
                    assert(self.spec_contains(h) && self.spec_unit(h).team == team);
                }
                return true;
            }
            i = i + 1;
        }
        proof {
            assert forall|h: EntityIndex| self.spec_contains(h)
                implies self.spec_unit(h).team != team by {
                assert(!(self.slots@[h.slot as int].live
                    && self.slots@[h.slot as int].unit.team == team));
            }
        }
        false
    }

    /// Restores every live unit of the team to its full action points.
    pub fn reset_actions_for_team(&mut self, team: Team)
        ensures
            forall|g: EntityIndex| final(self).spec_contains(g) == old(self).spec_contains(g),
            forall|g: EntityIndex| old(self).spec_contains(g) ==> final(self).spec_unit(g)
                == if old(self).spec_unit(g).team == team {
                    Unit { actions: old(self).spec_unit(g).actions_max, ..old(self).spec_unit(g) }
                } else {
                    old(self).spec_unit(g)
                },
            final(self).spec_slot_count() == old(self).spec_slot_count(),
    {
        let mut i: usize = 0;
        let len = self.slots.len();
        while i < len
            invariant
                len == self.slots@.len(),
                i <= len,
                forall|j: int| 0 <= j < len ==> {
                    &&& self.slots@[j].live == old(self).slots@[j].live
                    &&& self.slots@[j].generation == old(self).slots@[j].generation
                },
                forall|j: int| 0 <= j < i ==> self.slots@[j].unit
                    == if old(self).slots@[j].live && old(self).slots@[j].unit.team == team {
                        Unit { actions: old(self).slots@[j].unit.actions_max,
                            ..old(self).slots@[j].unit }
                    } else {
                        old(self).slots@[j].unit
                    },
                forall|j: int| i <= j < len ==> self.slots@[j].unit == old(self).slots@[j].unit,
            decreases len - i,
        {
            if self.slots[i].live && self.slots[i].unit.team == team {
                let mut entry = self.slots[i];
                entry.unit.actions = entry.unit.actions_max;
                self.slots[i] = entry;
            }
            i = i + 1;
        }
    }

    /// Every live handle with its unit, in slot order; no handle appears
    /// twice.
    pub fn live_units(&self) -> (r: Vec<(EntityIndex, Unit)>)
        ensures
            forall|k: int| 0 <= k < r@.len()
                ==> self.spec_contains(r@[k].0) && self.spec_unit(r@[k].0) == r@[k].1,
            forall|h: EntityIndex| self.spec_contains(h)
                ==> exists|k: int| 0 <= k < r@.len() && r@[k].0 == h,
            forall|k1: int, k2: int| 0 <= k1 < k2 < r@.len() ==> r@[k1].0 != r@[k2].0,
    {
        let mut out: Vec<(EntityIndex, Unit)> = Vec::new();
        let mut i: usize = 0;
        let len = self.slots.len();
        while i < len
            invariant
                len == self.slots@.len(),
                i <= len,
                forall|k: int| 0 <= k < out@.len()
                    ==> self.spec_contains(out@[k].0) && self.spec_unit(out@[k].0) == out@[k].1,
                forall|h: EntityIndex| self.spec_contains(h) && h.slot < i
                    ==> exists|k: int| 0 <= k < out@.len() && out@[k].0 == h,
                forall|k: int| 0 <= k < out@.len() ==> (#[trigger] out@[k].0).slot < i,
                forall|k1: int, k2: int| 0 <= k1 < k2 < out@.len()
                    ==> out@[k1].0 != out@[k2].0,
            decreases len - i,
        {
            if self.slots[i].live {
                let h = EntityIndex { slot: i, generation: self.slots[i].generation };
                let ghost before = out@;
                out.push((h, self.slots[i].unit));
                proof {
                    assert(out@[out@.len() - 1].0 == h);
                    assert forall|g: EntityIndex| self.spec_contains(g) && g.slot < i + 1
                        implies exists|k: int| 0 <= k < out@.len() && out@[k].0 == g by {
                        if g.slot < i {
                            let k = choose|k: int| 0 <= k < before.len() && before[k].0 == g;
                            assert(out@[k].0 == g);
                        } else {
                            assert(g == h);
                            assert(out@[out@.len() - 1].0 == g);
                        }
                    }
                    assert forall|k1: int, k2: int| 0 <= k1 < k2 < out@.len()
                        implies out@[k1].0 != out@[k2].0 by {
                        if k2 == out@.len() - 1 {
                            assert(out@[k1] == before[k1]);
                            assert(out@[k1].0.slot < i);
                        } else {
                            assert(out@[k1] == before[k1]);
                            assert(out@[k2] == before[k2]);
                        }
                    }
                }
            }
            i = i + 1;
        }
        out
    }
}

} // verus!
