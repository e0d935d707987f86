use vstd::prelude::*;
use crate::key::{DatabaseKeyIndex, Id};
use crate::revision::Revision;

verus! {

/// One tracked struct: the query that created it, its place among the
/// structs that query created, and its fields with their stamps.
pub struct TrackedEntry {
    pub creator: DatabaseKeyIndex,
    pub disambiguator: u32,
    pub fields: Vec<u64>,
    pub changed_at: Vec<Revision>,
    /// Set when the creator ran again without creating this struct; reads
    /// of a stale struct fail.
    pub stale: bool,
}

/// The error of a read of a stale tracked struct.
#[derive(Clone, Copy, Debug, PartialEq, Eq, Structural)]
pub struct StaleStruct {
    pub id: Id,
}

/// The storage of the tracked structs. A struct's id depends only on its
/// creator and disambiguator, so a query that runs again with the same
/// inputs gets back the same ids.
pub struct TrackedIngredient {
    /// The ingredient index of field `0`; field `f` is at `first_ingredient + f`.
    pub first_ingredient: usize,
    pub field_count: usize,
    pub entries: Vec<TrackedEntry>,
}

impl TrackedEntry {
    pub open spec fn wf(&self, field_count: nat, current: nat) -> bool {
        &&& self.fields@.len() == field_count
        &&& self.changed_at@.len() == field_count
        &&& forall|f: int| 0 <= f < field_count ==> #[trigger] self.changed_at@[f].number <= current
    }
}

impl TrackedIngredient {
    /// Every entry has `field_count` fields stamped no later than `current`,
    /// and no two entries share a creator and disambiguator.
    pub open spec fn wf(&self, current: nat) -> bool {
        &&& forall|i: int| 0 <= i < self.entries@.len() ==> #[trigger] self.entries@[i].wf(self.field_count as nat, current)
        &&& forall|i: int, j: int| 0 <= i < j < self.entries@.len() ==> !self.entries@[i].same_identity(self.entries@[j])
    }

    pub open spec fn value_of(&self, id: int, field: int) -> u64 {
        self.entries@[id].fields@[field]
    }

    pub open spec fn stamp_of(&self, id: int, field: int) -> nat {
        self.entries@[id].changed_at@[field].number as nat
    }

    pub fn new(first_ingredient: usize, field_count: usize) -> (r: TrackedIngredient)
        ensures
            r.first_ingredient == first_ingredient,
            r.field_count == field_count,
            r.entries@.len() == 0,
            forall|c: nat| r.wf(c),
    {
        TrackedIngredient { first_ingredient, field_count, entries: Vec::new() }
    }

    /// The position of the struct that `creator` made as its
    /// `disambiguator`-th, if there is one.
    pub fn find(&self, creator: DatabaseKeyIndex, disambiguator: u32) -> (r: Option<usize>)
        ensures
            r matches Some(i) ==> i < self.entries@.len() && self.entries@[i as int].creator == creator
                && self.entries@[i as int].disambiguator == disambiguator,
            r is None ==> forall|i: int| 0 <= i < self.entries@.len() ==> !(self.entries@[i].creator == creator
                && self.entries@[i].disambiguator == disambiguator),
    {
        let mut i: usize = 0;
        while i < self.entries.len()
            invariant
                i <= self.entries@.len(),
                forall|j: int| 0 <= j < i ==> !(self.entries@[j].creator == creator
                    && self.entries@[j].disambiguator == disambiguator),
            decreases self.entries@.len() - i,
        {
            if self.entries[i].creator == creator && self.entries[i].disambiguator == disambiguator {
                return Some(i);
            }
            i = i + 1;
        }
        None
    }

    /// Creates the struct that `creator` makes as its `disambiguator`-th, or
    /// updates it where it exists: a field keeps its stamp where its value is
    /// unchanged and is stamped with `current` otherwise.
    pub fn create(&mut self, creator: DatabaseKeyIndex, disambiguator: u32, fields: Vec<u64>, current: Revision) -> (r: Id)
        requires
            old(self).wf(current.number as nat),
            fields@.len() == old(self).field_count,
            old(self).entries@.len() < u32::MAX,
        ensures
            final(self).wf(current.number as nat),
            final(self).field_count == old(self).field_count,
            final(self).first_ingredient == old(self).first_ingredient,
            r < final(self).entries@.len(),
            r <= old(self).entries@.len(),
            final(self).entries@[r as int].creator == creator,
            final(self).entries@[r as int].disambiguator == disambiguator,
            final(self).entries@[r as int].fields@ == fields@,
            !final(self).entries@[r as int].stale,
            forall|i: int| 0 <= i < old(self).entries@.len() && i != r ==> final(self).entries@[i] == old(self).entries@[i],
            r < old(self).entries@.len() ==> final(self).entries@.len() == old(self).entries@.len()
                && old(self).entries@[r as int].creator == creator
                && old(self).entries@[r as int].disambiguator == disambiguator
                && forall|f: int| 0 <= f < fields@.len() ==> #[trigger] final(self).stamp_of(r as int, f) == if fields@[f]
                    == old(self).value_of(r as int, f) {
                    old(self).stamp_of(r as int, f)
                } else {
                    current.number as nat
                },
            r == old(self).entries@.len() ==> final(self).entries@.len() == old(self).entries@.len() + 1
                && (forall|i: int| 0 <= i < old(self).entries@.len() ==> !(old(self).entries@[i].creator == creator
                    && old(self).entries@[i].disambiguator == disambiguator))
                && forall|f: int| 0 <= f < fields@.len() ==> #[trigger] final(self).stamp_of(r as int, f) == current.number,
    {
        match self.find(creator, disambiguator) {
            Some(i) => {
                let mut entry = TrackedEntry {
                    creator,
                    disambiguator,
                    fields: Vec::new(),
                    changed_at: Vec::new(),
                    stale: false,
                };
                self.entries.set_and_swap(i, &mut entry);
                assert(entry == old(self).entries@[i as int]);
                assert(entry.wf(self.field_count as nat, current.number as nat));
                let ghost prev = entry;
                let mut stamps: Vec<Revision> = Vec::new();
                let mut f: usize = 0;
                while f < fields.len()
                    invariant
                        f <= fields@.len(),
                        fields@.len() == prev.fields@.len(),
                        prev.changed_at@.len() == fields@.len(),
                        entry.fields == prev.fields,
                        entry.changed_at == prev.changed_at,
                        stamps@.len() == f,
                        forall|g: int| 0 <= g < f ==> #[trigger] stamps@[g] == if fields@[g] == prev.fields@[g] {
                            prev.changed_at@[g]
                        } else {
                            current
                        },
                    decreases fields@.len() - f,
                {
                    if fields[f] == entry.fields[f] {
                        stamps.push(entry.changed_at[f]);
                    } else {
                        stamps.push(current);
                    }
                    f = f + 1;
                }
                entry.fields = fields;
                entry.changed_at = stamps;
                entry.stale = false;
                self.entries.set_and_swap(i, &mut entry);
                proof {
                    assert forall|a: int| 0 <= a < self.entries@.len() implies #[trigger] self.entries@[a].wf(
                        self.field_count as nat,
                        current.number as nat,
                    ) by {
                        if a != i {
                            assert(old(self).entries@[a].wf(self.field_count as nat, current.number as nat));
                        } else {
                            assert forall|g: int| 0 <= g < self.field_count implies #[trigger] self.entries@[a].changed_at@[g].number
                                <= current.number by {
                                assert(prev.changed_at@[g].number <= current.number);
                            }
                        }
                    }
                    assert forall|a: int, b: int| 0 <= a < b < self.entries@.len() implies !self.entries@[a].same_identity(
                        self.entries@[b],
                    ) by {
                        assert(!old(self).entries@[a].same_identity(old(self).entries@[b]));
                    }
                }
                i as u32
            },
            None => {
                let mut stamps: Vec<Revision> = Vec::new();
                let mut f: usize = 0;
                while f < fields.len()
                    invariant
                        f <= fields@.len(),
                        stamps@.len() == f,
                        forall|g: int| 0 <= g < f ==> #[trigger] stamps@[g] == current,
                    decreases fields@.len() - f,
                {
                    stamps.push(current);
                    f = f + 1;
                }
                let id = self.entries.len() as u32;
                self.entries.push(TrackedEntry { creator, disambiguator, fields, changed_at: stamps, stale: false });
                proof {
                    let n = old(self).entries@.len() as int;
                    assert forall|a: int| 0 <= a < self.entries@.len() implies #[trigger] self.entries@[a].wf(
                        self.field_count as nat,
                        current.number as nat,
                    ) by {
                        if a < n {
                            assert(old(self).entries@[a].wf(self.field_count as nat, current.number as nat));
                        }
                    }
                    assert forall|a: int, b: int| 0 <= a < b < self.entries@.len() implies !self.entries@[a].same_identity(
                        self.entries@[b],
                    ) by {
                        if b < n {
                            assert(!old(self).entries@[a].same_identity(old(self).entries@[b]));
                        }
                    }
                }
                id
            },
        }
    }

    /// `after` is this storage once every struct that `creator` made as its
    /// `produced`-th or later is marked stale.
    pub open spec fn marks_stale(&self, after: TrackedIngredient, creator: DatabaseKeyIndex, produced: u32) -> bool {
        &&& after.first_ingredient == self.first_ingredient
        &&& after.field_count == self.field_count
        &&& after.entries@.len() == self.entries@.len()
        &&& forall|i: int| 0 <= i < self.entries@.len() ==> {
            let (a, b) = (self.entries@[i], #[trigger] after.entries@[i]);
            &&& b.creator == a.creator
            &&& b.disambiguator == a.disambiguator
            &&& b.fields == a.fields
            &&& b.changed_at == a.changed_at
            &&& b.stale == (a.stale || (a.creator == creator && a.disambiguator >= produced))
        }
    }

    /// Marks as stale every struct that `creator` made as its
    /// `produced`-th or later: its latest run created fewer.
    pub fn remove_stale(&mut self, creator: DatabaseKeyIndex, produced: u32, Ghost(current): Ghost<nat>)
        requires
            old(self).wf(current),
        ensures
            final(self).wf(current),
            final(self).field_count == old(self).field_count,
            final(self).first_ingredient == old(self).first_ingredient,
            final(self).entries@.len() == old(self).entries@.len(),
            old(self).marks_stale(*final(self), creator, produced),
    {
        let mut i: usize = 0;
        while i < self.entries.len()
            invariant
                i <= self.entries@.len(),
                self.field_count == old(self).field_count,
                self.first_ingredient == old(self).first_ingredient,
                self.entries@.len() == old(self).entries@.len(),
                forall|j: int| 0 <= j < self.entries@.len() ==> {
                    let (a, b) = (old(self).entries@[j], #[trigger] self.entries@[j]);
                    &&& b.creator == a.creator
                    &&& b.disambiguator == a.disambiguator
                    &&& b.fields == a.fields
                    &&& b.changed_at == a.changed_at
                    &&& b.stale == if j < i {
                        a.stale || (a.creator == creator && a.disambiguator >= produced)
                    } else {
                        a.stale
                    }
                },
            decreases self.entries@.len() - i,
        {
            if self.entries[i].creator == creator && self.entries[i].disambiguator >= produced
                && !self.entries[i].stale {
                let mut entry = TrackedEntry {
                    creator,
                    disambiguator: 0,
                    fields: Vec::new(),
                    changed_at: Vec::new(),
                    stale: true,
                };
                self.entries.set_and_swap(i, &mut entry);
                entry.stale = true;
                self.entries.set_and_swap(i, &mut entry);
            }
            i = i + 1;
        }
        proof {
            assert forall|a: int| 0 <= a < self.entries@.len() implies #[trigger] self.entries@[a].wf(
                self.field_count as nat,
                current,
            ) by {
                assert(old(self).entries@[a].wf(self.field_count as nat, current));
            }
            assert forall|a: int, b: int| 0 <= a < b < self.entries@.len() implies !self.entries@[a].same_identity(
                self.entries@[b],
            ) by {
                assert(!old(self).entries@[a].same_identity(old(self).entries@[b]));
            }
        }
    }

    /// Marks the struct at `id` stale where `creator` made it.
    pub fn mark_stale(&mut self, creator: DatabaseKeyIndex, id: Id)
        ensures
            final(self).first_ingredient == old(self).first_ingredient,
            final(self).field_count == old(self).field_count,
            final(self).entries@.len() == old(self).entries@.len(),
            forall|i: int| 0 <= i < old(self).entries@.len() ==> {
                let (a, b) = (old(self).entries@[i], #[trigger] final(self).entries@[i]);
                &&& b.creator == a.creator
                &&& b.disambiguator == a.disambiguator
                &&& b.fields == a.fields
                &&& b.changed_at == a.changed_at
                &&& b.stale == (a.stale || (i == id && a.creator == creator))
            },
    {
        if (id as usize) < self.entries.len() && self.entries[id as usize].creator == creator {
            let mut entry = TrackedEntry {
                creator,
                disambiguator: 0,
                fields: Vec::new(),
                changed_at: Vec::new(),
                stale: true,
            };
            self.entries.set_and_swap(id as usize, &mut entry);
            entry.stale = true;
            self.entries.set_and_swap(id as usize, &mut entry);
        }
    }

    /// The value of one field of a tracked struct and the revision in which
    /// it last changed.
    pub fn field(&self, id: Id, field: usize) -> (r: (u64, Revision))
        requires
            id < self.entries@.len(),
            field < self.field_count,
            self.entries@[id as int].fields@.len() == self.field_count,
            self.entries@[id as int].changed_at@.len() == self.field_count,
        ensures
            r.0 == self.value_of(id as int, field as int),
            r.1.number == self.stamp_of(id as int, field as int),
    {
        let entry = &self.entries[id as usize];
        (entry.fields[field], entry.changed_at[field])
    }
}

impl TrackedEntry {
    pub open spec fn same_identity(&self, other: TrackedEntry) -> bool {
        self.creator == other.creator && self.disambiguator == other.disambiguator
    }
}

} // verus!
