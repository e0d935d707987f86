use vstd::prelude::*;
use crate::key::Id;
use crate::revision::Revision;

verus! {

/// The identity of an interned value, valid only in the generation it was
/// issued in.
#[derive(Clone, Copy, Debug, PartialEq, Eq, Structural)]
pub struct InternedId {
    pub index: Id,
    pub generation: u32,
}

/// The error of a lookup with an id of an elapsed generation, or one that was
/// never issued.
#[derive(Clone, Copy, Debug, PartialEq, Eq, Structural)]
pub struct StaleId {
    pub id: InternedId,
}

/// A two-way mapping between values and ids; one generation lasts until the
/// next reset.
pub struct InternedIngredient {
    pub values: Vec<u64>,
    pub first_interned_at: Vec<Revision>,
    pub generation: u32,
}

impl InternedIngredient {
    /// The tables have one entry per id, no value twice, and no entry is
    /// stamped after `current`.
    pub open spec fn wf(&self, current: nat) -> bool {
        &&& self.values@.len() == self.first_interned_at@.len()
        &&& self.values@.len() <= u32::MAX
        &&& forall|i: int| 0 <= i < self.first_interned_at@.len()
            ==> #[trigger] self.first_interned_at@[i].number <= current
        &&& forall|i: int, j: int| 0 <= i < j < self.values@.len() ==> self.values@[i] != self.values@[j]
    }

    pub fn new() -> (r: InternedIngredient)
        ensures
            r.values@.len() == 0,
            r.generation == 0,
            forall|c: nat| r.wf(c),
    {
        InternedIngredient { values: Vec::new(), first_interned_at: Vec::new(), generation: 0 }
    }

    /// The id of `value` in this generation, issuing a new one stamped with
    /// `current` when `value` was not interned yet.
    pub fn intern(&mut self, value: u64, current: Revision) -> (r: InternedId)
        requires
            old(self).wf(current.number as nat),
            old(self).values@.len() < u32::MAX,
        ensures
            final(self).wf(current.number as nat),
            final(self).generation == old(self).generation,
            r.generation == old(self).generation,
            r.index < final(self).values@.len(),
            final(self).values@[r.index as int] == value,
            old(self).values@.contains(value) ==> final(self).values@ == old(self).values@
                && final(self).first_interned_at@ == old(self).first_interned_at@,
            !old(self).values@.contains(value) ==> final(self).values@ == old(self).values@.push(value)
                && final(self).first_interned_at@ == old(self).first_interned_at@.push(current),
    {
        let mut i: usize = 0;
        while i < self.values.len()
            invariant
                i <= self.values@.len(),
                self == old(self),
                self.wf(current.number as nat),
                self.values@.len() < u32::MAX,
                forall|j: int| 0 <= j < i ==> self.values@[j] != value,
            decreases self.values@.len() - i,
        {
            if self.values[i] == value {
                return InternedId { index: i as u32, generation: self.generation };
            }
            i = i + 1;
        }
        let index = self.values.len() as u32;
        self.values.push(value);
        self.first_interned_at.push(current);
        InternedId { index, generation: self.generation }
    }

    /// The value behind `id`, or `StaleId` when `id` does not belong to this
    /// generation's table.
    pub fn lookup(&self, id: InternedId) -> (r: Result<u64, StaleId>)
        ensures
            r is Ok <==> id.generation == self.generation && id.index < self.values@.len(),
            r matches Ok(v) ==> v == self.values@[id.index as int],
            r matches Err(e) ==> e.id == id,
    {
        if id.generation == self.generation && (id.index as usize) < self.values.len() {
            Ok(self.values[id.index as usize])
        } else {
            Err(StaleId { id })
        }
    }

    /// The revision at which the entry at `index` was first interned.
    pub fn interned_at(&self, index: Id) -> (r: Revision)
        requires
            self.values@.len() == self.first_interned_at@.len(),
            index < self.values@.len(),
        ensures
            r == self.first_interned_at@[index as int],
    {
        self.first_interned_at[index as usize]
    }

    /// Two ids of one generation that a well-formed table maps to the same
    /// value are the same id.
    pub proof fn lemma_same_value_same_id(&self, current: nat, a: InternedId, b: InternedId)
        requires
            self.wf(current),
            a.generation == self.generation,
            b.generation == self.generation,
            a.index < self.values@.len(),
            b.index < self.values@.len(),
            self.values@[a.index as int] == self.values@[b.index as int],
        ensures
            a == b,
    {
        if a.index < b.index {
            assert(self.values@[a.index as int] != self.values@[b.index as int]);
        } else if b.index < a.index {
            assert(self.values@[b.index as int] != self.values@[a.index as int]);
        }
    }

    /// An id issued before a reset is never equal to one issued after it.
    pub proof fn lemma_reset_separates(before: InternedIngredient, after: InternedIngredient, a: InternedId, b: InternedId)
        requires
            a.generation == before.generation,
            after.generation == before.generation + 1,
            b.generation == after.generation,
        ensures
            a != b,
    {
    }

    /// Starts a new generation: every id issued so far becomes stale.
    pub fn reset(&mut self)
        requires
            old(self).generation < u32::MAX,
        ensures
            final(self).generation == old(self).generation + 1,
            final(self).values@.len() == 0,
            final(self).first_interned_at@.len() == 0,
            forall|c: nat| final(self).wf(c),
    {
        self.values.clear();
        self.first_interned_at.clear();
        self.generation = self.generation + 1;
    }
}

} // verus!
