use vstd::prelude::*;
use crate::key::Id;
use crate::revision::Revision;

verus! {

/// One input: its field values and, for each field, the revision of its
/// last write.
pub struct InputRow {
    pub fields: Vec<u64>,
    pub changed_at: Vec<Revision>,
}

/// The storage of the inputs: every input has the same number of fields, and
/// each field keeps its own revision stamp.
pub struct InputIngredient {
    pub field_count: usize,
    pub rows: Vec<InputRow>,
}

impl InputRow {
    pub open spec fn wf(&self, field_count: nat, current: nat) -> bool {
        &&& self.fields@.len() == field_count
        &&& self.changed_at@.len() == field_count
        &&& forall|f: int| 0 <= f < field_count ==> #[trigger] self.changed_at@[f].number <= current
    }
}

impl InputIngredient {
    /// Every row has `field_count` fields, none stamped after `current`.
    pub open spec fn wf(&self, current: nat) -> bool {
        forall|i: int| 0 <= i < self.rows@.len() ==> #[trigger] self.rows@[i].wf(self.field_count as nat, current)
    }

    /// Every row has `field_count` fields.
    pub open spec fn shaped(&self) -> bool {
        forall|i: int| 0 <= i < self.rows@.len() ==> {
            &&& (#[trigger] self.rows@[i]).fields@.len() == self.field_count
            &&& self.rows@[i].changed_at@.len() == self.field_count
        }
    }

    pub proof fn lemma_wf_shaped(&self, current: nat)
        requires
            self.wf(current),
        ensures
            self.shaped(),
    {
        assert forall|i: int| 0 <= i < self.rows@.len() implies {
            &&& (#[trigger] self.rows@[i]).fields@.len() == self.field_count
            &&& self.rows@[i].changed_at@.len() == self.field_count
        } by {
            assert(self.rows@[i].wf(self.field_count as nat, current));
        }
    }

    pub open spec fn count(&self) -> nat {
        self.rows@.len()
    }

    pub open spec fn value_of(&self, id: int, field: int) -> u64 {
        self.rows@[id].fields@[field]
    }

    pub open spec fn stamp_of(&self, id: int, field: int) -> nat {
        self.rows@[id].changed_at@[field].number as nat
    }

    pub fn new(field_count: usize) -> (r: InputIngredient)
        ensures
            r.field_count == field_count,
            r.count() == 0,
            forall|c: nat| r.wf(c),
    {
        InputIngredient { field_count, rows: Vec::new() }
    }

    /// Adds an input with the given field values, every field stamped with
    /// `current`, and returns its id.
    pub fn allocate(&mut self, fields: Vec<u64>, current: Revision) -> (r: Id)
        requires
            old(self).wf(current.number as nat),
            fields@.len() == old(self).field_count,
            old(self).count() < u32::MAX,
        ensures
            final(self).wf(current.number as nat),
            final(self).field_count == old(self).field_count,
            r == old(self).count(),
            final(self).rows@.len() == old(self).rows@.len() + 1,
            forall|i: int| 0 <= i < old(self).rows@.len() ==> final(self).rows@[i] == old(self).rows@[i],
            final(self).rows@[r as int].fields@ == fields@,
            forall|f: int| 0 <= f < fields@.len() ==> #[trigger] final(self).stamp_of(r as int, f) == current.number,
    {
        let mut changed_at: Vec<Revision> = Vec::new();
        let mut i: usize = 0;
        while i < fields.len()
            invariant
                i <= fields@.len(),
                changed_at@.len() == i,
                forall|f: int| 0 <= f < i ==> #[trigger] changed_at@[f] == current,
            decreases fields@.len() - i,
        {
            changed_at.push(current);
            i = i + 1;
        }
        let id = self.rows.len() as u32;
        self.rows.push(InputRow { fields, changed_at });
        proof {
            assert forall|i: int| 0 <= i < self.rows@.len() implies #[trigger] self.rows@[i].wf(
                self.field_count as nat,
                current.number as nat,
            ) by {
                if i < old(self).rows@.len() {
                    assert(old(self).rows@[i].wf(self.field_count as nat, current.number as nat));
                }
            }
        }
        id
    }

    /// The value of one field and the revision of its last write.
    pub fn field(&self, id: Id, field: usize) -> (r: (u64, Revision))
        requires
            id < self.count(),
            field < self.field_count,
            self.shaped(),
        ensures
            r.0 == self.value_of(id as int, field as int),
            r.1.number == self.stamp_of(id as int, field as int),
    {
        assert(self.rows@[id as int].fields@.len() == self.field_count);
        let row = &self.rows[id as usize];
        (row.fields[field], row.changed_at[field])
    }


    /// Writes one field of an input and stamps it with `current`; the other
    /// fields keep their values and stamps.
    pub fn set_field(&mut self, id: Id, field: usize, value: u64, current: Revision) -> (r: u64)
        requires
            old(self).wf(current.number as nat),
            id < old(self).count(),
            field < old(self).field_count,
        ensures
            final(self).wf(current.number as nat),
            final(self).field_count == old(self).field_count,
            final(self).count() == old(self).count(),
            r == old(self).value_of(id as int, field as int),
            forall|i: int, f: int| 0 <= i < old(self).count() && 0 <= f < old(self).field_count
                && (i, f) != (id as int, field as int) ==> {
                &&& final(self).value_of(i, f) == old(self).value_of(i, f)
                &&& final(self).stamp_of(i, f) == old(self).stamp_of(i, f)
            },
            final(self).value_of(id as int, field as int) == value,
            final(self).stamp_of(id as int, field as int) == current.number,
    {
        let mut row = InputRow { fields: Vec::new(), changed_at: Vec::new() };
        self.rows.set_and_swap(id as usize, &mut row);
        assert(row == old(self).rows@[id as int]);
        assert(row.wf(self.field_count as nat, current.number as nat));
        let previous = row.fields[field];
        row.fields.set(field, value);
        row.changed_at.set(field, current);
        self.rows.set_and_swap(id as usize, &mut row);
        proof {
            assert forall|i: int| 0 <= i < self.rows@.len() implies #[trigger] self.rows@[i].wf(
                self.field_count as nat,
                current.number as nat,
            ) by {
                if i != id {
                    assert(old(self).rows@[i].wf(self.field_count as nat, current.number as nat));
                }
            }
        }
        previous
    }
}

} // verus!
