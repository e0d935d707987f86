use vstd::prelude::*;
use crate::cycle::CycleRecoveryStrategy;
use crate::function::FunctionIngredient;
use crate::input::InputIngredient;
use crate::interned::InternedIngredient;
use crate::key::{DatabaseKeyIndex, DependencyIndex, Id};
use crate::revision::Revision;
use crate::tracked_struct::TrackedIngredient;

verus! {

/// Where a stored value came from.
#[derive(Clone, Debug)]
pub enum QueryOrigin {
    /// Set from outside the database; it depends on nothing.
    BaseInput,
    /// Computed by a function that read these dependencies, in this order.
    Derived(Vec<DependencyIndex>),
    /// Computed by a function that also read something untracked.
    DerivedUntracked(Vec<DependencyIndex>),
    /// A placeholder that stands for a result while a cycle is resolved.
    FixpointInitial,
}

/// The storage of one kind of entity in the database, seen through the
/// operations the runtime needs on every kind.
pub trait Ingredient<DB: ?Sized> {
    /// The facts this ingredient keeps between operations.
    spec fn inv(&self) -> bool;

    /// Whether the datum `input` names changed after `revision`, as far as
    /// this ingredient's own records tell.
    spec fn changed_after(&self, input: DependencyIndex, revision: Revision) -> bool;

    /// The strategy of this ingredient's queries in a cycle.
    spec fn strategy(&self) -> CycleRecoveryStrategy;

    /// `r` is the origin of the value at `key_index`.
    spec fn origin_is(&self, key_index: Id, r: Option<QueryOrigin>) -> bool;

    /// `after` is this ingredient once `stale_output_key`, produced by
    /// `executor` in an earlier revision but not in this one, is removed.
    spec fn removes(&self, after: &Self, executor: DatabaseKeyIndex, stale_output_key: Id) -> bool;

    /// Whether a reset can start a new round of this ingredient.
    spec fn can_reset(&self) -> bool;

    /// `after` is this ingredient once reset for a new revision.
    spec fn resets(&self, after: &Self) -> bool;

    /// If this ingredient is a participant in a cycle, what is its cycle
    /// recovery strategy?
    fn cycle_recovery_strategy(&self) -> (r: CycleRecoveryStrategy)
        ensures
            r == self.strategy(),
    ;

    /// Has the value for `input` in this ingredient changed after `revision`?
    fn maybe_changed_after(&self, db: &DB, input: DependencyIndex, revision: Revision) -> (r: bool)
        ensures
            self.inv() ==> r == self.changed_after(input, revision),
    ;

    /// What were the inputs (if any) that were used to create the value at
    /// `key_index`.
    fn origin(&self, key_index: Id) -> (r: Option<QueryOrigin>)
        ensures
            self.inv() ==> self.origin_is(key_index, r),
    ;

    /// Invoked when the value `output_key` should be marked as valid in the
    /// current revision, because `executor`, which produced it, was. Every
    /// ingredient here keeps an output valid until it is removed, so there
    /// is nothing to record.
    fn mark_validated_output(&self, db: &DB, executor: DatabaseKeyIndex, output_key: Id);

    /// Invoked when `stale_output_key` was produced by `executor` in an
    /// earlier revision but not in the current one: it is removed so that
    /// nothing can read it.
    fn remove_stale_output(&mut self, db: &DB, executor: DatabaseKeyIndex, stale_output_key: Id)
        ensures
            old(self).removes(&*final(self), executor, stale_output_key),
    ;

    /// Invoked when a new revision is about to start.
    fn reset_for_new_revision(&mut self)
        requires
            old(self).can_reset(),
        ensures
            old(self).resets(&*final(self)),
    ;
}

/// Says whether an ingredient is reset at each new revision.
pub trait IngredientRequiresReset {
    /// If this is true, `reset_for_new_revision` is called every new revision.
    const RESET_ON_NEW_REVISION: bool;
}

impl IngredientRequiresReset for InternedIngredient {
    const RESET_ON_NEW_REVISION: bool = true;
}

impl IngredientRequiresReset for InputIngredient {
    const RESET_ON_NEW_REVISION: bool = false;
}

impl IngredientRequiresReset for TrackedIngredient {
    const RESET_ON_NEW_REVISION: bool = false;
}

impl IngredientRequiresReset for FunctionIngredient {
    const RESET_ON_NEW_REVISION: bool = false;
}

impl<DB: ?Sized> Ingredient<DB> for InternedIngredient {
    open spec fn inv(&self) -> bool {
        self.values@.len() == self.first_interned_at@.len()
    }

    open spec fn changed_after(&self, input: DependencyIndex, revision: Revision) -> bool {
        match input.key_index {
            Some(k) => k >= self.values@.len() || self.first_interned_at@[k as int].number > revision.number,
            None => true,
        }
    }

    open spec fn strategy(&self) -> CycleRecoveryStrategy {
        CycleRecoveryStrategy::Panic
    }

    /// An interned value has no recorded origin.
    open spec fn origin_is(&self, key_index: Id, r: Option<QueryOrigin>) -> bool {
        r is None
    }

    /// Interned values are no query's outputs: nothing changes.
    open spec fn removes(&self, after: &Self, executor: DatabaseKeyIndex, stale_output_key: Id) -> bool {
        *after == *self
    }

    open spec fn can_reset(&self) -> bool {
        self.generation < u32::MAX
    }

    /// A new generation with an empty table.
    open spec fn resets(&self, after: &Self) -> bool {
        &&& after.generation == self.generation + 1
        &&& after.values@.len() == 0
        &&& after.first_interned_at@.len() == 0
    }

    fn cycle_recovery_strategy(&self) -> (r: CycleRecoveryStrategy) {
        CycleRecoveryStrategy::Panic
    }

    fn maybe_changed_after(&self, db: &DB, input: DependencyIndex, revision: Revision) -> (r: bool) {
        match input.key_index {
            Some(k) => {
                if (k as usize) < self.values.len() && (k as usize) < self.first_interned_at.len() {
                    self.first_interned_at[k as usize].is_after(revision)
                } else {
                    true
                }
            },
            None => true,
        }
    }

    fn origin(&self, key_index: Id) -> (r: Option<QueryOrigin>) {
        None
    }

    fn mark_validated_output(&self, db: &DB, executor: DatabaseKeyIndex, output_key: Id) {
    }

    fn remove_stale_output(&mut self, db: &DB, executor: DatabaseKeyIndex, stale_output_key: Id) {
    }

    fn reset_for_new_revision(&mut self) {
        self.reset();
    }
}

impl<DB: ?Sized> Ingredient<DB> for InputIngredient {
    open spec fn inv(&self) -> bool {
        self.shaped()
    }

    /// Ingredient `f + 1` holds field `f` of every input.
    open spec fn changed_after(&self, input: DependencyIndex, revision: Revision) -> bool {
        match input.key_index {
            Some(k) => {
                let field = input.ingredient_index - 1;
                !(0 <= field < self.field_count) || k >= self.count() || self.stamp_of(k as int, field)
                    > revision.number
            },
            None => true,
        }
    }

    open spec fn strategy(&self) -> CycleRecoveryStrategy {
        CycleRecoveryStrategy::Panic
    }

    /// An input is set from outside.
    open spec fn origin_is(&self, key_index: Id, r: Option<QueryOrigin>) -> bool {
        if key_index < self.count() {
            r matches Some(QueryOrigin::BaseInput)
        } else {
            r is None
        }
    }

    /// Inputs are no query's outputs: nothing changes.
    open spec fn removes(&self, after: &Self, executor: DatabaseKeyIndex, stale_output_key: Id) -> bool {
        *after == *self
    }

    open spec fn can_reset(&self) -> bool {
        true
    }

    open spec fn resets(&self, after: &Self) -> bool {
        *after == *self
    }

    fn cycle_recovery_strategy(&self) -> (r: CycleRecoveryStrategy) {
        CycleRecoveryStrategy::Panic
    }

    fn maybe_changed_after(&self, db: &DB, input: DependencyIndex, revision: Revision) -> (r: bool) {
        match input.key_index {
            Some(k) => {
                let ii = input.ingredient_index as usize;
                if ii >= 1 && ii - 1 < self.field_count && (k as usize) < self.rows.len() {
                    let row = &self.rows[k as usize];
                    if ii - 1 < row.changed_at.len() {
                        row.changed_at[ii - 1].is_after(revision)
                    } else {
                        true
                    }
                } else {
                    true
                }
            },
            None => true,
        }
    }

    fn origin(&self, key_index: Id) -> (r: Option<QueryOrigin>) {
        if (key_index as usize) < self.rows.len() {
            Some(QueryOrigin::BaseInput)
        } else {
            None
        }
    }

    fn mark_validated_output(&self, db: &DB, executor: DatabaseKeyIndex, output_key: Id) {
    }

    fn remove_stale_output(&mut self, db: &DB, executor: DatabaseKeyIndex, stale_output_key: Id) {
    }

    fn reset_for_new_revision(&mut self) {
    }
}

impl<DB: ?Sized> Ingredient<DB> for FunctionIngredient {
    open spec fn inv(&self) -> bool {
        self.keys_unique()
    }

    /// Read from the memo as it stands; the database brings it up to date
    /// first.
    open spec fn changed_after(&self, input: DependencyIndex, revision: Revision) -> bool {
        match input.key_index {
            Some(k) => !self.has_memo(k) || self.memo(k).changed_at.number > revision.number,
            None => true,
        }
    }

    open spec fn strategy(&self) -> CycleRecoveryStrategy {
        self.strategy
    }

    /// What the memo's computation read.
    open spec fn origin_is(&self, key_index: Id, r: Option<QueryOrigin>) -> bool {
        if self.has_memo(key_index) {
            let m = self.memo(key_index);
            if m.untracked {
                r matches Some(QueryOrigin::DerivedUntracked(d)) && d@ == m.dependencies@
            } else {
                r matches Some(QueryOrigin::Derived(d)) && d@ == m.dependencies@
            }
        } else {
            r is None
        }
    }

    /// A function's memos are removed by the database, which owns them.
    open spec fn removes(&self, after: &Self, executor: DatabaseKeyIndex, stale_output_key: Id) -> bool {
        *after == *self
    }

    open spec fn can_reset(&self) -> bool {
        true
    }

    open spec fn resets(&self, after: &Self) -> bool {
        *after == *self
    }

    fn cycle_recovery_strategy(&self) -> (r: CycleRecoveryStrategy) {
        self.strategy
    }

    fn maybe_changed_after(&self, db: &DB, input: DependencyIndex, revision: Revision) -> (r: bool) {
        match input.key_index {
            Some(k) => {
                let mut i: usize = 0;
                while i < self.memos.len()
                    invariant
                        i <= self.memos@.len(),
                        input.key_index == Some(k),
                        forall|j: int| 0 <= j < i ==> self.memos@[j].key != k,
                    decreases self.memos@.len() - i,
                {
                    if self.memos[i].key == k {
                        proof {
                            if self.keys_unique() {
                                self.lemma_memo_at(i as int);
                            }
                        }
                        return self.memos[i].changed_at.is_after(revision);
                    }
                    i = i + 1;
                }
                true
            },
            None => true,
        }
    }

    fn origin(&self, key_index: Id) -> (r: Option<QueryOrigin>) {
        let mut i: usize = 0;
        while i < self.memos.len()
            invariant
                i <= self.memos@.len(),
                forall|j: int| 0 <= j < i ==> self.memos@[j].key != key_index,
            decreases self.memos@.len() - i,
        {
            if self.memos[i].key == key_index {
                let memo = &self.memos[i];
                let mut deps: Vec<DependencyIndex> = Vec::new();
                let mut j: usize = 0;
                while j < memo.dependencies.len()
                    invariant
                        j <= memo.dependencies@.len(),
                        deps@ == memo.dependencies@.subrange(0, j as int),
                    decreases memo.dependencies@.len() - j,
                {
                    deps.push(memo.dependencies[j]);
                    j = j + 1;
                    assert(deps@ =~= memo.dependencies@.subrange(0, j as int));
                }
                assert(deps@ =~= memo.dependencies@);
                proof {
                    if self.keys_unique() {
                        self.lemma_memo_at(i as int);
                    }
                }
                return if memo.untracked {
                    Some(QueryOrigin::DerivedUntracked(deps))
                } else {
                    Some(QueryOrigin::Derived(deps))
                };
            }
            i = i + 1;
        }
        None
    }

    fn mark_validated_output(&self, db: &DB, executor: DatabaseKeyIndex, output_key: Id) {
    }

    fn remove_stale_output(&mut self, db: &DB, executor: DatabaseKeyIndex, stale_output_key: Id) {
    }

    fn reset_for_new_revision(&mut self) {
    }
}

impl<DB: ?Sized> Ingredient<DB> for TrackedIngredient {
    open spec fn inv(&self) -> bool {
        true
    }

    /// Ingredient `first_ingredient + f` holds field `f` of every struct.
    open spec fn changed_after(&self, input: DependencyIndex, revision: Revision) -> bool {
        match input.key_index {
            Some(k) => {
                let field = input.ingredient_index - self.first_ingredient;
                k >= self.entries@.len() || self.entries@[k as int].stale || !(0 <= field
                    < self.entries@[k as int].changed_at@.len())
                    || self.entries@[k as int].changed_at@[field].number > revision.number
            },
            None => true,
        }
    }

    open spec fn strategy(&self) -> CycleRecoveryStrategy {
        CycleRecoveryStrategy::Panic
    }

    /// A struct's fields are set by its creator; no origin is recorded.
    open spec fn origin_is(&self, key_index: Id, r: Option<QueryOrigin>) -> bool {
        r is None
    }

    /// The struct at `stale_output_key`, where `executor` created it, is
    /// marked stale; nothing else changes.
    open spec fn removes(&self, after: &Self, executor: DatabaseKeyIndex, stale_output_key: Id) -> bool {
        &&& after.first_ingredient == self.first_ingredient
        &&& after.field_count == self.field_count
        &&& after.entries@.len() == self.entries@.len()
        &&& forall|i: int| 0 <= i < self.entries@.len() ==> {
            let (a, b) = (self.entries@[i], #[trigger] after.entries@[i]);
            &&& b.creator == a.creator
            &&& b.disambiguator == a.disambiguator
            &&& b.fields == a.fields
            &&& b.changed_at == a.changed_at
            &&& b.stale == (a.stale || (i == stale_output_key && a.creator == executor))
        }
    }

    open spec fn can_reset(&self) -> bool {
        true
    }

    open spec fn resets(&self, after: &Self) -> bool {
        *after == *self
    }

    fn cycle_recovery_strategy(&self) -> (r: CycleRecoveryStrategy) {
        CycleRecoveryStrategy::Panic
    }

    fn maybe_changed_after(&self, db: &DB, input: DependencyIndex, revision: Revision) -> (r: bool) {
        match input.key_index {
            Some(k) => {
                if k as usize >= self.entries.len() {
                    return true;
                }
                let entry = &self.entries[k as usize];
                let ii = input.ingredient_index as usize;
                if entry.stale || ii < self.first_ingredient || ii - self.first_ingredient >= entry.changed_at.len() {
                    true
                } else {
                    entry.changed_at[ii - self.first_ingredient].is_after(revision)
                }
            },
            None => true,
        }
    }

    fn origin(&self, key_index: Id) -> (r: Option<QueryOrigin>) {
        None
    }

    fn mark_validated_output(&self, db: &DB, executor: DatabaseKeyIndex, output_key: Id) {
    }

    fn remove_stale_output(&mut self, db: &DB, executor: DatabaseKeyIndex, stale_output_key: Id) {
        self.mark_stale(executor, stale_output_key);
    }

    fn reset_for_new_revision(&mut self) {
    }
}

} // verus!
