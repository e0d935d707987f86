use vstd::prelude::*;
use crate::cycle::{Cycle, CycleRecoveryStrategy};
use crate::function::{FunctionIngredient, Memo, Storage};
use crate::ingredient::Ingredient;
use crate::input::InputIngredient;
use crate::interned::{InternedId, InternedIngredient, StaleId};
use crate::key::{DatabaseKeyIndex, DependencyIndex, Id};
use crate::revision::Revision;
use crate::tracked_struct::{StaleStruct, TrackedIngredient};
use crate::runtime::{lemma_keys_drop_last, lemma_keys_push, ActiveQuery, Runtime};

verus! {

/// How many queries may be active at once: a read that would need a frame
/// beyond it fails with `FetchError::TooDeep` instead of growing the stack.
pub const MAX_DEPTH: usize = 4096;

/// How many times the first query of a recovered cycle runs, at most, before
/// its value must have settled.
pub const FIXPOINT_ROUNDS: u32 = 8;

/// What follows one run of the first query of a recovered cycle.
#[derive(Clone, Copy, Debug, PartialEq, Eq, Structural)]
pub enum Round {
    /// The value is final.
    Settled,
    /// Run again with the latest value as the provisional one.
    Again,
    /// The value did not settle within `FIXPOINT_ROUNDS` runs.
    GiveUp,
}

/// Decides, after run number `rounds` gave `latest`, whether a query is
/// done: it is where no recovered cycle closed on it, or where the value is
/// the provisional one it ran with (`previous`); otherwise it runs again,
/// unless it already ran `FIXPOINT_ROUNDS` times.
pub fn next_round(rounds: u32, cycle_closed: bool, previous: Option<u64>, latest: u64) -> (r: Round)
    ensures
        r == if !cycle_closed || previous == Some(latest) {
            Round::Settled
        } else if rounds >= FIXPOINT_ROUNDS {
            Round::GiveUp
        } else {
            Round::Again
        },
{
    let same = match previous {
        Some(p) => p == latest,
        None => false,
    };
    if !cycle_closed || same {
        Round::Settled
    } else if rounds >= FIXPOINT_ROUNDS {
        Round::GiveUp
    } else {
        Round::Again
    }
}

/// Why a fetch did not produce a value.
#[derive(Clone, Debug)]
pub enum FetchError {
    /// The query closed a cycle and some participant does not recover.
    Cycle(Cycle),
    /// The active query stack is full.
    TooDeep,
}

/// The user-supplied computations of a database's functions. The `ensures`
/// of `execute` is what the engine relies on from every implementation: it
/// holds of one that reads and creates only through the methods of
/// `Database`, since each of them keeps the database well formed, its shape,
/// its revision, its stack and the memos of the queries on the stack.
pub trait QueryProgram {
    /// Computes function `function` on `key`, reading through `db`. An error
    /// of a nested read is handed back unchanged.
    fn execute(&self, db: &mut Database, function: usize, key: Id) -> (r: Result<u64, FetchError>)
        requires
            old(db).wf(),
            function < old(db).functions@.len(),
        ensures
            final(db).wf(),
            final(db).same_shape(*old(db)),
            final(db).runtime.revision == old(db).runtime.revision,
            final(db).runtime.stack_keys() == old(db).runtime.stack_keys(),
            final(db).keeps_stack_memos(*old(db)),
            final(db).executions >= old(db).executions,
    ;
}

/// The database: a revision clock with its query stack, the interned values
/// (ingredient `0`), one ingredient per input field (`1` to
/// `inputs.field_count`), one per field of the tracked structs after them,
/// and the memoized functions last.
pub struct Database {
    pub runtime: Runtime,
    pub interned: InternedIngredient,
    pub inputs: InputIngredient,
    pub structs: TrackedIngredient,
    pub functions: Vec<FunctionIngredient>,
    /// How many times a user function has been run (saturating).
    pub executions: u64,
}

/// Every dependency in `deps` is on an interned value, an input field or a
/// field of a tracked struct.
pub open spec fn all_base(db: Database, deps: Seq<DependencyIndex>) -> bool {
    forall|d: int| 0 <= d < deps.len() ==> db.is_base_dep(#[trigger] deps[d])
}

/// Some dependency in `deps` is base data that changed after `revision`.
pub open spec fn some_base_changed(db: Database, deps: Seq<DependencyIndex>, revision: Revision) -> bool {
    exists|d: int| 0 <= d < deps.len() && db.is_base_dep(#[trigger] deps[d]) && db.base_changed_after(deps[d], revision)
}

impl Database {
    pub open spec fn current(&self) -> nat {
        self.runtime.revision.number as nat
    }

    /// The ingredient index of function `f`.
    pub open spec fn function_ingredient(&self, f: int) -> int {
        self.first_function() + f
    }

    /// The ingredient index of the first function.
    pub open spec fn first_function(&self) -> int {
        1 + self.inputs.field_count + self.structs.field_count
    }

    /// The function that ingredient `ingredient_index` holds, if it is one.
    pub open spec fn function_of(&self, ingredient_index: u32) -> Option<int> {
        let g = ingredient_index - self.first_function();
        if 0 <= g < self.functions@.len() {
            Some(g)
        } else {
            None
        }
    }

    pub open spec fn key_of(&self, f: int, key: Id) -> DatabaseKeyIndex {
        DatabaseKeyIndex { ingredient_index: self.function_ingredient(f) as u32, key_index: key }
    }

    pub open spec fn wf(&self) -> bool {
        &&& self.runtime.wf()
        &&& self.interned.wf(self.current())
        &&& self.interned.generation < self.runtime.revision.number
        &&& self.inputs.wf(self.current())
        &&& self.structs.wf(self.current())
        &&& self.structs.first_ingredient == 1 + self.inputs.field_count
        &&& self.first_function() + self.functions@.len() <= u32::MAX
        &&& forall|f: int| 0 <= f < self.functions@.len() ==> {
            &&& (#[trigger] self.functions@[f]).wf(self.current())
            &&& self.functions@[f].index == self.function_ingredient(f)
        }
    }

    /// The functions are the same, computed the same way, and the inputs have
    /// the same fields.
    pub open spec fn same_shape(&self, other: Database) -> bool {
        &&& self.inputs.field_count == other.inputs.field_count
        &&& self.structs.field_count == other.structs.field_count
        &&& self.functions@.len() == other.functions@.len()
        &&& forall|f: int| 0 <= f < self.functions@.len() ==> {
            &&& (#[trigger] self.functions@[f]).index == other.functions@[f].index
            &&& self.functions@[f].storage == other.functions@[f].storage
            &&& self.functions@[f].strategy == other.functions@[f].strategy
            &&& self.functions@[f].fallback == other.functions@[f].fallback
        }
    }

    pub open spec fn has_memo(&self, f: int, key: Id) -> bool {
        self.functions@[f].has_memo(key)
    }

    pub open spec fn memo(&self, f: int, key: Id) -> Memo {
        self.functions@[f].memo(key)
    }

    /// The memo stored for the datum `k`, if `k` is a function's and has one.
    pub open spec fn memo_state(&self, k: DatabaseKeyIndex) -> Option<Memo> {
        match self.function_of(k.ingredient_index) {
            Some(g) => if self.has_memo(g, k.key_index) {
                Some(self.memo(g, k.key_index))
            } else {
                None
            },
            None => None,
        }
    }

    /// The memos of the queries on `before`'s stack are as they were.
    pub open spec fn keeps_stack_memos(&self, before: Database) -> bool {
        forall|k: DatabaseKeyIndex| #[trigger] before.runtime.stack_keys().contains(k)
            ==> self.memo_state(k) == before.memo_state(k)
    }

    /// A read of function `f` on `key` would be answered from the cache.
    pub open spec fn is_hit(&self, f: int, key: Id) -> bool {
        &&& self.functions@[f].memoizes()
        &&& self.has_memo(f, key)
        &&& self.memo(f, key).verified_at == self.runtime.revision
    }

    /// What `maybe_changed_after` answers, without computing anything, for a
    /// dependency on an interned value, an input field or a field of a
    /// tracked struct.
    pub open spec fn base_changed_after(&self, dep: DependencyIndex, revision: Revision) -> bool {
        if dep.ingredient_index == 0 {
            match dep.key_index {
                Some(k) => k >= self.interned.values@.len()
                    || self.interned.first_interned_at@[k as int].number > revision.number,
                None => true,
            }
        } else if dep.ingredient_index <= self.inputs.field_count {
            match dep.key_index {
                Some(k) => k >= self.inputs.count()
                    || self.inputs.stamp_of(k as int, dep.ingredient_index - 1) > revision.number,
                None => true,
            }
        } else {
            match dep.key_index {
                Some(k) => k >= self.structs.entries@.len() || self.structs.entries@[k as int].stale
                    || self.structs.stamp_of(k as int, dep.ingredient_index - 1 - self.inputs.field_count)
                    > revision.number,
                None => true,
            }
        }
    }

    pub open spec fn is_base_dep(&self, dep: DependencyIndex) -> bool {
        dep.ingredient_index < self.first_function()
    }

    /// `dep` is known, without running anything, not to have changed after
    /// `revision`: an unchanged interned value or field, or a function whose
    /// memo is verified in this revision and did not change since.
    pub open spec fn settled_dep(&self, dep: DependencyIndex, revision: Revision) -> bool {
        if self.is_base_dep(dep) {
            !self.base_changed_after(dep, revision)
        } else {
            match (self.function_of(dep.ingredient_index), dep.key_index) {
                (Some(g), Some(k)) => self.is_hit(g, k) && self.memo(g, k).changed_at.number <= revision.number,
                _ => false,
            }
        }
    }

    /// The function a stack frame key belongs to recovers from cycles.
    pub open spec fn recovers(&self, k: DatabaseKeyIndex) -> bool {
        match self.function_of(k.ingredient_index) {
            Some(g) => self.functions@[g].strategy == CycleRecoveryStrategy::Fallback,
            None => false,
        }
    }

    /// The stack keys from the first frame of `k` to the top.
    pub open spec fn cycle_of(&self, k: DatabaseKeyIndex) -> Seq<DatabaseKeyIndex> {
        let keys = self.runtime.stack_keys();
        keys.subrange(self.cycle_head(k), keys.len() as int)
    }

    /// The position of the first frame of `k` on the stack.
    pub open spec fn cycle_head(&self, k: DatabaseKeyIndex) -> int {
        let keys = self.runtime.stack_keys();
        choose|i: int| 0 <= i < keys.len() && keys[i] == k && forall|j: int| 0 <= j < i ==> keys[j] != k
    }

    /// What a read of function `f` that closes a recovered cycle on `k`
    /// gives: the provisional value of `k`'s first frame, or `f`'s fallback
    /// in the first round.
    pub open spec fn recovered_value(&self, f: int, k: DatabaseKeyIndex) -> u64 {
        match self.runtime.stack@[self.cycle_head(k)].provisional {
            Some(v) => v,
            None => self.functions@[f].fallback,
        }
    }

    /// A fresh database at the first revision whose inputs have
    /// `field_count` fields, with no function yet.
    pub fn new(field_count: usize, tracked_field_count: usize) -> (r: Database)
        requires
            1 + field_count + tracked_field_count <= u32::MAX,
        ensures
            r.wf(),
            r.current() == 1,
            r.runtime.stack@.len() == 0,
            r.inputs.field_count == field_count,
            r.inputs.count() == 0,
            r.structs.field_count == tracked_field_count,
            r.structs.entries@.len() == 0,
            r.functions@.len() == 0,
            r.executions == 0,
    {
        Database {
            runtime: Runtime::new(),
            interned: InternedIngredient::new(),
            inputs: InputIngredient::new(field_count),
            structs: TrackedIngredient::new(1 + field_count, tracked_field_count),
            functions: Vec::new(),
            executions: 0,
        }
    }

    /// Adds a function, kept as `storage` says, and returns its number.
    pub fn add_function(&mut self, storage: Storage, strategy: CycleRecoveryStrategy, fallback: u64) -> (r: usize)
        requires
            old(self).wf(),
            old(self).first_function() + old(self).functions@.len() < u32::MAX,
        ensures
            final(self).wf(),
            r == old(self).functions@.len(),
            final(self).functions@.len() == old(self).functions@.len() + 1,
            final(self).functions@.drop_last() == old(self).functions@,
            final(self).functions@[r as int].storage == storage,
            final(self).functions@[r as int].strategy == strategy,
            final(self).functions@[r as int].fallback == fallback,
            final(self).functions@[r as int].memos@.len() == 0,
            final(self).runtime == old(self).runtime,
            final(self).inputs == old(self).inputs,
            final(self).structs == old(self).structs,
    {
        let f = self.functions.len();
        let index = (1 + self.inputs.field_count + self.structs.field_count + f) as u32;
        self.functions.push(FunctionIngredient::new(index, storage, strategy, fallback));
        assert(self.functions@.drop_last() =~= old(self).functions@);
        f
    }

    /// The key of function `f` on `key`.
    pub fn function_key(&self, f: usize, key: Id) -> (r: DatabaseKeyIndex)
        requires
            self.wf(),
            f < self.functions@.len(),
        ensures
            r == self.key_of(f as int, key),
    {
        DatabaseKeyIndex {
            ingredient_index: (1 + self.inputs.field_count + self.structs.field_count + f) as u32,
            key_index: key,
        }
    }

    /// Adds an input with the given field values, each stamped with the
    /// current revision, and returns its id.
    pub fn new_input(&mut self, fields: Vec<u64>) -> (r: Id)
        requires
            old(self).wf(),
            fields@.len() == old(self).inputs.field_count,
            old(self).inputs.count() < u32::MAX,
        ensures
            final(self).wf(),
            final(self).same_shape(*old(self)),
            final(self).runtime == old(self).runtime,
            final(self).functions == old(self).functions,
            r == old(self).inputs.count(),
            final(self).inputs.count() == old(self).inputs.count() + 1,
            forall|f: int| 0 <= f < fields@.len() ==> {
                &&& #[trigger] final(self).inputs.value_of(r as int, f) == fields@[f]
                &&& final(self).inputs.stamp_of(r as int, f) == final(self).current()
            },
            forall|i: int, f: int| 0 <= i < old(self).inputs.count() && 0 <= f < old(self).inputs.field_count ==> {
                &&& #[trigger] final(self).inputs.value_of(i, f) == old(self).inputs.value_of(i, f)
                &&& final(self).inputs.stamp_of(i, f) == old(self).inputs.stamp_of(i, f)
            },
    {
        let current = self.runtime.revision;
        self.inputs.allocate(fields, current)
    }

    /// Reads one field of an input, recording the read in the active query.
    pub fn input_field(&mut self, id: Id, field: usize) -> (r: u64)
        requires
            old(self).wf(),
            id < old(self).inputs.count(),
            field < old(self).inputs.field_count,
        ensures
            final(self).wf(),
            final(self).same_shape(*old(self)),
            final(self).runtime.revision == old(self).runtime.revision,
            final(self).runtime.stack_keys() == old(self).runtime.stack_keys(),
            final(self).keeps_stack_memos(*old(self)),
            final(self).inputs == old(self).inputs,
            final(self).functions == old(self).functions,
            r == old(self).inputs.value_of(id as int, field as int),
            old(self).runtime.stack@.len() > 0 ==> old(self).runtime.stack@.last().then_read(
                final(self).runtime.stack@.last(),
                DependencyIndex { ingredient_index: (1 + field) as u32, key_index: Some(id) },
                old(self).inputs.rows@[id as int].changed_at@[field as int],
            ),
    {
        proof {
            self.inputs.lemma_wf_shaped(self.current());
            assert(self.inputs.rows@[id as int].wf(self.inputs.field_count as nat, self.current()));
        }
        let (value, stamp) = self.inputs.field(id, field);
        let dep = DependencyIndex { ingredient_index: (1 + field) as u32, key_index: Some(id) };
        self.runtime.report_read(dep, stamp);
        value
    }

    /// Starts the next revision; the interned table starts a new
    /// generation.
    pub fn advance_revision(&mut self)
        requires
            old(self).wf(),
            old(self).runtime.stack@.len() == 0,
            old(self).runtime.revision.number < u32::MAX,
        ensures
            final(self).wf(),
            final(self).same_shape(*old(self)),
            final(self).current() == old(self).current() + 1,
            final(self).runtime.stack@.len() == 0,
            final(self).inputs == old(self).inputs,
            final(self).structs == old(self).structs,
            final(self).functions == old(self).functions,
            final(self).interned.generation == old(self).interned.generation + 1,
            final(self).interned.values@.len() == 0,
    {
        self.runtime.advance_revision();
        <InternedIngredient as Ingredient<Database>>::reset_for_new_revision(&mut self.interned);
        proof {
            let c = self.current();
            assert forall|f: int| 0 <= f < self.functions@.len() implies (#[trigger] self.functions@[f]).wf(c) by {
                let fi = self.functions@[f];
                assert(fi.wf(old(self).current()));
                assert forall|i: int| 0 <= i < fi.memos@.len() implies #[trigger] fi.memos@[i].stamps_ok(c) by {
                    assert(fi.memos@[i].stamps_ok(old(self).current()));
                }
            }
            let ins = self.inputs;
            assert forall|i: int| 0 <= i < ins.rows@.len() implies #[trigger] ins.rows@[i].wf(ins.field_count as nat, c) by {
                assert(ins.rows@[i].wf(ins.field_count as nat, old(self).current()));
            }
            let tr = self.structs;
            assert forall|i: int| 0 <= i < tr.entries@.len() implies #[trigger] tr.entries@[i].wf(tr.field_count as nat, c) by {
                assert(tr.entries@[i].wf(tr.field_count as nat, old(self).current()));
            }
        }
    }

    /// Writes one field of an input in a new revision and returns the value
    /// it replaces. The field is stamped with the new revision even when the
    /// value is the same.
    pub fn set_input_field(&mut self, id: Id, field: usize, value: u64) -> (r: u64)
        requires
            old(self).wf(),
            old(self).runtime.stack@.len() == 0,
            old(self).runtime.revision.number < u32::MAX,
            id < old(self).inputs.count(),
            field < old(self).inputs.field_count,
        ensures
            final(self).wf(),
            final(self).same_shape(*old(self)),
            final(self).current() == old(self).current() + 1,
            final(self).runtime.stack@.len() == 0,
            final(self).functions == old(self).functions,
            final(self).inputs.count() == old(self).inputs.count(),
            r == old(self).inputs.value_of(id as int, field as int),
            final(self).inputs.value_of(id as int, field as int) == value,
            final(self).inputs.stamp_of(id as int, field as int) == final(self).current(),
            forall|i: int, f: int| 0 <= i < old(self).inputs.count() && 0 <= f < old(self).inputs.field_count
                && (i, f) != (id as int, field as int) ==> {
                &&& #[trigger] final(self).inputs.value_of(i, f) == old(self).inputs.value_of(i, f)
                &&& final(self).inputs.stamp_of(i, f) == old(self).inputs.stamp_of(i, f)
            },
    {
        self.advance_revision();
        let current = self.runtime.revision;
        self.inputs.set_field(id, field, value, current)
    }

    /// Interns `value`: the same id for the same value within a generation.
    /// The read is recorded in the active query.
    pub fn intern(&mut self, value: u64) -> (r: InternedId)
        requires
            old(self).wf(),
            old(self).interned.values@.len() < u32::MAX,
        ensures
            final(self).wf(),
            final(self).same_shape(*old(self)),
            final(self).runtime.revision == old(self).runtime.revision,
            final(self).runtime.stack_keys() == old(self).runtime.stack_keys(),
            final(self).keeps_stack_memos(*old(self)),
            final(self).functions == old(self).functions,
            final(self).inputs == old(self).inputs,
            r.generation == old(self).interned.generation,
            final(self).interned.generation == old(self).interned.generation,
            r.index < final(self).interned.values@.len(),
            final(self).interned.values@[r.index as int] == value,
            old(self).interned.values@.contains(value) ==> final(self).interned.values@ == old(self).interned.values@
                && old(self).interned.values@[r.index as int] == value,
            !old(self).interned.values@.contains(value) ==> final(self).interned.values@ == old(self).interned.values@.push(value),
            old(self).runtime.stack@.len() > 0 ==> old(self).runtime.stack@.last().then_read(
                final(self).runtime.stack@.last(),
                DependencyIndex { ingredient_index: 0, key_index: Some(r.index) },
                final(self).interned.first_interned_at@[r.index as int],
            ),
    {
        let current = self.runtime.revision;
        let id = self.interned.intern(value, current);
        let stamp = self.interned.interned_at(id.index);
        let dep = DependencyIndex { ingredient_index: 0, key_index: Some(id.index) };
        self.runtime.report_read(dep, stamp);
        id
    }

    /// The value behind an interned id of the current generation; the read
    /// is recorded in the active query.
    pub fn lookup_interned(&mut self, id: InternedId) -> (r: Result<u64, StaleId>)
        requires
            old(self).wf(),
        ensures
            final(self).wf(),
            final(self).same_shape(*old(self)),
            final(self).runtime.revision == old(self).runtime.revision,
            final(self).runtime.stack_keys() == old(self).runtime.stack_keys(),
            final(self).keeps_stack_memos(*old(self)),
            final(self).functions == old(self).functions,
            final(self).interned == old(self).interned,
            r is Ok <==> id.generation == old(self).interned.generation && id.index < old(self).interned.values@.len(),
            r matches Ok(v) ==> v == old(self).interned.values@[id.index as int],
            r matches Err(e) ==> e.id == id,
            r is Ok && old(self).runtime.stack@.len() > 0 ==> old(self).runtime.stack@.last().then_read(
                final(self).runtime.stack@.last(),
                DependencyIndex { ingredient_index: 0, key_index: Some(id.index) },
                old(self).interned.first_interned_at@[id.index as int],
            ),
            r is Err ==> final(self).runtime == old(self).runtime,
    {
        let r = self.interned.lookup(id);
        if r.is_ok() {
            let stamp = self.interned.interned_at(id.index);
            let dep = DependencyIndex { ingredient_index: 0, key_index: Some(id.index) };
            self.runtime.report_read(dep, stamp);
        }
        r
    }

    /// Every key of `keys` belongs to a function that recovers from cycles.
    pub open spec fn all_recover(&self, keys: Seq<DatabaseKeyIndex>) -> bool {
        forall|i: int| 0 <= i < keys.len() ==> self.recovers(#[trigger] keys[i])
    }

    pub proof fn lemma_function_of_key(&self, f: int, key: Id)
        requires
            self.wf(),
            0 <= f < self.functions@.len(),
        ensures
            self.function_of(self.key_of(f, key).ingredient_index) == Some(f),
            self.memo_state(self.key_of(f, key)) == (if self.has_memo(f, key) {
                Some(self.memo(f, key))
            } else {
                None
            }),
    {
    }

    /// Caches `memo` as the result of function `f` on `memo.key`.
    fn store_memo(&mut self, f: usize, memo: Memo)
        requires
            old(self).wf(),
            f < old(self).functions@.len(),
            memo.stamps_ok(old(self).current()),
        ensures
            final(self).wf(),
            final(self).same_shape(*old(self)),
            final(self).runtime == old(self).runtime,
            final(self).executions == old(self).executions,
            final(self).inputs == old(self).inputs,
            final(self).interned == old(self).interned,
            final(self).structs == old(self).structs,
            final(self).has_memo(f as int, memo.key),
            final(self).memo(f as int, memo.key) == memo,
            forall|k: DatabaseKeyIndex| k != old(self).key_of(f as int, memo.key)
                ==> #[trigger] final(self).memo_state(k) == old(self).memo_state(k),
    {
        let ghost key = memo.key;
        let mut fi = FunctionIngredient::new(0, Storage::Memoized, CycleRecoveryStrategy::Panic, 0);
        self.functions.set_and_swap(f, &mut fi);
        assert(fi == old(self).functions@[f as int]);
        assert(fi.wf(self.current()));
        fi.store(memo, Ghost(self.current()));
        self.functions.set_and_swap(f, &mut fi);
        proof {
            assert forall|g: int| 0 <= g < self.functions@.len() implies {
                &&& (#[trigger] self.functions@[g]).wf(self.current())
                &&& self.functions@[g].index == self.function_ingredient(g)
            } by {
                assert(old(self).functions@[g].wf(self.current()));
            }
            assert forall|k: DatabaseKeyIndex| k != old(self).key_of(f as int, key)
                implies #[trigger] self.memo_state(k) == old(self).memo_state(k) by {
                match self.function_of(k.ingredient_index) {
                    Some(g) => {
                        if g == f {
                            assert(k.key_index != key);
                        }
                    },
                    None => {},
                }
            }
        }
    }

    /// Records that the memo of function `f` at position `i` is up to date.
    fn mark_memo_verified(&mut self, f: usize, i: usize)
        requires
            old(self).wf(),
            f < old(self).functions@.len(),
            i < old(self).functions@[f as int].memos@.len(),
        ensures
            final(self).wf(),
            final(self).same_shape(*old(self)),
            final(self).runtime == old(self).runtime,
            final(self).executions == old(self).executions,
            ({
                let m = old(self).functions@[f as int].memos@[i as int];
                &&& final(self).has_memo(f as int, m.key)
                &&& final(self).memo(f as int, m.key) == (Memo { verified_at: old(self).runtime.revision, ..m })
                &&& forall|k: DatabaseKeyIndex| k != old(self).key_of(f as int, m.key)
                    ==> #[trigger] final(self).memo_state(k) == old(self).memo_state(k)
            }),
    {
        let current = self.runtime.revision;
        let mut fi = FunctionIngredient::new(0, Storage::Memoized, CycleRecoveryStrategy::Panic, 0);
        self.functions.set_and_swap(f, &mut fi);
        assert(fi == old(self).functions@[f as int]);
        assert(fi.wf(self.current()));
        let ghost m = fi.memos@[i as int];
        fi.mark_verified(i, current);
        self.functions.set_and_swap(f, &mut fi);
        proof {
            assert forall|g: int| 0 <= g < self.functions@.len() implies {
                &&& (#[trigger] self.functions@[g]).wf(self.current())
                &&& self.functions@[g].index == self.function_ingredient(g)
            } by {
                assert(old(self).functions@[g].wf(self.current()));
            }
            let nf = self.functions@[f as int];
            nf.lemma_memo_at(i as int);
            assert(nf.memos@[i as int] == (Memo { verified_at: current, ..m }));
            let of = old(self).functions@[f as int];
            assert forall|k: DatabaseKeyIndex| k != old(self).key_of(f as int, m.key)
                implies #[trigger] self.memo_state(k) == old(self).memo_state(k) by {
                match self.function_of(k.ingredient_index) {
                    Some(g) => {
                        if g == f {
                            let kk = k.key_index;
                            assert(kk != m.key);
                            if of.has_memo(kk) {
                                let j = choose|j: int| 0 <= j < of.memos@.len() && of.memos@[j].key == kk;
                                of.lemma_memo_at(j);
                                nf.lemma_memo_at(j);
                            }
                            if nf.has_memo(kk) {
                                let j = choose|j: int| 0 <= j < nf.memos@.len() && nf.memos@[j].key == kk;
                                assert(of.memos@[j].key == kk);
                            }
                        }
                    },
                    None => {},
                }
            }
        }
    }

    proof fn lemma_keeps_trans(a: Database, b: Database, c: Database)
        requires
            b.keeps_stack_memos(a),
            c.keeps_stack_memos(b),
            forall|k: DatabaseKeyIndex| a.runtime.stack_keys().contains(k) ==> b.runtime.stack_keys().contains(k),
        ensures
            c.keeps_stack_memos(a),
    {
        assert forall|k: DatabaseKeyIndex| #[trigger] a.runtime.stack_keys().contains(k)
            implies c.memo_state(k) == a.memo_state(k) by {
            assert(b.runtime.stack_keys().contains(k));
        }
    }

    /// The answer to a read of function `f` that closed a cycle on the stack:
    /// where every participant recovers, the provisional value of the
    /// cycle's first query (recorded as such), else the cycle.
    fn cycle_result(&mut self, f: usize, fk: DatabaseKeyIndex) -> (r: Result<u64, FetchError>)
        requires
            old(self).wf(),
            f < old(self).functions@.len(),
            old(self).runtime.stack_keys().contains(fk),
        ensures
            final(self).wf(),
            final(self).same_shape(*old(self)),
            final(self).runtime.revision == old(self).runtime.revision,
            final(self).runtime.stack_keys() == old(self).runtime.stack_keys(),
            final(self).functions == old(self).functions,
            final(self).executions == old(self).executions,
            old(self).all_recover(old(self).cycle_of(fk)) ==> r == Ok::<u64, FetchError>(old(self).recovered_value(f as int, fk)),
            !old(self).all_recover(old(self).cycle_of(fk)) ==> (r matches Err(FetchError::Cycle(c))
                && c.participants@ == old(self).cycle_of(fk)),
    {
        let i = match self.runtime.find_frame(fk) {
            Some(i) => i,
            None => { proof { assert(false); } unreached() },
        };
        let participants = self.runtime.keys_from(i);
        proof {
            let keys = self.runtime.stack_keys();
            assert(keys[i as int] == fk);
            let c = choose|c: int| 0 <= c < keys.len() && keys[c] == fk && forall|j: int| 0 <= j < c ==> keys[j] != fk;
            if c < i {
                assert(self.runtime.stack@[c].key == fk);
            }
            assert(!(i < c));
            assert(self.cycle_head(fk) == i);
            assert(self.cycle_of(fk) == participants@);
        }
        let fc = self.inputs.field_count;
        let tfc = self.structs.field_count;
        let mut all = true;
        let mut j: usize = 0;
        while j < participants.len()
            invariant
                j <= participants@.len(),
                self.wf(),
                fc == self.inputs.field_count,
                tfc == self.structs.field_count,
                all <==> forall|x: int| 0 <= x < j ==> self.recovers(#[trigger] participants@[x]),
            decreases participants@.len() - j,
        {
            let ii = participants[j].ingredient_index as usize;
            let recovers = if ii > fc + tfc && ii - 1 - fc - tfc < self.functions.len() {
                match self.functions[ii - 1 - fc - tfc].strategy {
                    CycleRecoveryStrategy::Fallback => true,
                    CycleRecoveryStrategy::Panic => false,
                }
            } else {
                false
            };
            if !recovers {
                all = false;
            }
            j = j + 1;
        }
        if all {
            let provisional = self.runtime.record_cycle(i, participants);
            self.runtime.report_untracked_read();
            match provisional {
                Some(v) => Ok(v),
                None => Ok(self.functions[f].fallback),
            }
        } else {
            Err(FetchError::Cycle(Cycle { participants }))
        }
    }

    /// Has the datum that `dep` names changed after `revision`? A function's
    /// result is first brought up to date, which may recompute it; a
    /// dependency on a whole ingredient, or on nothing that exists, counts as
    /// changed.
    pub fn maybe_changed_after<P: QueryProgram>(&mut self, p: &P, dep: DependencyIndex, revision: Revision) -> (r:
        Result<bool, FetchError>)
        requires
            old(self).wf(),
        ensures
            final(self).wf(),
            final(self).same_shape(*old(self)),
            final(self).runtime.revision == old(self).runtime.revision,
            final(self).runtime.stack_keys() == old(self).runtime.stack_keys(),
            final(self).keeps_stack_memos(*old(self)),
            final(self).executions >= old(self).executions,
            old(self).is_base_dep(dep) ==> r == Ok::<bool, FetchError>(old(self).base_changed_after(dep, revision))
                && *final(self) == *old(self),
            old(self).settled_dep(dep, revision) ==> r == Ok::<bool, FetchError>(false)
                && final(self).executions == old(self).executions && final(self).functions == old(self).functions
                && final(self).inputs == old(self).inputs && final(self).interned == old(self).interned
                && final(self).structs == old(self).structs,
            !old(self).is_base_dep(dep) ==> match (old(self).function_of(dep.ingredient_index), dep.key_index) {
                (Some(g), Some(k)) => {
                    &&& !old(self).functions@[g].memoizes() ==> r == Ok::<bool, FetchError>(true)
                    &&& old(self).functions@[g].memoizes() && !old(self).is_hit(g, k)
                        && old(self).runtime.stack_keys().contains(old(self).key_of(g, k)) ==> r == Ok::<bool, FetchError>(true)
                    &&& old(self).functions@[g].memoizes() && !old(self).is_hit(g, k)
                        && !old(self).runtime.stack_keys().contains(old(self).key_of(g, k))
                        && old(self).runtime.stack@.len() >= MAX_DEPTH ==> (r matches Err(FetchError::TooDeep))
                    &&& old(self).functions@[g].memoizes()
                        && !old(self).runtime.stack_keys().contains(old(self).key_of(g, k))
                        ==> (r matches Ok(b) ==> final(self).is_hit(g, k)
                            && b == (final(self).memo(g, k).changed_at.number > revision.number))
                },
                _ => r == Ok::<bool, FetchError>(true),
            },
        decreases MAX_DEPTH - old(self).runtime.stack@.len(), 3nat,
    {
        let fc = self.inputs.field_count;
        let ii = dep.ingredient_index as usize;
        if ii == 0 {
            return Ok(Ingredient::<Database>::maybe_changed_after(&self.interned, &*self, dep, revision));
        }
        if ii <= fc {
            proof {
                self.inputs.lemma_wf_shaped(self.current());
            }
            return Ok(Ingredient::<Database>::maybe_changed_after(&self.inputs, &*self, dep, revision));
        }
        let tfc = self.structs.field_count;
        if ii <= fc + tfc {
            proof {
                match dep.key_index {
                    Some(k) => {
                        if k < self.structs.entries@.len() {
                            assert(self.structs.entries@[k as int].wf(tfc as nat, self.current()));
                        }
                    },
                    None => {},
                }
            }
            return Ok(Ingredient::<Database>::maybe_changed_after(&self.structs, &*self, dep, revision));
        }
        let g = ii - 1 - fc - tfc;
        if g >= self.functions.len() {
            return Ok(true);
        }
        let k = match dep.key_index {
            Some(k) => k,
            None => { return Ok(true); },
        };
        if !self.functions[g].is_memoized() {
            return Ok(true);
        }
        let gk = self.function_key(g, k);
        proof {
            self.lemma_function_of_key(g as int, k);
        }
        let hit = match self.functions[g].find(k) {
            Some(i) => self.functions[g].memos[i].verified_at == self.runtime.revision,
            None => false,
        };
        if !hit {
            match self.runtime.find_frame(gk) {
                Some(_) => { return Ok(true); },
                None => {},
            }
        }
        match self.fetch(p, g, k) {
            Err(e) => Err(e),
            Ok(_) => match self.functions[g].find(k) {
                Some(i) => Ok(self.functions[g].memos[i].changed_at.is_after(revision)),
                None => Ok(true),
            },
        }
    }

    /// Checks, under a frame of its own, whether any dependency of the memo
    /// of function `f` on `key` changed after the memo was last verified;
    /// `Ok(true)` when none did.
    fn revalidate<P: QueryProgram>(&mut self, p: &P, f: usize, key: Id, fk: DatabaseKeyIndex) -> (r: Result<
        bool,
        FetchError,
    >)
        requires
            old(self).wf(),
            f < old(self).functions@.len(),
            fk == old(self).key_of(f as int, key),
            !old(self).runtime.stack_keys().contains(fk),
            old(self).runtime.stack@.len() < MAX_DEPTH,
            old(self).has_memo(f as int, key),
        ensures
            final(self).wf(),
            final(self).same_shape(*old(self)),
            final(self).runtime.revision == old(self).runtime.revision,
            final(self).runtime.stack_keys() == old(self).runtime.stack_keys(),
            final(self).runtime.stack@.len() == old(self).runtime.stack@.len(),
            final(self).keeps_stack_memos(*old(self)),
            final(self).memo_state(fk) == old(self).memo_state(fk),
            final(self).executions >= old(self).executions,
            all_base(*old(self), old(self).memo(f as int, key).dependencies@) ==> r == Ok::<bool, FetchError>(
                !some_base_changed(*old(self), old(self).memo(f as int, key).dependencies@, old(self).memo(f as int, key).verified_at),
            ) && final(self).executions == old(self).executions,
            (forall|d: int| 0 <= d < old(self).memo(f as int, key).dependencies@.len() ==> {
                let dep = #[trigger] old(self).memo(f as int, key).dependencies@[d];
                old(self).settled_dep(dep, old(self).memo(f as int, key).verified_at)
            }) ==> r == Ok::<bool, FetchError>(true) && final(self).executions == old(self).executions
                && final(self).functions == old(self).functions,
        decreases MAX_DEPTH - old(self).runtime.stack@.len(), 1nat,
    {
        let i = match self.functions[f].find(key) {
            Some(i) => i,
            None => { proof { assert(false); } unreached() },
        };
        let verified_at = self.functions[f].memos[i].verified_at;
        let ghost memo = self.memo(f as int, key);
        let mut deps: Vec<DependencyIndex> = Vec::new();
        let n = self.functions[f].memos[i].dependencies.len();
        let mut j: usize = 0;
        while j < n
            invariant
                j <= n,
                n == memo.dependencies@.len(),
                f < self.functions@.len(),
                i < self.functions@[f as int].memos@.len(),
                self.functions@[f as int].memos@[i as int] == memo,
                deps@ == memo.dependencies@.subrange(0, j as int),
            decreases n - j,
        {
            deps.push(self.functions[f].memos[i].dependencies[j]);
            j = j + 1;
            assert(deps@ =~= memo.dependencies@.subrange(0, j as int));
        }
        assert(deps@ =~= memo.dependencies@);
        proof {
            self.lemma_function_of_key(f as int, key);
        }
        let _ = self.runtime.push_query(fk, None);
        let ghost pushed = *self;
        proof {
            lemma_keys_drop_last(self.runtime.stack@);
            assert(self.runtime.stack@.last().key == fk);
            lemma_keys_push(old(self).runtime.stack@, self.runtime.stack@.last());
            assert(self.runtime.stack@ == old(self).runtime.stack@.push(self.runtime.stack@.last()));
            assert(self.runtime.stack_keys().contains(fk));
        }
        assert(self.keeps_stack_memos(*old(self)));
        let mut changed = false;
        let mut j: usize = 0;
        while j < deps.len() && !changed
            invariant
                j <= deps@.len(),
                deps@ == memo.dependencies@,
                verified_at == memo.verified_at,
                memo == old(self).memo(f as int, key),
                self.wf(),
                self.same_shape(*old(self)),
                self.runtime.revision == old(self).runtime.revision,
                self.runtime.stack_keys() == pushed.runtime.stack_keys(),
                self.runtime.stack@.len() == old(self).runtime.stack@.len() + 1,
                self.keeps_stack_memos(pushed),
                pushed.runtime.stack_keys() == old(self).runtime.stack_keys().push(fk),
                pushed.runtime.stack_keys().contains(fk),
                old(self).runtime.stack@.len() < MAX_DEPTH,
                pushed.keeps_stack_memos(*old(self)),
                pushed.memo_state(fk) == old(self).memo_state(fk),
                pushed.executions == old(self).executions,
                pushed.functions == old(self).functions,
                pushed.inputs == old(self).inputs,
                pushed.interned == old(self).interned,
                pushed.structs == old(self).structs,
                self.executions >= old(self).executions,
                all_base(*old(self), memo.dependencies@) ==> (changed <==> exists|d: int| 0 <= d < j && old(self).is_base_dep(
                    #[trigger] memo.dependencies@[d]) && old(self).base_changed_after(memo.dependencies@[d], memo.verified_at))
                    && self.executions == old(self).executions && self.inputs == old(self).inputs
                    && self.interned == old(self).interned && self.structs == old(self).structs
                    && self.functions == old(self).functions,
                (forall|d: int| 0 <= d < memo.dependencies@.len() ==> {
                    let dep = #[trigger] memo.dependencies@[d];
                    old(self).settled_dep(dep, memo.verified_at)
                }) ==> !changed && self.executions == old(self).executions && self.functions == old(self).functions
                    && self.inputs == old(self).inputs && self.interned == old(self).interned
                    && self.structs == old(self).structs,
            decreases deps@.len() - j,
        {
            let ghost before = *self;
            assert(self.runtime.stack_keys().len() == self.runtime.stack@.len());
            assert(deps@[j as int] == memo.dependencies@[j as int]);
            match self.maybe_changed_after(p, deps[j], verified_at) {
                Ok(b) => { changed = b; },
                Err(e) => {
                    assert(self.runtime.stack_keys().len() == self.runtime.stack@.len());
                    proof {
                        Self::lemma_keeps_trans(pushed, before, *self);
                    }
                    let ghost top = *self;
                    let _ = self.runtime.pop_query();
                    proof {
                        lemma_keys_drop_last(top.runtime.stack@);
                        assert(self.runtime.stack_keys() =~= old(self).runtime.stack_keys());
                        assert(pushed.runtime.stack_keys().contains(fk));
                        Self::lemma_keeps_trans(*old(self), pushed, *self);
                    }
                    return Err(e);
                },
            }
            proof {
                Self::lemma_keeps_trans(pushed, before, *self);
            }
            assert(self.runtime.stack_keys().len() == self.runtime.stack@.len());
            j = j + 1;
        }
        let ghost top = *self;
        let _ = self.runtime.pop_query();
        proof {
            lemma_keys_drop_last(top.runtime.stack@);
            assert(self.runtime.stack_keys() =~= old(self).runtime.stack_keys());
            assert(pushed.runtime.stack_keys().contains(fk));
            Self::lemma_keeps_trans(*old(self), pushed, *self);
        }
        Ok(!changed)
    }

    /// Reads function `f` on `key`. A memoized function answers from its
    /// cache where the memo is verified in this revision, or where none of
    /// its dependencies changed since it was verified (checked in the order
    /// of the reads, stopping at the first change); otherwise it runs through
    /// `p` under a frame of its own, and a value equal to the cached one
    /// keeps its old `changed_at`. The read is recorded in the caller's
    /// frame. A volatile function always runs and makes its caller
    /// untracked; a transparent one runs in its caller's frame. A read that
    /// closes a cycle gives, where every participant recovers, the
    /// provisional value of the cycle's first query (its fallback in the
    /// first round), else the cycle. That first query then runs again until
    /// its value settles, at most `FIXPOINT_ROUNDS` times in all, and fails
    /// with the cycle if it does not.
    pub fn fetch<P: QueryProgram>(&mut self, p: &P, f: usize, key: Id) -> (r: Result<u64, FetchError>)
        requires
            old(self).wf(),
            f < old(self).functions@.len(),
        ensures
            final(self).wf(),
            final(self).same_shape(*old(self)),
            final(self).runtime.revision == old(self).runtime.revision,
            final(self).runtime.stack_keys() == old(self).runtime.stack_keys(),
            final(self).keeps_stack_memos(*old(self)),
            final(self).executions >= old(self).executions,
            ({
                let fk = old(self).key_of(f as int, key);
                old(self).functions@[f as int].storage != Storage::Transparent && !old(self).is_hit(f as int, key)
                    && !old(self).runtime.stack_keys().contains(fk) && old(self).runtime.stack@.len() >= MAX_DEPTH
                    ==> (r matches Err(FetchError::TooDeep))
            }),
            ({
                let fk = old(self).key_of(f as int, key);
                let m = old(self).memo(f as int, key);
                &&& old(self).functions@[f as int].memoizes()
                &&& !old(self).is_hit(f as int, key)
                &&& !old(self).runtime.stack_keys().contains(fk)
                &&& old(self).runtime.stack@.len() < MAX_DEPTH
                &&& (!old(self).has_memo(f as int, key) || m.untracked || (all_base(*old(self), m.dependencies@)
                    && some_base_changed(*old(self), m.dependencies@, m.verified_at)))
            }) ==> (old(self).executions < u64::MAX ==> final(self).executions > old(self).executions),
            old(self).is_hit(f as int, key) ==> r == Ok::<u64, FetchError>(old(self).memo(f as int, key).value)
                && final(self).executions == old(self).executions && final(self).functions == old(self).functions
                && final(self).inputs == old(self).inputs && final(self).interned == old(self).interned
                && final(self).structs == old(self).structs,
            ({
                let fk = old(self).key_of(f as int, key);
                old(self).functions@[f as int].storage != Storage::Transparent && !old(self).is_hit(f as int, key)
                    && old(self).runtime.stack_keys().contains(fk) ==> {
                    &&& old(self).all_recover(old(self).cycle_of(fk))
                        ==> r == Ok::<u64, FetchError>(old(self).recovered_value(f as int, fk))
                    &&& !old(self).all_recover(old(self).cycle_of(fk))
                        ==> (r matches Err(FetchError::Cycle(c)) && c.participants@ == old(self).cycle_of(fk))
                }
            }),
            ({
                let fk = old(self).key_of(f as int, key);
                old(self).functions@[f as int].memoizes() && !old(self).runtime.stack_keys().contains(fk)
                    ==> (r matches Ok(v) ==> {
                    &&& final(self).is_hit(f as int, key)
                    &&& final(self).memo(f as int, key).value == v
                    &&& final(self).memo(f as int, key).changed_at == if old(self).has_memo(f as int, key)
                        && old(self).memo(f as int, key).value == v {
                        old(self).memo(f as int, key).changed_at
                    } else {
                        final(self).runtime.revision
                    }
                })
            }),
            ({
                let fk = old(self).key_of(f as int, key);
                let m = old(self).memo(f as int, key);
                &&& !old(self).is_hit(f as int, key)
                &&& old(self).has_memo(f as int, key)
                &&& old(self).functions@[f as int].memoizes()
                &&& !m.untracked
                &&& !old(self).runtime.stack_keys().contains(fk)
                &&& old(self).runtime.stack@.len() < MAX_DEPTH
                &&& forall|d: int| 0 <= d < m.dependencies@.len() ==> {
                    let dep = #[trigger] m.dependencies@[d];
                    old(self).settled_dep(dep, m.verified_at)
                }
            }) ==> r == Ok::<u64, FetchError>(old(self).memo(f as int, key).value)
                && final(self).executions == old(self).executions,
        decreases MAX_DEPTH - old(self).runtime.stack@.len(), 2nat,
    {
        let fk = self.function_key(f, key);
        proof {
            self.lemma_function_of_key(f as int, key);
        }
        if self.functions[f].storage == Storage::Transparent {
            return p.execute(self, f, key);
        }
        let memoized = self.functions[f].is_memoized();
        let found = if !memoized {
            None
        } else {
            self.functions[f].find(key)
        };
        match found {
            Some(i) => {
                if self.functions[f].memos[i].verified_at == self.runtime.revision {
                    let value = self.functions[f].memos[i].value;
                    let changed_at = self.functions[f].memos[i].changed_at;
                    proof {
                        self.functions@[f as int].lemma_memo_stamps(key, self.current());
                    }
                    self.runtime.report_read(fk.as_dependency(), changed_at);
                    return Ok(value);
                }
            },
            None => {},
        }
        match self.runtime.find_frame(fk) {
            Some(_) => {
                return self.cycle_result(f, fk);
            },
            None => {},
        }
        if self.runtime.stack.len() >= MAX_DEPTH {
            return Err(FetchError::TooDeep);
        }
        match found {
            Some(i) => {
                if !self.functions[f].memos[i].untracked {
                    match self.revalidate(p, f, key, fk) {
                        Err(e) => {
                            return Err(e);
                        },
                        Ok(unchanged) => {
                            if unchanged {
                                return Ok(self.reuse_memo(f, key, fk));
                            }
                        },
                    }
                }
            },
            None => {},
        }
        self.execute_and_store(p, f, key, fk)
    }

    /// Marks the memo of function `f` on `key`, whose dependencies showed no
    /// change, as verified in this revision, and hands back its value.
    fn reuse_memo(&mut self, f: usize, key: Id, fk: DatabaseKeyIndex) -> (r: u64)
        requires
            old(self).wf(),
            f < old(self).functions@.len(),
            fk == old(self).key_of(f as int, key),
            !old(self).runtime.stack_keys().contains(fk),
            old(self).has_memo(f as int, key),
        ensures
            final(self).wf(),
            final(self).same_shape(*old(self)),
            final(self).runtime.revision == old(self).runtime.revision,
            final(self).runtime.stack_keys() == old(self).runtime.stack_keys(),
            final(self).keeps_stack_memos(*old(self)),
            final(self).executions == old(self).executions,
            r == old(self).memo(f as int, key).value,
            final(self).has_memo(f as int, key),
            final(self).memo(f as int, key).value == r,
            final(self).memo(f as int, key).changed_at == old(self).memo(f as int, key).changed_at,
            final(self).memo(f as int, key).verified_at == final(self).runtime.revision,
    {
        proof {
            self.lemma_function_of_key(f as int, key);
        }
        let i = match self.functions[f].find(key) {
            Some(i) => i,
            None => { proof { assert(false); } unreached() },
        };
        let value = self.functions[f].memos[i].value;
        let changed_at = self.functions[f].memos[i].changed_at;
        proof {
            self.functions@[f as int].lemma_memo_stamps(key, self.current());
        }
        self.mark_memo_verified(f, i);
        proof {
            self.lemma_function_of_key(f as int, key);
            assert forall|k: DatabaseKeyIndex| #[trigger] old(self).runtime.stack_keys().contains(k)
                implies self.memo_state(k) == old(self).memo_state(k) by {
                assert(k != fk);
            }
        }
        self.runtime.report_read(fk.as_dependency(), changed_at);
        value
    }

    /// Runs function `f` on `key` under a new frame, again while a recovered
    /// cycle closed on it and its value has not settled, and caches the
    /// result; an equal value keeps the old memo's `changed_at`.
    fn execute_and_store<P: QueryProgram>(&mut self, p: &P, f: usize, key: Id, fk: DatabaseKeyIndex) -> (r: Result<
        u64,
        FetchError,
    >)
        requires
            old(self).wf(),
            f < old(self).functions@.len(),
            fk == old(self).key_of(f as int, key),
            !old(self).runtime.stack_keys().contains(fk),
            old(self).runtime.stack@.len() < MAX_DEPTH,
        ensures
            final(self).wf(),
            final(self).same_shape(*old(self)),
            final(self).runtime.revision == old(self).runtime.revision,
            final(self).runtime.stack_keys() == old(self).runtime.stack_keys(),
            final(self).keeps_stack_memos(*old(self)),
            final(self).executions >= old(self).executions,
            old(self).executions < u64::MAX ==> final(self).executions > old(self).executions,
            old(self).functions@[f as int].memoizes() ==> (r matches Ok(v) ==> {
                &&& final(self).is_hit(f as int, key)
                &&& final(self).memo(f as int, key).value == v
                &&& final(self).memo(f as int, key).changed_at == if old(self).has_memo(f as int, key)
                    && old(self).memo(f as int, key).value == v {
                    old(self).memo(f as int, key).changed_at
                } else {
                    final(self).runtime.revision
                }
            }),
    {
        let ghost entry = *self;
        proof {
            self.lemma_function_of_key(f as int, key);
        }
        let (first, first_frame) = self.run_once(p, f, key, fk, None);
        let mut frame = first_frame;
        let mut v = match first {
            Err(e) => { return Err(e); },
            Ok(v) => v,
        };
        let mut rounds: u32 = 1;
        let mut round = next_round(rounds, frame.cycle.len() > 0, None, v);
        while round != Round::Settled
            invariant
                self.wf(),
                self.same_shape(entry),
                self.runtime.revision == entry.runtime.revision,
                self.runtime.stack_keys() == entry.runtime.stack_keys(),
                self.runtime.stack@.len() == entry.runtime.stack@.len(),
                self.keeps_stack_memos(entry),
                self.memo_state(fk) == entry.memo_state(fk),
                self.executions >= entry.executions,
                entry.executions < u64::MAX ==> self.executions > entry.executions,
                entry == *old(self),
                f < self.functions@.len(),
                fk == self.key_of(f as int, key),
                !entry.runtime.stack_keys().contains(fk),
                entry.runtime.stack@.len() < MAX_DEPTH,
                1 <= rounds <= FIXPOINT_ROUNDS,
                round == Round::Again ==> rounds < FIXPOINT_ROUNDS,
            decreases FIXPOINT_ROUNDS - rounds,
        {
            if round == Round::GiveUp {
                return Err(FetchError::Cycle(Cycle { participants: frame.cycle }));
            }
            // The other participants' memos rest on the previous round's
            // value: they are computed again.
            let mut c: usize = 0;
            while c < frame.cycle.len()
                invariant
                    self.wf(),
                    self.same_shape(entry),
                    self.runtime.revision == entry.runtime.revision,
                    self.runtime.stack_keys() == entry.runtime.stack_keys(),
                    self.runtime.stack@.len() == entry.runtime.stack@.len(),
                    self.keeps_stack_memos(entry),
                    self.memo_state(fk) == entry.memo_state(fk),
                    self.executions >= entry.executions,
                    entry.executions < u64::MAX ==> self.executions > entry.executions,
                    f < self.functions@.len(),
                    fk == self.key_of(f as int, key),
                decreases frame.cycle@.len() - c,
            {
                let k = frame.cycle[c];
                if k != fk {
                    match self.runtime.find_frame(k) {
                        Some(_) => {},
                        None => {
                            let ghost kept = *self;
                            self.forget_memo(k);
                            proof {
                                assert forall|k2: DatabaseKeyIndex| #[trigger] entry.runtime.stack_keys().contains(k2)
                                    implies self.memo_state(k2) == entry.memo_state(k2) by {
                                    assert(kept.runtime.stack_keys().contains(k2));
                                    assert(k2 != k);
                                }
                            }
                        },
                    }
                }
                c = c + 1;
            }
            let ghost before = *self;
            let (next, next_frame) = self.run_once(p, f, key, fk, Some(v));
            proof {
                Self::lemma_keeps_trans(entry, before, *self);
            }
            let w = match next {
                Err(e) => { return Err(e); },
                Ok(w) => w,
            };
            rounds = rounds + 1;
            round = next_round(rounds, next_frame.cycle.len() > 0, Some(v), w);
            v = w;
            frame = next_frame;
        }
        proof {
            self.lemma_function_of_key(f as int, key);
        }
        Ok(self.finish_run(f, key, v, frame))
    }

    /// Takes in the value `v` that function `f` returned on `key` and the
    /// frame of that run: marks stale the structs the run no longer created,
    /// and caches the value with what the frame read; a value equal to the
    /// cached one keeps its `changed_at`. A function that does not memoize
    /// caches nothing and makes the caller's frame untracked. The read is
    /// recorded in the caller's frame.
    pub fn finish_run(&mut self, f: usize, key: Id, v: u64, frame: ActiveQuery) -> (r: u64)
        requires
            old(self).wf(),
            f < old(self).functions@.len(),
            !old(self).runtime.stack_keys().contains(old(self).key_of(f as int, key)),
        ensures
            final(self).wf(),
            final(self).same_shape(*old(self)),
            final(self).runtime.revision == old(self).runtime.revision,
            final(self).runtime.stack_keys() == old(self).runtime.stack_keys(),
            final(self).keeps_stack_memos(*old(self)),
            final(self).executions == old(self).executions,
            final(self).inputs == old(self).inputs,
            final(self).interned == old(self).interned,
            r == v,
            old(self).structs.marks_stale(final(self).structs, old(self).key_of(f as int, key), frame.disambiguator),
            forall|k: DatabaseKeyIndex| k != old(self).key_of(f as int, key)
                ==> #[trigger] final(self).memo_state(k) == old(self).memo_state(k),
            !old(self).functions@[f as int].memoizes() ==> final(self).functions == old(self).functions,
            old(self).functions@[f as int].memoizes() ==> {
                &&& final(self).has_memo(f as int, key)
                &&& final(self).memo(f as int, key) == (Memo {
                    key,
                    value: v,
                    dependencies: frame.dependencies,
                    untracked: frame.untracked,
                    changed_at: if old(self).has_memo(f as int, key) && old(self).memo(f as int, key).value == v {
                        old(self).memo(f as int, key).changed_at
                    } else {
                        old(self).runtime.revision
                    },
                    verified_at: old(self).runtime.revision,
                })
            },
    {
        let fk = self.function_key(f, key);
        proof {
            self.lemma_function_of_key(f as int, key);
        }
        self.structs.remove_stale(fk, frame.disambiguator, Ghost(self.current()));
        proof {
            assert(self.structs.field_count == old(self).structs.field_count);
            assert forall|k: DatabaseKeyIndex| #[trigger] self.memo_state(k) == old(self).memo_state(k) by {
                assert(self.function_of(k.ingredient_index) == old(self).function_of(k.ingredient_index));
            }
        }
        if !self.functions[f].is_memoized() {
            let ghost marked = *self;
            self.runtime.report_untracked_read();
            proof {
                assert forall|k: DatabaseKeyIndex| #[trigger] self.memo_state(k) == old(self).memo_state(k) by {
                    assert(marked.memo_state(k) == old(self).memo_state(k));
                }
            }
            return v;
        }
        let current = self.runtime.revision;
        let changed_at = match self.functions[f].find(key) {
            Some(i) => if self.functions[f].memos[i].value == v {
                proof {
                    self.functions@[f as int].lemma_memo_stamps(key, self.current());
                }
                self.functions[f].memos[i].changed_at
            } else {
                current
            },
            None => current,
        };
        let memo = Memo {
            key,
            value: v,
            dependencies: frame.dependencies,
            untracked: frame.untracked,
            changed_at,
            verified_at: current,
        };
        let ghost unstored = *self;
        self.store_memo(f, memo);
        proof {
            self.lemma_function_of_key(f as int, key);
        }
        let ghost stored = *self;
        self.runtime.report_read(fk.as_dependency(), changed_at);
        proof {
            assert forall|k: DatabaseKeyIndex| k != fk implies #[trigger] self.memo_state(k) == old(self).memo_state(k) by {
                assert(stored.memo_state(k) == unstored.memo_state(k));
                assert(unstored.memo_state(k) == old(self).memo_state(k));
            }
            assert forall|k: DatabaseKeyIndex| #[trigger] old(self).runtime.stack_keys().contains(k)
                implies self.memo_state(k) == old(self).memo_state(k) by {
                assert(k != fk);
            }
        }
        v
    }

    /// Drops the memo of the datum `k`, if `k` is a function's.
    fn forget_memo(&mut self, k: DatabaseKeyIndex)
        requires
            old(self).wf(),
        ensures
            final(self).wf(),
            final(self).same_shape(*old(self)),
            final(self).runtime == old(self).runtime,
            final(self).executions == old(self).executions,
            forall|k2: DatabaseKeyIndex| k2 != k ==> #[trigger] final(self).memo_state(k2) == old(self).memo_state(k2),
    {
        let ii = k.ingredient_index as usize;
        let first = 1 + self.inputs.field_count + self.structs.field_count;
        if ii < first || ii - first >= self.functions.len() {
            return;
        }
        let g = ii - first;
        let mut fi = FunctionIngredient::new(0, Storage::Memoized, CycleRecoveryStrategy::Panic, 0);
        self.functions.set_and_swap(g, &mut fi);
        assert(fi == old(self).functions@[g as int]);
        assert(fi.wf(self.current()));
        fi.forget(k.key_index, Ghost(self.current()));
        self.functions.set_and_swap(g, &mut fi);
        proof {
            assert forall|h: int| 0 <= h < self.functions@.len() implies {
                &&& (#[trigger] self.functions@[h]).wf(self.current())
                &&& self.functions@[h].index == self.function_ingredient(h)
            } by {
                assert(old(self).functions@[h].wf(self.current()));
            }
            assert forall|k2: DatabaseKeyIndex| k2 != k implies #[trigger] self.memo_state(k2) == old(self).memo_state(k2) by {
                match self.function_of(k2.ingredient_index) {
                    Some(h) => {
                        if h == g {
                            assert(k2.key_index != k.key_index);
                        }
                    },
                    None => {},
                }
            }
        }
    }

    /// Runs function `f` on `key` once, under a new frame that carries
    /// `provisional`, and hands back the result with the popped frame.
    fn run_once<P: QueryProgram>(&mut self, p: &P, f: usize, key: Id, fk: DatabaseKeyIndex, provisional: Option<u64>) -> (r: (
        Result<u64, FetchError>,
        ActiveQuery,
    ))
        requires
            old(self).wf(),
            f < old(self).functions@.len(),
            fk == old(self).key_of(f as int, key),
            !old(self).runtime.stack_keys().contains(fk),
            old(self).runtime.stack@.len() < MAX_DEPTH,
        ensures
            final(self).wf(),
            final(self).same_shape(*old(self)),
            final(self).runtime.revision == old(self).runtime.revision,
            final(self).runtime.stack_keys() == old(self).runtime.stack_keys(),
            final(self).runtime.stack@.len() == old(self).runtime.stack@.len(),
            final(self).keeps_stack_memos(*old(self)),
            final(self).memo_state(fk) == old(self).memo_state(fk),
            final(self).executions >= old(self).executions,
            old(self).executions < u64::MAX ==> final(self).executions > old(self).executions,
    {
        let ghost entry = *self;
        let _ = self.runtime.push_query(fk, provisional);
        if self.executions < u64::MAX {
            self.executions = self.executions + 1;
        }
        let ghost pushed = *self;
        proof {
            lemma_keys_drop_last(self.runtime.stack@);
            lemma_keys_push(entry.runtime.stack@, self.runtime.stack@.last());
            assert(self.runtime.stack@ == entry.runtime.stack@.push(self.runtime.stack@.last()));
        }
        let result = p.execute(self, f, key);
        let ghost top = *self;
        let frame = self.runtime.pop_query();
        proof {
            lemma_keys_drop_last(top.runtime.stack@);
            assert(self.runtime.stack_keys() =~= entry.runtime.stack_keys());
            assert(pushed.runtime.stack_keys().contains(fk));
            assert(self.memo_state(fk) == entry.memo_state(fk));
            Self::lemma_keeps_trans(entry, pushed, *self);
        }
        (result, frame)
    }

    /// Creates, inside the active query, the struct with the given field
    /// values. Its id is that of the struct the same query created at the
    /// same point of an earlier run, if any; such a struct keeps the stamp of
    /// each field whose value is unchanged.
    pub fn new_tracked_struct(&mut self, fields: Vec<u64>) -> (r: Id)
        requires
            old(self).wf(),
            old(self).runtime.stack@.len() > 0,
            old(self).runtime.stack@.last().disambiguator < u32::MAX,
            fields@.len() == old(self).structs.field_count,
            old(self).structs.entries@.len() < u32::MAX,
        ensures
            final(self).wf(),
            final(self).same_shape(*old(self)),
            final(self).runtime.revision == old(self).runtime.revision,
            final(self).runtime.stack_keys() == old(self).runtime.stack_keys(),
            final(self).keeps_stack_memos(*old(self)),
            final(self).functions == old(self).functions,
            r < final(self).structs.entries@.len(),
            final(self).structs.entries@[r as int].creator == old(self).runtime.stack@.last().key,
            final(self).structs.entries@[r as int].disambiguator == old(self).runtime.stack@.last().disambiguator,
            final(self).structs.entries@[r as int].fields@ == fields@,
            !final(self).structs.entries@[r as int].stale,
            forall|i: int| 0 <= i < old(self).structs.entries@.len() ==> (old(self).structs.entries@[i].creator
                == old(self).runtime.stack@.last().key && old(self).structs.entries@[i].disambiguator
                == old(self).runtime.stack@.last().disambiguator) ==> r == i,
    {
        let (creator, disambiguator) = self.runtime.next_disambiguator();
        let current = self.runtime.revision;
        let r = self.structs.create(creator, disambiguator, fields, current);
        proof {
            if r < old(self).structs.entries@.len() {
                assert forall|i: int| 0 <= i < old(self).structs.entries@.len() && (old(self).structs.entries@[i].creator
                    == creator && old(self).structs.entries@[i].disambiguator == disambiguator) implies r == i by {
                    if i != r {
                        if i < r {
                            assert(!old(self).structs.entries@[i].same_identity(old(self).structs.entries@[r as int]));
                        } else {
                            assert(!old(self).structs.entries@[r as int].same_identity(old(self).structs.entries@[i]));
                        }
                    }
                }
            }
        }
        r
    }

    /// Reads one field of a tracked struct, recording the read of that field
    /// alone in the active query. A stale struct cannot be read.
    pub fn tracked_struct_field(&mut self, id: Id, field: usize) -> (r: Result<u64, StaleStruct>)
        requires
            old(self).wf(),
            id < old(self).structs.entries@.len(),
            field < old(self).structs.field_count,
        ensures
            final(self).wf(),
            final(self).same_shape(*old(self)),
            final(self).runtime.revision == old(self).runtime.revision,
            final(self).runtime.stack_keys() == old(self).runtime.stack_keys(),
            final(self).keeps_stack_memos(*old(self)),
            final(self).functions == old(self).functions,
            final(self).structs == old(self).structs,
            r is Err <==> old(self).structs.entries@[id as int].stale,
            r matches Ok(v) ==> v == old(self).structs.value_of(id as int, field as int),
            r matches Err(e) ==> e.id == id,
            r is Ok && old(self).runtime.stack@.len() > 0 ==> old(self).runtime.stack@.last().then_read(
                final(self).runtime.stack@.last(),
                DependencyIndex { ingredient_index: (1 + old(self).inputs.field_count + field) as u32, key_index: Some(id) },
                old(self).structs.entries@[id as int].changed_at@[field as int],
            ),
            r is Err ==> final(self).runtime == old(self).runtime,
    {
        if self.structs.entries[id as usize].stale {
            return Err(StaleStruct { id });
        }
        proof {
            assert(self.structs.entries@[id as int].wf(self.structs.field_count as nat, self.current()));
        }
        let (value, stamp) = self.structs.field(id, field);
        let dep = DependencyIndex { ingredient_index: (1 + self.inputs.field_count + field) as u32, key_index: Some(id) };
        self.runtime.report_read(dep, stamp);
        Ok(value)
    }
}

} // verus!
