use salsa::cycle::CycleRecoveryStrategy;
use salsa::function::Storage;
use salsa::database::{Database, FetchError, QueryProgram};
use salsa::ingredient::{Ingredient, IngredientRequiresReset, QueryOrigin};
use salsa::input::InputIngredient;
use salsa::interned::{InternedIngredient, StaleId};
use salsa::key::{DatabaseKeyIndex, DependencyIndex, Id};
use salsa::revision::Revision;
use salsa::tracked_struct::StaleStruct;
use salsa::function::FunctionIngredient;
use std::cell::RefCell;

/// Function 0 reads function 1 on the same key and adds one; function 1
/// reads function 0 and adds one.
struct PingPong;

impl QueryProgram for PingPong {
    fn execute(&self, db: &mut Database, function: usize, key: Id) -> Result<u64, FetchError> {
        let other = 1 - function;
        let v = db.fetch(self, other, key)?;
        Ok(v + 1)
    }
}

fn ping_pong(a: CycleRecoveryStrategy, b: CycleRecoveryStrategy) -> Database {
    let mut db = Database::new(0, 0);
    db.add_function(Storage::Memoized, a, 7);
    db.add_function(Storage::Memoized, b, 9);
    db
}

#[test]
fn cycle_with_panic_participants_reports_them_in_order() {
    let mut db = ping_pong(CycleRecoveryStrategy::Panic, CycleRecoveryStrategy::Panic);
    match db.fetch(&PingPong, 0, 0) {
        Err(FetchError::Cycle(c)) => {
            let a = DatabaseKeyIndex { ingredient_index: 1, key_index: 0 };
            let b = DatabaseKeyIndex { ingredient_index: 2, key_index: 0 };
            assert_eq!(c.participants, vec![a, b]);
        }
        other => panic!("expected a cycle, got {:?}", other),
    }
    assert!(!db.runtime.is_active());
}

#[test]
fn cycle_with_one_panic_participant_is_an_error() {
    let mut db = ping_pong(CycleRecoveryStrategy::Fallback, CycleRecoveryStrategy::Panic);
    assert!(matches!(db.fetch(&PingPong, 0, 0), Err(FetchError::Cycle(_))));
}

#[test]
fn recovered_cycle_that_never_settles_is_an_error() {
    let mut db = ping_pong(CycleRecoveryStrategy::Fallback, CycleRecoveryStrategy::Fallback);
    // Each round adds two to the value of function 0: it never settles.
    match db.fetch(&PingPong, 0, 0) {
        Err(FetchError::Cycle(c)) => assert_eq!(c.participants.len(), 2),
        other => panic!("expected a cycle, got {:?}", other),
    }
    assert_eq!(db.executions, 16);
}

/// Function 0 is the smaller of function 1 and 5; function 1 is function 0.
#[derive(Default)]
struct Settling {
    log: RefCell<Vec<usize>>,
}

impl QueryProgram for Settling {
    fn execute(&self, db: &mut Database, function: usize, key: Id) -> Result<u64, FetchError> {
        self.log.borrow_mut().push(function);
        if function == 0 {
            Ok(db.fetch(self, 1, key)?.min(5))
        } else {
            db.fetch(self, 0, key)
        }
    }
}

#[test]
fn recovered_cycle_runs_until_the_value_settles() {
    let s = Settling::default();
    let mut db = ping_pong(CycleRecoveryStrategy::Fallback, CycleRecoveryStrategy::Fallback);
    // Round 1: 1 reads the fallback 7, so 0 = 5. Round 2: 1 reads 5, 0 = 5.
    assert_eq!(db.fetch(&s, 0, 0).unwrap(), 5);
    assert_eq!(s.log.borrow_mut().drain(..).collect::<Vec<_>>(), vec![0, 1, 0, 1]);
    assert_eq!(db.fetch(&s, 1, 0).unwrap(), 5);
    assert!(s.log.borrow_mut().is_empty());
}

#[test]
fn interning_is_stable_within_a_generation() {
    let mut db = Database::new(0, 0);
    let a = db.intern(5);
    let b = db.intern(5);
    let c = db.intern(6);
    assert_eq!(a, b);
    assert_ne!(a, c);
    assert_eq!(db.lookup_interned(a), Ok(5));
    assert_eq!(db.lookup_interned(c), Ok(6));
}

#[test]
fn interned_ids_of_an_elapsed_generation_are_stale() {
    let mut db = Database::new(0, 0);
    let a = db.intern(5);
    db.advance_revision();
    assert_eq!(db.lookup_interned(a), Err(StaleId { id: a }));
    let b = db.intern(5);
    assert_ne!(a, b);
    assert_eq!(b.generation, a.generation + 1);
    assert_eq!(db.lookup_interned(b), Ok(5));
}

/// Function 0 reads field 0 of its input modulo 2; function 1 adds 100 to
/// function 0.
#[derive(Default)]
struct Parity {
    log: RefCell<Vec<usize>>,
}

impl QueryProgram for Parity {
    fn execute(&self, db: &mut Database, function: usize, key: Id) -> Result<u64, FetchError> {
        self.log.borrow_mut().push(function);
        if function == 0 {
            Ok(db.input_field(key, 0) % 2)
        } else {
            Ok(db.fetch(self, 0, key)? + 100)
        }
    }
}

#[test]
fn equal_result_is_backdated_and_spares_its_readers() {
    let p = Parity::default();
    let mut db = Database::new(1, 0);
    db.add_function(Storage::Memoized, CycleRecoveryStrategy::Panic, 0);
    db.add_function(Storage::Memoized, CycleRecoveryStrategy::Panic, 0);
    let input = db.new_input(vec![2]);
    assert_eq!(db.fetch(&p, 1, input).unwrap(), 100);
    assert_eq!(p.log.borrow_mut().drain(..).collect::<Vec<_>>(), vec![1, 0]);

    // The parity stays 0: function 0 runs again, function 1 does not.
    db.set_input_field(input, 0, 4);
    assert_eq!(db.fetch(&p, 1, input).unwrap(), 100);
    assert_eq!(p.log.borrow_mut().drain(..).collect::<Vec<_>>(), vec![0]);
    let memo = &db.functions[0].memos[0];
    assert_eq!(memo.changed_at.number, 1);
    assert_eq!(memo.verified_at.number, 2);

    // The same value again still stamps the field.
    db.set_input_field(input, 0, 4);
    assert_eq!(db.fetch(&p, 1, input).unwrap(), 100);
    assert_eq!(p.log.borrow_mut().drain(..).collect::<Vec<_>>(), vec![0]);

    // The parity changes: function 0 runs while function 1 is validated,
    // then function 1 runs.
    db.set_input_field(input, 0, 5);
    assert_eq!(db.fetch(&p, 1, input).unwrap(), 101);
    assert_eq!(p.log.borrow_mut().drain(..).collect::<Vec<_>>(), vec![0, 1]);
}

/// Function 0 creates two structs from field 0 of its input and returns the
/// id of the second.
struct Constructor;

impl QueryProgram for Constructor {
    fn execute(&self, db: &mut Database, _function: usize, key: Id) -> Result<u64, FetchError> {
        let v = db.input_field(key, 0);
        let _t0 = db.new_tracked_struct(vec![v, 0]);
        let t1 = db.new_tracked_struct(vec![v, 1]);
        Ok(t1 as u64)
    }
}

#[test]
fn tracked_struct_ids_are_stable_across_revisions() {
    let mut db = Database::new(1, 2);
    db.add_function(Storage::Memoized, CycleRecoveryStrategy::Panic, 0);
    let input = db.new_input(vec![3]);
    assert_eq!(db.fetch(&Constructor, 0, input).unwrap(), 1);
    assert_eq!(db.structs.entries.len(), 2);
    assert_eq!(db.structs.entries[0].fields, vec![3, 0]);
    assert_eq!(db.structs.entries[1].disambiguator, 1);

    db.advance_revision();
    let runs = db.executions;
    assert_eq!(db.fetch(&Constructor, 0, input).unwrap(), 1);
    assert_eq!(db.executions, runs);

    // Running the constructor again hands out the same ids.
    db.set_input_field(input, 0, 3);
    assert_eq!(db.fetch(&Constructor, 0, input).unwrap(), 1);
    assert_eq!(db.executions, runs + 1);
    assert_eq!(db.structs.entries.len(), 2);
    assert_eq!(db.structs.entries[1].changed_at[0].number, 1);

    db.set_input_field(input, 0, 8);
    assert_eq!(db.fetch(&Constructor, 0, input).unwrap(), 1);
    assert_eq!(db.structs.entries.len(), 2);
    assert_eq!(db.structs.entries[1].fields, vec![8, 1]);
    assert_eq!(db.structs.entries[1].changed_at[0].number, 4);
    assert_eq!(db.structs.entries[1].changed_at[1].number, 1);
}

#[test]
fn ingredients_answer_from_their_stamps() {
    let mut db = Database::new(2, 0);
    let id = db.new_input(vec![1, 2]);
    db.set_input_field(id, 1, 5);
    let r1 = Revision { number: 1 };
    let field0 = DependencyIndex { ingredient_index: 1, key_index: Some(id) };
    let field1 = DependencyIndex { ingredient_index: 2, key_index: Some(id) };
    assert!(!Ingredient::<Database>::maybe_changed_after(&db.inputs, &db, field0, r1));
    assert!(Ingredient::<Database>::maybe_changed_after(&db.inputs, &db, field1, r1));
    assert!(matches!(Ingredient::<Database>::origin(&db.inputs, id), Some(QueryOrigin::BaseInput)));
    assert!(InternedIngredient::RESET_ON_NEW_REVISION);
    assert!(!InputIngredient::RESET_ON_NEW_REVISION);
    assert!(!FunctionIngredient::RESET_ON_NEW_REVISION);
}

#[test]
fn function_origin_lists_what_was_read() {
    let p = Parity::default();
    let mut db = Database::new(1, 0);
    db.add_function(Storage::Memoized, CycleRecoveryStrategy::Panic, 0);
    db.add_function(Storage::Memoized, CycleRecoveryStrategy::Panic, 0);
    let input = db.new_input(vec![7]);
    assert_eq!(db.fetch(&p, 1, input).unwrap(), 101);
    match Ingredient::<Database>::origin(&db.functions[1], input) {
        Some(QueryOrigin::Derived(deps)) => {
            assert_eq!(deps, vec![DependencyIndex { ingredient_index: 2, key_index: Some(input) }]);
        }
        other => panic!("unexpected origin {:?}", other),
    }
    let r1 = Revision { number: 1 };
    let dep = DependencyIndex { ingredient_index: 2, key_index: Some(input) };
    assert!(!Ingredient::<Database>::maybe_changed_after(&db.functions[0], &db, dep, r1));
}

/// Function 0 is transparent and reads field 0 of its input; function 1
/// reads function 0 twice.
#[derive(Default)]
struct Passthrough {
    log: RefCell<Vec<usize>>,
}

impl QueryProgram for Passthrough {
    fn execute(&self, db: &mut Database, function: usize, key: Id) -> Result<u64, FetchError> {
        self.log.borrow_mut().push(function);
        if function == 0 {
            Ok(db.input_field(key, 0) * 10)
        } else {
            Ok(db.fetch(self, 0, key)? + db.fetch(self, 0, key)?)
        }
    }
}

#[test]
fn transparent_function_runs_every_time_and_hands_its_reads_up() {
    let p = Passthrough::default();
    let mut db = Database::new(1, 0);
    db.add_function(Storage::Transparent, CycleRecoveryStrategy::Panic, 0);
    db.add_function(Storage::Memoized, CycleRecoveryStrategy::Panic, 0);
    let input = db.new_input(vec![2]);
    assert_eq!(db.fetch(&p, 1, input).unwrap(), 40);
    assert_eq!(p.log.borrow_mut().drain(..).collect::<Vec<_>>(), vec![1, 0, 0]);
    assert!(db.functions[0].memos.is_empty());
    let deps = &db.functions[1].memos[0].dependencies;
    assert_eq!(deps.len(), 2);
    assert_eq!(deps[0], DependencyIndex { ingredient_index: 1, key_index: Some(input) });

    db.advance_revision();
    assert_eq!(db.fetch(&p, 1, input).unwrap(), 40);
    assert!(p.log.borrow_mut().is_empty());
}

/// Function 0 creates as many structs as field 0 of its input says; each
/// holds its position and field 1 of the input. Function 1 reads field 0 of
/// struct 0.
#[derive(Default)]
struct Maker {
    log: RefCell<Vec<usize>>,
}

impl QueryProgram for Maker {
    fn execute(&self, db: &mut Database, function: usize, key: Id) -> Result<u64, FetchError> {
        self.log.borrow_mut().push(function);
        if function == 0 {
            let n = db.input_field(key, 0);
            let extra = db.input_field(key, 1);
            for i in 0..n {
                db.new_tracked_struct(vec![i, extra]);
            }
            Ok(n)
        } else {
            Ok(db.tracked_struct_field(0, 0).unwrap())
        }
    }
}

#[test]
fn struct_no_longer_created_becomes_stale() {
    let m = Maker::default();
    let mut db = Database::new(2, 2);
    db.add_function(Storage::Memoized, CycleRecoveryStrategy::Panic, 0);
    db.add_function(Storage::Memoized, CycleRecoveryStrategy::Panic, 0);
    let input = db.new_input(vec![2, 0]);
    assert_eq!(db.fetch(&m, 0, input).unwrap(), 2);
    assert_eq!(db.tracked_struct_field(1, 0), Ok(1));

    db.set_input_field(input, 0, 1);
    assert_eq!(db.fetch(&m, 0, input).unwrap(), 1);
    assert_eq!(db.tracked_struct_field(0, 0), Ok(0));
    assert_eq!(db.tracked_struct_field(1, 0), Err(StaleStruct { id: 1 }));

    // Created again, it is live again under the same id.
    db.set_input_field(input, 0, 2);
    assert_eq!(db.fetch(&m, 0, input).unwrap(), 2);
    assert_eq!(db.tracked_struct_field(1, 0), Ok(1));
}

#[test]
fn struct_field_reads_are_tracked_per_field() {
    let m = Maker::default();
    let mut db = Database::new(2, 2);
    db.add_function(Storage::Memoized, CycleRecoveryStrategy::Panic, 0);
    db.add_function(Storage::Memoized, CycleRecoveryStrategy::Panic, 0);
    let input = db.new_input(vec![1, 5]);
    assert_eq!(db.fetch(&m, 0, input).unwrap(), 1);
    assert_eq!(db.fetch(&m, 1, 0).unwrap(), 0);
    m.log.borrow_mut().clear();

    // Field 1 of struct 0 changes, field 0 does not: the reader is reused.
    db.set_input_field(input, 1, 6);
    assert_eq!(db.fetch(&m, 0, input).unwrap(), 1);
    assert_eq!(db.structs.entries[0].fields, vec![0, 6]);
    assert_eq!(db.fetch(&m, 1, 0).unwrap(), 0);
    assert_eq!(m.log.borrow_mut().drain(..).collect::<Vec<_>>(), vec![0]);
}

#[test]
fn ingredient_strategy_and_reset() {
    let mut db = Database::new(0, 0);
    db.add_function(Storage::Memoized, CycleRecoveryStrategy::Fallback, 3);
    assert_eq!(
        Ingredient::<Database>::cycle_recovery_strategy(&db.functions[0]),
        CycleRecoveryStrategy::Fallback
    );
    assert_eq!(Ingredient::<Database>::cycle_recovery_strategy(&db.interned), CycleRecoveryStrategy::Panic);
    let mut table = InternedIngredient::new();
    table.intern(4, Revision::first());
    Ingredient::<Database>::reset_for_new_revision(&mut table);
    assert_eq!(table.generation, 1);
    assert!(table.values.is_empty());
    assert!(Ingredient::<Database>::origin(&table, 0).is_none());
}
