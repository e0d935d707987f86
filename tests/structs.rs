use salsa::cycle::CycleRecoveryStrategy;
use salsa::database::{Database, FetchError, QueryProgram};
use salsa::function::Storage;
use salsa::ingredient::{Ingredient, IngredientRequiresReset};
use salsa::key::{DependencyIndex, Id};
use salsa::revision::Revision;
use salsa::tracked_struct::TrackedIngredient;

/// Field 1 of a struct names the next struct of a list: `0` for none, the
/// id plus one otherwise.
const NONE: u64 = 0;

/// Creates a list of two structs over the input and returns the head.
struct CreateTrackedList;

impl QueryProgram for CreateTrackedList {
    fn execute(&self, db: &mut Database, _function: usize, key: Id) -> Result<u64, FetchError> {
        let _field = db.input_field(key, 0);
        let t0 = db.new_tracked_struct(vec![key as u64, NONE]);
        let t1 = db.new_tracked_struct(vec![key as u64, t0 as u64 + 1]);
        Ok(t1 as u64)
    }
}

#[test]
fn tracked_with_struct_db_execute() {
    let mut db = Database::new(1, 2);
    db.add_function(Storage::Memoized, CycleRecoveryStrategy::Panic, 0);
    let input = db.new_input(vec![u64::from_le_bytes(*b"foo\0\0\0\0\0")]);
    let t0 = db.fetch(&CreateTrackedList, 0, input).unwrap();
    let t1 = db.fetch(&CreateTrackedList, 0, input).unwrap();
    assert_eq!(t0, 1);
    assert_eq!(db.structs.entries[1].fields, vec![0, 1]);
    assert_eq!(db.structs.entries[0].fields, vec![0, NONE]);
    assert_eq!(db.inputs.rows[0].fields, vec![u64::from_le_bytes(*b"foo\0\0\0\0\0")]);
    assert_eq!(t0, t1);
}

fn is_send_sync<T: Send + Sync>(t: T) -> T {
    t
}

/// Interns the input's field and creates a struct holding the interned id.
struct Test;

impl QueryProgram for Test {
    fn execute(&self, db: &mut Database, _function: usize, key: Id) -> Result<u64, FetchError> {
        let field = db.input_field(key, 0);
        let interned = is_send_sync(db.intern(field));
        let tracked_struct = is_send_sync(db.new_tracked_struct(vec![interned.index as u64]));
        Ok(tracked_struct as u64)
    }
}

#[test]
fn is_send_sync_execute() {
    let mut db = is_send_sync(Database::new(1, 1));
    db.add_function(Storage::Memoized, CycleRecoveryStrategy::Panic, 0);
    let input = is_send_sync(db.new_input(vec![u64::from_le_bytes(*b"Hello\0\0\0")]));
    assert_eq!(db.fetch(&Test, 0, input).unwrap(), 0);
    assert_eq!(db.interned.values, vec![u64::from_le_bytes(*b"Hello\0\0\0")]);
}

#[test]
fn struct_storage_answers_per_field() {
    let mut db = Database::new(1, 2);
    db.add_function(Storage::Memoized, CycleRecoveryStrategy::Panic, 0);
    let input = db.new_input(vec![9]);
    assert_eq!(db.fetch(&CreateTrackedList, 0, input).unwrap(), 1);
    db.set_input_field(input, 0, 9);
    assert_eq!(db.fetch(&CreateTrackedList, 0, input).unwrap(), 1);
    let r1 = Revision { number: 1 };
    // Fields of struct 0 sit at ingredients 2 and 3.
    let field0 = DependencyIndex { ingredient_index: 2, key_index: Some(0) };
    let missing = DependencyIndex { ingredient_index: 2, key_index: Some(5) };
    assert_eq!(db.structs.first_ingredient, 2);
    assert!(!Ingredient::<Database>::maybe_changed_after(&db.structs, &db, field0, r1));
    assert!(Ingredient::<Database>::maybe_changed_after(&db.structs, &db, missing, r1));
    assert!(!TrackedIngredient::RESET_ON_NEW_REVISION);
}

#[test]
fn removing_a_stale_output_tombstones_it() {
    let mut db = Database::new(1, 2);
    db.add_function(Storage::Memoized, CycleRecoveryStrategy::Panic, 0);
    let input = db.new_input(vec![1]);
    assert_eq!(db.fetch(&CreateTrackedList, 0, input).unwrap(), 1);
    let creator = db.function_key(0, input);
    let mut structs = std::mem::replace(&mut db.structs, TrackedIngredient::new(0, 0));
    // Another query's key leaves it alone.
    let other = db.function_key(0, input + 1);
    Ingredient::<Database>::remove_stale_output(&mut structs, &db, other, 1);
    assert!(!structs.entries[1].stale);
    Ingredient::<Database>::remove_stale_output(&mut structs, &db, creator, 1);
    assert!(structs.entries[1].stale);
    assert!(!structs.entries[0].stale);
    db.structs = structs;
    assert!(db.tracked_struct_field(1, 0).is_err());
    assert_eq!(db.tracked_struct_field(0, 0), Ok(0));
}
