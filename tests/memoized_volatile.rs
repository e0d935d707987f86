use salsa::cycle::CycleRecoveryStrategy;
use salsa::function::Storage;
use salsa::database::{Database, FetchError, QueryProgram};
use salsa::key::Id;
use std::cell::{Cell, RefCell};

const MEMOIZED2: usize = 0;
const MEMOIZED1: usize = 1;
const VOLATILE: usize = 2;

#[derive(Default)]
struct Context {
    log: RefCell<Vec<String>>,
    clock: Cell<u64>,
}

impl Context {
    fn assert_log(&self, expected: &[&str]) {
        let got: Vec<String> = self.log.borrow_mut().drain(..).collect();
        let expected: Vec<String> = expected.iter().map(|s| s.to_string()).collect();
        assert_eq!(got, expected);
    }
}

impl QueryProgram for Context {
    fn execute(&self, db: &mut Database, function: usize, _key: Id) -> Result<u64, FetchError> {
        match function {
            MEMOIZED2 => {
                self.log.borrow_mut().push("Memoized2 invoked".to_string());
                db.fetch(self, MEMOIZED1, 0)
            }
            MEMOIZED1 => {
                self.log.borrow_mut().push("Memoized1 invoked".to_string());
                let v = db.fetch(self, VOLATILE, 0)?;
                Ok(v / 2)
            }
            _ => {
                self.log.borrow_mut().push("Volatile invoked".to_string());
                let t = self.clock.get();
                self.clock.set(t + 1);
                Ok(t)
            }
        }
    }
}

fn setup() -> Database {
    let mut db = Database::new(0, 0);
    assert_eq!(db.add_function(Storage::Memoized, CycleRecoveryStrategy::Panic, 0), MEMOIZED2);
    assert_eq!(db.add_function(Storage::Memoized, CycleRecoveryStrategy::Panic, 0), MEMOIZED1);
    assert_eq!(db.add_function(Storage::Volatile, CycleRecoveryStrategy::Panic, 0), VOLATILE);
    db
}

#[test]
fn volatile_x2() {
    let query = Context::default();
    let mut db = setup();

    // Invoking volatile twice will simply execute twice.
    db.fetch(&query, VOLATILE, 0).unwrap();
    db.fetch(&query, VOLATILE, 0).unwrap();
    query.assert_log(&["Volatile invoked", "Volatile invoked"]);
}

#[test]
fn revalidate() {
    let query = Context::default();
    let mut db = setup();

    db.fetch(&query, MEMOIZED2, 0).unwrap();
    query.assert_log(&["Memoized2 invoked", "Memoized1 invoked", "Volatile invoked"]);

    db.fetch(&query, MEMOIZED2, 0).unwrap();
    query.assert_log(&[]);

    // Second generation: volatile will change (to 1) but memoized1
    // will not (still 0, as 1/2 = 0)
    db.advance_revision();

    db.fetch(&query, MEMOIZED2, 0).unwrap();
    query.assert_log(&["Memoized1 invoked", "Volatile invoked"]);

    db.fetch(&query, MEMOIZED2, 0).unwrap();
    query.assert_log(&[]);

    // Third generation: volatile will change (to 2) and memoized1
    // will too (to 1).  Therefore, after validating that Memoized1
    // changed, we now invoke Memoized2.
    db.advance_revision();

    db.fetch(&query, MEMOIZED2, 0).unwrap();
    query.assert_log(&["Memoized1 invoked", "Volatile invoked", "Memoized2 invoked"]);

    db.fetch(&query, MEMOIZED2, 0).unwrap();
    query.assert_log(&[]);
}
