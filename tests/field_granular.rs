use salsa::cycle::CycleRecoveryStrategy;
use salsa::function::Storage;
use salsa::database::{Database, FetchError, QueryProgram};
use salsa::key::Id;
use std::cell::RefCell;

const X: usize = 0;
const Y: usize = 1;
const RESULT_DEPENDS_ON_X: usize = 0;
const RESULT_DEPENDS_ON_Y: usize = 1;

#[derive(Default)]
struct Logger {
    log: RefCell<Vec<String>>,
}

impl Logger {
    fn take(&self) -> Vec<String> {
        self.log.borrow_mut().drain(..).collect()
    }
}

impl QueryProgram for Logger {
    fn execute(&self, db: &mut Database, function: usize, key: Id) -> Result<u64, FetchError> {
        if function == RESULT_DEPENDS_ON_X {
            let x = db.input_field(key, X);
            let y = db.inputs.rows[key as usize].fields[Y];
            self.log.borrow_mut().push(format!("result_depends_on_x(x: {}, y: {})", x, y));
            Ok(x + 1)
        } else {
            let y = db.input_field(key, Y);
            self.log.borrow_mut().push(format!("result_depends_on_y(y: {})", y));
            Ok(y - 1)
        }
    }
}

fn setup() -> Database {
    let mut db = Database::new(2, 0);
    db.add_function(Storage::Memoized, CycleRecoveryStrategy::Panic, 0);
    db.add_function(Storage::Memoized, CycleRecoveryStrategy::Panic, 0);
    db
}

#[test]
fn expect_reuse_field_x_of_an_input_changes_but_fn_depends_on_field_y_execute() {
    // result_depends_on_x = x + 1
    // result_depends_on_y = y - 1
    let logger = Logger::default();
    let mut db = setup();

    let input = db.new_input(vec![22, 33]);
    assert_eq!(db.fetch(&logger, RESULT_DEPENDS_ON_X, input).unwrap(), 23);
    assert_eq!(logger.take(), vec!["result_depends_on_x(x: 22, y: 33)".to_string()]);

    assert_eq!(db.fetch(&logger, RESULT_DEPENDS_ON_Y, input).unwrap(), 32);
    assert_eq!(logger.take(), vec!["result_depends_on_y(y: 33)".to_string()]);

    db.set_input_field(input, X, 23);
    // input x changes, so result depends on x needs to be recomputed;
    assert_eq!(db.fetch(&logger, RESULT_DEPENDS_ON_X, input).unwrap(), 24);
    assert_eq!(logger.take(), vec!["result_depends_on_x(x: 23, y: 33)".to_string()]);

    // input y is the same, so result depends on y
    // does not need to be recomputed;
    assert_eq!(db.fetch(&logger, RESULT_DEPENDS_ON_Y, input).unwrap(), 32);
    assert!(logger.take().is_empty());
}

#[test]
fn reread_in_same_revision_runs_nothing() {
    let logger = Logger::default();
    let mut db = setup();
    let input = db.new_input(vec![1, 2]);
    assert_eq!(db.fetch(&logger, RESULT_DEPENDS_ON_X, input).unwrap(), 2);
    let runs = db.executions;
    assert_eq!(db.fetch(&logger, RESULT_DEPENDS_ON_X, input).unwrap(), 2);
    assert_eq!(db.executions, runs);
    assert_eq!(logger.take().len(), 1);
}

#[test]
fn unrelated_revision_reuses_without_running() {
    let logger = Logger::default();
    let mut db = setup();
    let input = db.new_input(vec![5, 9]);
    assert_eq!(db.fetch(&logger, RESULT_DEPENDS_ON_Y, input).unwrap(), 8);
    db.advance_revision();
    let runs = db.executions;
    assert_eq!(db.fetch(&logger, RESULT_DEPENDS_ON_Y, input).unwrap(), 8);
    assert_eq!(db.executions, runs);
}

#[test]
fn setting_equal_value_stamps_field_again() {
    let mut db = setup();
    let input = db.new_input(vec![4, 4]);
    let before = db.inputs.rows[input as usize].changed_at[X].number;
    assert_eq!(db.set_input_field(input, X, 4), 4);
    let after = db.inputs.rows[input as usize].changed_at[X].number;
    assert_eq!(before, 1);
    assert_eq!(after, 2);
    assert_eq!(db.runtime.revision.number, 2);
}
