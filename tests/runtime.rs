use salsa::cycle::CycleRecoveryStrategy;
use salsa::database::{next_round, Database, FetchError, QueryProgram, Round, FIXPOINT_ROUNDS};
use salsa::function::Storage;
use salsa::key::{DatabaseKeyIndex, DependencyIndex, Id};
use salsa::revision::Revision;
use salsa::runtime::Runtime;

#[test]
fn push_query_reports_the_cycle_from_the_first_frame() {
    let mut rt = Runtime::new();
    let a = DatabaseKeyIndex { ingredient_index: 3, key_index: 0 };
    let b = DatabaseKeyIndex { ingredient_index: 4, key_index: 1 };
    let c = DatabaseKeyIndex { ingredient_index: 5, key_index: 2 };
    assert!(rt.push_query(a, None).is_ok());
    assert!(rt.push_query(b, None).is_ok());
    assert!(rt.push_query(c, None).is_ok());
    let cycle = rt.push_query(b, None).unwrap_err();
    assert_eq!(cycle.participants, vec![b, c]);
    assert_eq!(rt.stack.len(), 3);
}

#[test]
fn reads_are_recorded_in_order_on_the_top_frame() {
    let mut rt = Runtime::new();
    rt.advance_revision();
    let q = DatabaseKeyIndex { ingredient_index: 2, key_index: 0 };
    let d1 = DependencyIndex { ingredient_index: 1, key_index: Some(4) };
    let d2 = DependencyIndex { ingredient_index: 0, key_index: None };
    // Outside any query nothing is recorded.
    rt.report_read(d1, Revision { number: 1 });
    assert!(rt.push_query(q, None).is_ok());
    rt.report_read(d1, Revision { number: 2 });
    rt.report_read(d2, Revision { number: 1 });
    let frame = rt.pop_query();
    assert_eq!(frame.dependencies, vec![d1, d2]);
    assert_eq!(frame.changed_at.number, 2);
    assert!(!frame.untracked);
    assert!(!rt.is_active());
}

#[test]
fn untracked_read_marks_the_frame() {
    let mut rt = Runtime::new();
    let q = DatabaseKeyIndex { ingredient_index: 2, key_index: 0 };
    assert!(rt.push_query(q, None).is_ok());
    rt.report_untracked_read();
    let frame = rt.pop_query();
    assert!(frame.untracked);
    assert_eq!(frame.changed_at, rt.current_revision());
}

#[test]
fn revision_arithmetic() {
    let r = Revision::first();
    assert_eq!(r.next().number, 2);
    assert!(r.next().is_after(r));
    assert!(!r.is_after(r));
    assert_eq!(Revision::start().max(r), r);
}

struct Double;

impl QueryProgram for Double {
    fn execute(&self, db: &mut Database, _function: usize, key: Id) -> Result<u64, FetchError> {
        Ok(db.input_field(key, 0) * 2)
    }
}

#[test]
fn maybe_changed_after_answers_per_kind() {
    let mut db = Database::new(1, 0);
    db.add_function(Storage::Memoized, CycleRecoveryStrategy::Panic, 0);
    let input = db.new_input(vec![3]);
    let interned = db.intern(11);
    assert_eq!(db.fetch(&Double, 0, input).unwrap(), 6);
    let r1 = Revision { number: 1 };
    let r0 = Revision::start();
    let field = DependencyIndex { ingredient_index: 1, key_index: Some(input) };
    let func = DependencyIndex { ingredient_index: 2, key_index: Some(input) };
    let int = DependencyIndex { ingredient_index: 0, key_index: Some(interned.index) };
    let whole = DependencyIndex { ingredient_index: 1, key_index: None };
    assert_eq!(db.maybe_changed_after(&Double, field, r1).unwrap(), false);
    assert_eq!(db.maybe_changed_after(&Double, field, r0).unwrap(), true);
    assert_eq!(db.maybe_changed_after(&Double, int, r1).unwrap(), false);
    assert_eq!(db.maybe_changed_after(&Double, whole, r1).unwrap(), true);
    assert_eq!(db.maybe_changed_after(&Double, func, r1).unwrap(), false);

    db.set_input_field(input, 0, 4);
    // The function's memo is brought up to date: it changed in revision 2.
    assert_eq!(db.maybe_changed_after(&Double, func, r1).unwrap(), true);
    assert_eq!(db.functions[0].memos[0].value, 8);
    // The interned table was reset with the new revision.
    assert_eq!(db.maybe_changed_after(&Double, int, r1).unwrap(), true);
}

#[test]
fn next_round_decides_each_case() {
    assert_eq!(next_round(1, false, None, 4), Round::Settled);
    assert_eq!(next_round(2, true, Some(4), 4), Round::Settled);
    assert_eq!(next_round(1, true, None, 4), Round::Again);
    assert_eq!(next_round(3, true, Some(3), 4), Round::Again);
    assert_eq!(next_round(FIXPOINT_ROUNDS, true, Some(3), 4), Round::GiveUp);
}

#[test]
fn finish_run_caches_value_with_what_the_frame_read() {
    let mut db = Database::new(1, 0);
    db.add_function(Storage::Memoized, CycleRecoveryStrategy::Panic, 0);
    let fk = db.function_key(0, 7);
    let mut rt = Runtime::new();
    assert!(rt.push_query(fk, None).is_ok());
    let dep = DependencyIndex { ingredient_index: 1, key_index: Some(0) };
    rt.report_read(dep, Revision::first());
    let frame = rt.pop_query();
    assert_eq!(db.finish_run(0, 7, 12, frame), 12);
    let memo = &db.functions[0].memos[0];
    assert_eq!(memo.key, 7);
    assert_eq!(memo.value, 12);
    assert_eq!(memo.dependencies, vec![dep]);
    assert_eq!(memo.changed_at.number, 1);
    assert_eq!(memo.verified_at.number, 1);
}
