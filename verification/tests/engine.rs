use migratour::engine::{plan_down, plan_up, split_statements, DownRun, UpRun};
use migratour::errors::MigError;
use migratour::ledger::Ledger;

fn strings(names: &[&str]) -> Vec<String> {
    names.iter().map(|s| s.to_string()).collect()
}

fn run_up(ledger: Ledger, files: Vec<String>) -> Ledger {
    let mut run = UpRun::begin(ledger, files);
    while !run.is_finished() {
        let _file = run.next_file().clone();
        let _row = run.next_name();
        run.step_ok();
    }
    run.commit()
}

fn run_down(ledger: Ledger, files: Vec<String>) -> Ledger {
    let mut run = DownRun::begin(ledger, files);
    while !run.is_finished() {
        let _file = run.next_file().clone();
        let _row = run.next_name();
        run.step_ok();
    }
    run.commit()
}

#[test]
fn statements_split_on_semicolons_dropping_empties() {
    let stmts = split_statements("create table t(x int);;drop table u");
    assert_eq!(stmts, strings(&["create table t(x int)", "drop table u"]));
}

#[test]
fn statements_of_a_trailing_separator() {
    let stmts = split_statements("select 1;\n");
    assert_eq!(stmts, strings(&["select 1", "\n"]));
}

#[test]
fn statements_of_an_empty_body() {
    let stmts = split_statements("");
    assert!(stmts.is_empty());
    let stmts = split_statements(";;;");
    assert!(stmts.is_empty());
}

#[test]
fn plan_up_takes_the_pending_suffix() {
    let ups = strings(&["0001_a.up.sql", "0002_b.up.sql", "0003_c.up.sql"]);
    let plan = plan_up(1, &ups, -1).unwrap();
    assert_eq!(plan, strings(&["0002_b.up.sql", "0003_c.up.sql"]));
    let plan = plan_up(1, &ups, 1).unwrap();
    assert_eq!(plan, strings(&["0002_b.up.sql"]));
    let plan = plan_up(3, &ups, -1).unwrap();
    assert!(plan.is_empty());
}

#[test]
fn plan_up_rejects_more_than_pending() {
    let ups = strings(&["0001_a.up.sql", "0002_b.up.sql"]);
    assert_eq!(plan_up(1, &ups, 2), Err(MigError::InsufficientMigrations));
    assert_eq!(plan_up(0, &ups, 3), Err(MigError::InsufficientMigrations));
    assert_eq!(plan_up(0, &ups, -2), Err(MigError::InsufficientMigrations));
}

#[test]
fn plan_down_takes_the_applied_tail_most_recent_first() {
    let downs = strings(&["0001_a.down.sql", "0002_b.down.sql", "0003_c.down.sql"]);
    let plan = plan_down(3, &downs, 2).unwrap();
    assert_eq!(plan, strings(&["0003_c.down.sql", "0002_b.down.sql"]));
    let plan = plan_down(2, &downs, 1).unwrap();
    assert_eq!(plan, strings(&["0002_b.down.sql"]));
}

#[test]
fn plan_down_rejects_more_than_applied() {
    let downs = strings(&["0001_a.down.sql", "0002_b.down.sql"]);
    assert_eq!(
        plan_down(1, &downs, 2),
        Err(MigError::InsufficientAppliedMigrations)
    );
    assert_eq!(
        plan_down(0, &downs, 1),
        Err(MigError::InsufficientAppliedMigrations)
    );
}

#[test]
fn fresh_up_applies_everything_in_order() {
    let ups = strings(&["0001_init.up.sql", "0002_add_col.up.sql"]);
    let plan = plan_up(0, &ups, -1).unwrap();
    assert_eq!(plan, ups);
    let ledger = run_up(Ledger::new(), plan);
    assert_eq!(ledger.count(), 2);
    assert_eq!(*ledger.rows(), strings(&["init", "add_col"]));
}

#[test]
fn up_then_down_restores_the_ledger() {
    let base = Ledger::from_rows(strings(&["init"]));
    let ups = strings(&["0001_init.up.sql", "0002_b.up.sql", "0003_c.up.sql"]);
    let plan = plan_up(1, &ups, 2).unwrap();
    let ledger = run_up(base, plan);
    assert_eq!(*ledger.rows(), strings(&["init", "b", "c"]));

    let downs = strings(&["0001_init.down.sql", "0002_b.down.sql", "0003_c.down.sql"]);
    let plan = plan_down(ledger.count(), &downs, 2).unwrap();
    assert_eq!(plan, strings(&["0003_c.down.sql", "0002_b.down.sql"]));
    let ledger = run_down(ledger, plan);
    assert_eq!(*ledger.rows(), strings(&["init"]));
    assert_eq!(ledger.count(), 1);
}

#[test]
fn a_failing_step_rolls_the_whole_batch_back() {
    let base = Ledger::from_rows(strings(&["old"]));
    let files = strings(&[
        "0002_a.up.sql",
        "0003_b.up.sql",
        "0004_c.up.sql",
        "0005_d.up.sql",
        "0006_e.up.sql",
    ]);
    let mut run = UpRun::begin(base, files);
    run.step_ok();
    run.step_ok();
    // the third statement batch fails: the transaction aborts
    let ledger = run.abort();
    assert_eq!(*ledger.rows(), strings(&["old"]));
    assert_eq!(ledger.count(), 1);
}

#[test]
fn a_failing_down_step_rolls_the_whole_batch_back() {
    let base = Ledger::from_rows(strings(&["a", "b", "c"]));
    let files = strings(&["0003_c.down.sql", "0002_b.down.sql"]);
    let mut run = DownRun::begin(base, files);
    run.step_ok();
    let ledger = run.abort();
    assert_eq!(*ledger.rows(), strings(&["a", "b", "c"]));
}

#[test]
fn ledger_last_name_and_not_found() {
    let ledger = Ledger::new();
    assert_eq!(ledger.last_name(), Err(MigError::NotFound));
    let ledger = Ledger::from_rows(strings(&["init", "add_col"]));
    assert_eq!(ledger.last_name(), Ok("add_col".to_string()));
}

#[test]
fn scenario_two_migrations_up_then_down_one() {
    let all = strings(&[
        "0001_init.up.sql",
        "0001_init.down.sql",
        "0002_add_col.up.sql",
        "0002_add_col.down.sql",
    ]);
    let ups = migratour::catalog::sort_migration_files(&migratour::catalog::filter_migration_file(
        "up",
        all.clone(),
    ));
    let plan = plan_up(0, &ups, -1).unwrap();
    let ledger = run_up(Ledger::new(), plan);
    assert_eq!(ledger.count(), 2);
    assert_eq!(*ledger.rows(), strings(&["init", "add_col"]));

    let downs = migratour::catalog::sort_migration_files(
        &migratour::catalog::filter_migration_file("down", all),
    );
    let plan = plan_down(ledger.count(), &downs, 1).unwrap();
    assert_eq!(plan, strings(&["0002_add_col.down.sql"]));
    let mut run = DownRun::begin(ledger, plan);
    assert_eq!(run.next_file().as_str(), "0002_add_col.down.sql");
    assert_eq!(run.next_name(), "add_col");
    run.step_ok();
    let ledger = run.commit();
    assert_eq!(*ledger.rows(), strings(&["init"]));
}

#[test]
fn delete_removes_every_row_with_a_matching_name() {
    // deletion is by name, as the SQL DELETE of the ledger row is
    let base = Ledger::from_rows(strings(&["a", "b", "a"]));
    let files = strings(&["0002_a.down.sql"]);
    let mut run = DownRun::begin(base, files);
    run.step_ok();
    let ledger = run.commit();
    assert_eq!(*ledger.rows(), strings(&["b"]));
}

#[test]
fn up_run_reports_its_progress() {
    let files = strings(&["0001_a.up.sql", "0002_b.up.sql"]);
    let mut run = UpRun::begin(Ledger::new(), files);
    assert_eq!(run.done(), 0);
    assert!(!run.is_finished());
    assert_eq!(run.next_file().as_str(), "0001_a.up.sql");
    assert_eq!(run.next_name(), "a");
    run.step_ok();
    assert_eq!(run.next_file().as_str(), "0002_b.up.sql");
    run.step_ok();
    assert!(run.is_finished());
    assert_eq!(run.commit().count(), 2);
}
