use td_lib::database::Database;
use td_lib::errors::DatabaseError;
use td_lib::task::{Task, Timestamp};

fn at(seconds: i128) -> Timestamp {
    Timestamp { unix_nanos: seconds * 1_000_000_000, offset_seconds: 0 }
}

fn sample() -> Database {
    let mut db = Database::new();
    let mut done = Task::new("done".to_string(), "Done".to_string(), at(10));
    done.time_completed = Some(at(20));
    db.add_task(done);
    db.add_task(Task::new("open".to_string(), "Open".to_string(), at(10)));
    db.add_task(Task::new("waits".to_string(), "Waits".to_string(), at(10)));
    db.add_task(Task::new("ready".to_string(), "Ready".to_string(), at(10)));
    db.add_dependency("waits", "open").unwrap();
    db.add_dependency("waits", "done").unwrap();
    db.add_dependency("ready", "done").unwrap();
    db
}

fn shown(db: &Database, hide_completed: bool, hide_unactionable: bool) -> Vec<String> {
    db.filtered_tasks(hide_completed, hide_unactionable).iter().map(|t| t.id.clone()).collect()
}

#[test]
fn no_filter_shows_everything() {
    assert_eq!(shown(&sample(), false, false), vec!["done", "open", "waits", "ready"]);
}

#[test]
fn hiding_completed_tasks() {
    assert_eq!(shown(&sample(), true, false), vec!["open", "waits", "ready"]);
}

#[test]
fn hiding_unactionable_tasks() {
    assert_eq!(shown(&sample(), false, true), vec!["done", "open", "ready"]);
}

#[test]
fn hiding_both() {
    assert_eq!(shown(&sample(), true, true), vec!["open", "ready"]);
}

#[test]
fn uncompleted_dependency_check() {
    let db = sample();
    assert_eq!(db.has_uncompleted_dependencies("waits"), Ok(true));
    assert_eq!(db.has_uncompleted_dependencies("ready"), Ok(false));
    assert_eq!(db.has_uncompleted_dependencies("open"), Ok(false));
    assert_eq!(
        db.has_uncompleted_dependencies("nope"),
        Err(DatabaseError::UnknownTaskId("nope".to_string()))
    );
}
