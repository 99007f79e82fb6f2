use td_lib::database::Database;
use td_lib::disk_model::{DatabaseDiskModel, TaskDiskModel};
use td_lib::errors::{DatabaseError, DatabaseReadError};
use td_lib::task::{Task, TaskDependency, Timestamp};
use td_lib::undo::UndoWrapper;

fn at(seconds: i128) -> Timestamp {
    Timestamp { unix_nanos: seconds * 1_000_000_000, offset_seconds: 0 }
}

fn task(id: &str, title: &str) -> Task {
    Task::new(id.to_string(), title.to_string(), at(1_700_000_000))
}

fn titles(tasks: &[&Task]) -> Vec<String> {
    let mut v: Vec<String> = tasks.iter().map(|t| t.title.clone()).collect();
    v.sort();
    v
}

fn ids(tasks: &[&Task]) -> Vec<String> {
    let mut v: Vec<String> = tasks.iter().map(|t| t.id.clone()).collect();
    v.sort();
    v
}

#[test]
fn task_count_is_adds_minus_removes() {
    let mut db = Database::new();
    db.add_task(task("a", "A"));
    db.add_task(task("b", "B"));
    db.add_task(task("c", "C"));
    db.add_dependency("a", "b").unwrap();
    db.remove_task("b");
    db.add_task(task("d", "D"));
    db.remove_task("a");
    assert_eq!(db.get_all_tasks().len(), 2);
    assert_eq!(db.len(), 2);
    assert_eq!(ids(&db.get_all_tasks()), vec!["c".to_string(), "d".to_string()]);
}

#[test]
fn removing_unknown_id_changes_nothing() {
    let mut db = Database::new();
    db.add_task(task("a", "A"));
    db.remove_task("zzz");
    assert_eq!(db.len(), 1);
    assert!(db.contains("a"));
}

#[test]
fn remove_drops_exactly_incident_edges() {
    let mut db = Database::new();
    for id in ["a", "b", "c", "d"] {
        db.add_task(task(id, &id.to_uppercase()));
    }
    db.add_dependency("a", "b").unwrap();
    db.add_dependency("b", "c").unwrap();
    db.add_dependency("c", "d").unwrap();
    db.add_dependency("a", "d").unwrap();
    assert_eq!(db.dependency_count(), 4);
    db.remove_task("b");
    assert_eq!(db.dependency_count(), 2);
    assert_eq!(ids(&db.get_dependencies("a").unwrap()), vec!["d".to_string()]);
    assert_eq!(ids(&db.get_dependencies("c").unwrap()), vec!["d".to_string()]);
    assert!(db.get_inverse_dependencies("c").unwrap().is_empty());
    assert_eq!(db.get_task("c").unwrap().title, "C");
    assert_eq!(db.get_task("d").unwrap().title, "D");
    assert!(db.get_task("b").is_none());
}

#[test]
fn parallel_and_circular_dependencies_are_kept() {
    let mut db = Database::new();
    db.add_task(task("a", "A"));
    db.add_task(task("b", "B"));
    db.add_dependency("a", "b").unwrap();
    db.add_dependency("a", "b").unwrap();
    db.add_dependency("b", "a").unwrap();
    db.add_dependency("a", "a").unwrap();
    assert_eq!(
        ids(&db.get_dependencies("a").unwrap()),
        vec!["a".to_string(), "b".to_string(), "b".to_string()]
    );
    assert_eq!(ids(&db.get_inverse_dependencies("a").unwrap()), vec!["a".to_string(), "b".to_string()]);
}

#[test]
fn unknown_ids_are_reported() {
    let mut db = Database::new();
    db.add_task(task("a", "A"));
    assert_eq!(db.add_dependency("x", "a"), Err(DatabaseError::UnknownTaskId("x".to_string())));
    assert_eq!(db.add_dependency("a", "y"), Err(DatabaseError::UnknownTaskId("y".to_string())));
    assert_eq!(db.add_dependency("x", "y"), Err(DatabaseError::UnknownTaskId("x".to_string())));
    assert_eq!(db.dependency_count(), 0);
    assert_eq!(db.get_dependencies("q").err(), Some(DatabaseError::UnknownTaskId("q".to_string())));
    assert_eq!(
        db.get_inverse_dependencies("q").err(),
        Some(DatabaseError::UnknownTaskId("q".to_string()))
    );
    assert_eq!(db.update_task(task("q", "Q")), Err(DatabaseError::UnknownTaskId("q".to_string())));
}

#[test]
fn update_replaces_content_and_keeps_edges() {
    let mut db = Database::new();
    db.add_task(task("a", "A"));
    db.add_task(task("b", "B"));
    db.add_dependency("a", "b").unwrap();
    let mut changed = db.get_task("b").unwrap().clone();
    changed.title = "Bee".to_string();
    changed.tags.push("home".to_string());
    changed.time_started = Some(at(1_700_000_100));
    db.update_task(changed).unwrap();
    let b = db.get_task("b").unwrap();
    assert_eq!(b.title, "Bee");
    assert_eq!(b.tags, vec!["home".to_string()]);
    assert_eq!(b.time_started, Some(at(1_700_000_100)));
    assert_eq!(titles(&db.get_dependencies("a").unwrap()), vec!["Bee".to_string()]);
}

#[test]
fn clone_is_independent() {
    let mut db = Database::new();
    db.add_task(task("a", "A"));
    db.add_task(task("b", "B"));
    db.add_dependency("a", "b").unwrap();
    let copy = db.clone();
    db.remove_task("b");
    assert_eq!(copy.len(), 2);
    assert_eq!(ids(&copy.get_dependencies("a").unwrap()), vec!["b".to_string()]);
    assert!(copy.get_task("b").is_some());
}

#[test]
fn undo_scenario_buy_milk() {
    let mut history = UndoWrapper::new(Database::default());
    let milk = Task::create_now("Buy milk".to_string(), 1);
    let milk_id = milk.id.clone();
    history.modify(|db| db.add_task(milk));
    assert_eq!(history.undo_count(), 1);

    let store = Task::create_now("Go to store".to_string(), 2);
    let store_id = store.id.clone();
    let from = milk_id.clone();
    let to = store_id.clone();
    history.modify(move |db| {
        db.add_task(store);
        db.add_dependency(&from, &to).unwrap();
    });
    assert_eq!(history.undo_count(), 2);
    let db = history.state();
    assert_eq!(titles(&db.get_dependencies(&milk_id).unwrap()), vec!["Go to store".to_string()]);
    assert_eq!(titles(&db.get_inverse_dependencies(&store_id).unwrap()), vec!["Buy milk".to_string()]);

    history.undo();
    history.undo();
    assert!(history.state().get_all_tasks().is_empty());
    assert_eq!(history.redo_count(), 2);

    history.redo();
    let db = history.state();
    assert_eq!(db.get_task(&milk_id).unwrap().title, "Buy milk");
    assert!(db.get_dependencies(&milk_id).unwrap().is_empty());
    assert!(db.get_task(&store_id).is_none());
}

fn three_task_graph() -> Database {
    let mut db = Database::new();
    let mut t = task("a", "Write report");
    t.tags = vec!["work".to_string(), "work".to_string()];
    t.time_completed = Some(at(1_700_000_500));
    db.add_task(t);
    db.add_task(task("b", "Collect data"));
    db.add_task(task("c", "Book room"));
    db.add_dependency("a", "b").unwrap();
    db.add_dependency("a", "c").unwrap();
    db
}

fn assert_query_equivalent(x: &Database, y: &Database) {
    assert_eq!(ids(&x.get_all_tasks()), ids(&y.get_all_tasks()));
    for t in x.get_all_tasks() {
        let u = y.get_task(&t.id).unwrap();
        assert_eq!(t.title, u.title);
        assert_eq!(t.time_created, u.time_created);
        assert_eq!(t.time_started, u.time_started);
        assert_eq!(t.time_completed, u.time_completed);
        assert_eq!(t.tags, u.tags);
        assert_eq!(ids(&x.get_dependencies(&t.id).unwrap()), ids(&y.get_dependencies(&t.id).unwrap()));
        assert_eq!(
            ids(&x.get_inverse_dependencies(&t.id).unwrap()),
            ids(&y.get_inverse_dependencies(&t.id).unwrap())
        );
    }
}

#[test]
fn disk_model_round_trip_is_query_equivalent() {
    let db = three_task_graph();
    let model = db.to_disk_model();
    assert_eq!(model.tasks.len(), 3);
    let a = model.tasks.iter().find(|r| r.task.id == "a").unwrap();
    let mut deps = a.dependencies.clone();
    deps.sort();
    assert_eq!(deps, vec!["b".to_string(), "c".to_string()]);
    let back = Database::from_disk_model(&model).unwrap();
    assert_query_equivalent(&db, &back);
    assert_eq!(back.dependency_count(), 2);
}

#[test]
fn disk_model_keeps_storage_order() {
    let db = three_task_graph();
    let model = db.to_disk_model();
    let order: Vec<&str> = model.tasks.iter().map(|r| r.task.id.as_str()).collect();
    assert_eq!(order, vec!["a", "b", "c"]);
}

#[test]
fn unresolved_dependency_is_a_load_error() {
    let mut record = TaskDiskModel::new(task("a", "A"));
    record.dependencies.push("ghost".to_string());
    let model = DatabaseDiskModel::new(vec![record, TaskDiskModel::new(task("b", "B"))]);
    assert_eq!(
        Database::from_disk_model(&model).err(),
        Some(DatabaseReadError::UnresolvedDependency("ghost".to_string()))
    );
}

#[test]
fn duplicate_ids_are_a_load_error() {
    let model = DatabaseDiskModel::new(vec![
        TaskDiskModel::new(task("a", "A")),
        TaskDiskModel::new(task("a", "Again")),
    ]);
    assert_eq!(
        Database::from_disk_model(&model).err(),
        Some(DatabaseReadError::DuplicateTaskId("a".to_string()))
    );
}

#[test]
fn empty_disk_model_gives_empty_database() {
    let model = DatabaseDiskModel::new(vec![]);
    let db = Database::from_disk_model(&model).unwrap();
    assert_eq!(db.len(), 0);
    assert!(Database::new().to_disk_model().tasks.is_empty());
}

#[test]
fn task_dependency_is_unit() {
    assert_eq!(TaskDependency::new(), TaskDependency::default());
}

#[test]
fn loading_keeps_record_order() {
    let model = DatabaseDiskModel::new(vec![
        TaskDiskModel::new(task("z", "Z")),
        TaskDiskModel::new(task("m", "M")),
        TaskDiskModel::new(task("a", "A")),
    ]);
    let db = Database::from_disk_model(&model).unwrap();
    let order: Vec<&str> = db.get_all_tasks().iter().map(|t| t.id.as_str()).collect();
    assert_eq!(order, vec!["z", "m", "a"]);
    let again = db.to_disk_model();
    let order: Vec<&str> = again.tasks.iter().map(|r| r.task.id.as_str()).collect();
    assert_eq!(order, vec!["z", "m", "a"]);
}
