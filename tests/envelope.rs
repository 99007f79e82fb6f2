use td_lib::database::Database;
use td_lib::database_file::{DatabaseFile, CURRENT_DATABASE_VERSION};
use td_lib::errors::DatabaseReadError;
use td_lib::task::{Task, Timestamp};

#[test]
fn unknown_version_is_refused() {
    let data = serde_json::Value::String("not a database".to_string());
    let file = DatabaseFile::new(99, data);
    assert_eq!(file.into_current_data().err(), Some(DatabaseReadError::UnknownVersion(99)));
}

#[test]
fn current_version_hands_out_payload() {
    let data = serde_json::Value::Bool(true);
    let file = DatabaseFile::for_current_version(data.clone());
    assert_eq!(file.version, 1);
    assert_eq!(CURRENT_DATABASE_VERSION, 1);
    assert_eq!(file.into_current_data().ok(), Some(data));
}

#[test]
fn version_zero_is_refused() {
    let file = DatabaseFile::new(0, serde_json::Value::Null);
    assert_eq!(file.into_current_data().err(), Some(DatabaseReadError::UnknownVersion(0)));
}

#[test]
fn stored_model_reads_back_equivalent() {
    let at = Timestamp { unix_nanos: 1, offset_seconds: 0 };
    let mut db = Database::new();
    for (id, title) in [("a", "A"), ("b", "B"), ("c", "C")] {
        db.add_task(Task::new(id.to_string(), title.to_string(), at));
    }
    db.add_dependency("a", "b").unwrap();
    db.add_dependency("c", "b").unwrap();
    let model = db.to_disk_model();
    let back = Database::from_disk_model(&model).unwrap();
    for id in ["a", "b", "c"] {
        let mut x: Vec<String> = db.get_dependencies(id).unwrap().iter().map(|t| t.id.clone()).collect();
        let mut y: Vec<String> = back.get_dependencies(id).unwrap().iter().map(|t| t.id.clone()).collect();
        x.sort();
        y.sort();
        assert_eq!(x, y);
        let mut x: Vec<String> =
            db.get_inverse_dependencies(id).unwrap().iter().map(|t| t.id.clone()).collect();
        let mut y: Vec<String> =
            back.get_inverse_dependencies(id).unwrap().iter().map(|t| t.id.clone()).collect();
        x.sort();
        y.sort();
        assert_eq!(x, y);
    }
    assert_eq!(back.dependency_count(), 2);
}
