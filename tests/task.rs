use td_lib::task::{generate_unique_id, Task, Timestamp, ID_ALPHABET, ID_LEN};

#[test]
fn ids_use_the_alphabet_and_length() {
    for seed in [0u64, 1, 56, 57, 12345678901234567, u64::MAX] {
        let id = generate_unique_id(seed);
        assert_eq!(id.chars().count(), ID_LEN);
        assert!(id.chars().all(|c| ID_ALPHABET.contains(c)));
        for bad in ['0', '1', 'I', 'O', 'l'] {
            assert!(!id.contains(bad));
        }
    }
}

#[test]
fn id_digits_are_base_57() {
    assert_eq!(generate_unique_id(0), "2222222222");
    assert_eq!(generate_unique_id(1), "3222222222");
    assert_eq!(generate_unique_id(57), "2322222222");
    assert_eq!(generate_unique_id(56), "z222222222");
    assert_ne!(generate_unique_id(5), generate_unique_id(6));
}

#[test]
fn create_now_makes_a_fresh_task() {
    let t = Task::create_now("Buy milk".to_string(), 7);
    assert_eq!(t.title, "Buy milk");
    assert_eq!(t.id(), &generate_unique_id(7));
    assert!(t.time_started.is_none());
    assert!(t.time_completed.is_none());
    assert!(t.tags.is_empty());
    assert!(t.time_created.unix_nanos > 1_600_000_000_000_000_000);
}

#[test]
fn new_task_has_given_fields() {
    let at = Timestamp { unix_nanos: 5, offset_seconds: 3600 };
    let t = Task::new("x1".to_string(), "Title".to_string(), at);
    assert_eq!(t.id(), "x1");
    assert_eq!(t.time_created, at);
    let c = t.clone();
    assert_eq!(c.id, t.id);
    assert_eq!(c.title, t.title);
}
