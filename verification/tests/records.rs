use training_core::error::ServiceError;
use training_core::record::RecordFields;
use training_core::role::Role;
use training_core::service::AppState;

fn admin_state() -> (AppState, String) {
    let mut state = AppState::new();
    state.bootstrap_admin();
    let login = state.login("admin", "admin123").expect("bootstrap admin login");
    (state, login.token)
}

fn fields(subject: &str, training: &str, due: &str, status: &str) -> RecordFields {
    RecordFields {
        subject_name: subject.to_string(),
        training_name: training.to_string(),
        due_date: due.to_string(),
        status: status.to_string(),
    }
}

#[test]
fn fresh_store_assigns_id_one_and_never_reuses_it() {
    let (mut state, token) = admin_state();
    let first = state
        .create_record(&token, &fields("Alice", "Safety", "2025-01-01", "Red"))
        .expect("create first record");
    assert_eq!(first.id, 1);
    assert_eq!(first.subject_name, "Alice");
    assert_eq!(first.training_name, "Safety");
    assert_eq!(first.due_date, "2025-01-01");
    assert_eq!(first.status, "Red");
    state.delete_record(&token, 1).expect("delete first record");
    let second = state
        .create_record(&token, &fields("Bob", "Fire", "2025-02-02", "gruen"))
        .expect("create second record");
    assert_eq!(second.id, 2);
}

#[test]
fn ids_increase_strictly_across_mixed_operations() {
    let (mut state, token) = admin_state();
    let a = state
        .create_record(&token, &fields("A", "T", "2025-01-01", "gruen"))
        .expect("a");
    let b = state
        .create_record(&token, &fields("B", "T", "2025-01-02", "gelb"))
        .expect("b");
    let c = state
        .create_record(&token, &fields("C", "T", "2025-01-03", "rot"))
        .expect("c");
    assert_eq!((a.id, b.id, c.id), (1, 2, 3));
    state.delete_record(&token, 2).expect("delete b");
    let d = state
        .create_record(&token, &fields("D", "T", "2025-01-04", "gruen"))
        .expect("d");
    assert_eq!(d.id, 4);
    let ids: Vec<u32> = state
        .list_records(&token)
        .expect("list")
        .iter()
        .map(|r| r.id)
        .collect();
    assert_eq!(ids, vec![1, 3, 4]);
}

#[test]
fn user_may_create_but_not_delete() {
    let (mut state, admin_token) = admin_state();
    state
        .create_account(&admin_token, "worker", "workerpw", Role::User)
        .expect("create worker");
    let worker = state.login("worker", "workerpw").expect("worker login");
    let seeded = state
        .create_record(&admin_token, &fields("Seed", "T", "2025-01-01", "gruen"))
        .expect("seed");
    assert_eq!(
        state.delete_record(&worker.token, seeded.id).unwrap_err(),
        ServiceError::Forbidden
    );
    let created = state
        .create_record(&worker.token, &fields("Own", "T", "2025-03-03", "gelb"))
        .expect("worker creates");
    assert_eq!(created.created_by, "worker");
    assert_eq!(state.list_records(&worker.token).expect("list").len(), 2);
}

#[test]
fn update_record_replaces_fields_but_keeps_id_and_attribution() {
    let (mut state, token) = admin_state();
    let original = state
        .create_record(&token, &fields("Old", "OldT", "2024-01-01", "rot"))
        .expect("create");
    let updated = state
        .update_record(&token, original.id, &fields("New", "NewT", "2026-12-31", "gruen"))
        .expect("update");
    assert_eq!(updated.id, original.id);
    assert_eq!(updated.subject_name, "New");
    assert_eq!(updated.training_name, "NewT");
    assert_eq!(updated.due_date, "2026-12-31");
    assert_eq!(updated.status, "gruen");
    assert_eq!(updated.created_by, "admin");
    assert_eq!(
        state
            .update_record(&token, 999, &fields("X", "X", "X", "X"))
            .unwrap_err(),
        ServiceError::NotFound
    );
    assert_eq!(state.delete_record(&token, 999).unwrap_err(), ServiceError::NotFound);
}

#[test]
fn record_operations_require_a_session() {
    let (mut state, token) = admin_state();
    state
        .create_record(&token, &fields("Alice", "Safety", "2025-01-01", "gruen"))
        .expect("seed");
    assert_eq!(
        state.list_records("bad-token").unwrap_err(),
        ServiceError::Unauthorized
    );
    assert_eq!(
        state
            .create_record("bad-token", &fields("X", "X", "X", "X"))
            .unwrap_err(),
        ServiceError::Unauthorized
    );
    assert_eq!(
        state
            .update_record("bad-token", 1, &fields("X", "X", "X", "X"))
            .unwrap_err(),
        ServiceError::Unauthorized
    );
    assert_eq!(
        state.delete_record("bad-token", 1).unwrap_err(),
        ServiceError::Unauthorized
    );
}
