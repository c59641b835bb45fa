use training_core::record::RecordFields;
use training_core::service::AppState;

fn admin_state() -> (AppState, String) {
    let mut state = AppState::new();
    state.bootstrap_admin();
    let login = state.login("admin", "admin123").expect("bootstrap admin login");
    (state, login.token)
}

fn fields(subject: &str, training: &str, due: &str, status: &str) -> RecordFields {
    RecordFields {
        subject_name: subject.to_string(),
        training_name: training.to_string(),
        due_date: due.to_string(),
        status: status.to_string(),
    }
}

#[test]
fn export_of_empty_store_is_just_the_header() {
    let (state, _) = admin_state();
    assert_eq!(
        state.export_records(),
        "id,subjectName,trainingName,dueDate,status,createdBy"
    );
}

#[test]
fn loading_an_empty_file_recovers_nothing() {
    let (mut state, token) = admin_state();
    state.load_records("");
    assert_eq!(state.list_records(&token).expect("list").len(), 0);
    assert_eq!(state.next_record_id(), 1);
}

#[test]
fn round_trip_reproduces_records_and_counter() {
    let (mut state, token) = admin_state();
    state
        .create_record(&token, &fields("Alice", "Safety", "2025-01-01", "gruen"))
        .expect("a");
    state
        .create_record(&token, &fields("Bob", "Fire", "2025-02-02", "gelb"))
        .expect("b");
    state
        .create_record(&token, &fields("Cora", "First aid", "2025-03-03", "rot"))
        .expect("c");
    let file = state.export_records();

    let (mut reloaded, new_token) = admin_state();
    reloaded.load_records(&file);
    let before = state.list_records(&token).expect("list before");
    let after = reloaded.list_records(&new_token).expect("list after");
    assert_eq!(before.len(), after.len());
    for (x, y) in before.iter().zip(after.iter()) {
        assert_eq!(x.id, y.id);
        assert_eq!(x.subject_name, y.subject_name);
        assert_eq!(x.training_name, y.training_name);
        assert_eq!(x.due_date, y.due_date);
        assert_eq!(x.status, y.status);
        assert_eq!(x.created_by, y.created_by);
    }
    assert_eq!(reloaded.next_record_id(), 4);
    let next = reloaded
        .create_record(&new_token, &fields("Dana", "T", "2025-04-04", "gruen"))
        .expect("create after reload");
    assert_eq!(next.id, 4);
}

#[test]
fn round_trip_survives_separators_and_escapes_in_fields() {
    let (mut state, token) = admin_state();
    state
        .create_record(
            &token,
            &fields("a,b", "line\nbreak", "back\\slash", "quote\"and'mark"),
        )
        .expect("tricky one");
    state
        .create_record(&token, &fields("", "", "", ""))
        .expect("all empty");
    state
        .create_record(
            &token,
            &fields("ueber,\r\nalles\\", ",,,", "\\c", "\\n"),
        )
        .expect("worst case");
    let file = state.export_records();

    let (mut reloaded, new_token) = admin_state();
    reloaded.load_records(&file);
    let before = state.list_records(&token).expect("list before");
    let after = reloaded.list_records(&new_token).expect("list after");
    assert_eq!(before.len(), after.len());
    for (x, y) in before.iter().zip(after.iter()) {
        assert_eq!(x.id, y.id);
        assert_eq!(x.subject_name, y.subject_name);
        assert_eq!(x.training_name, y.training_name);
        assert_eq!(x.due_date, y.due_date);
        assert_eq!(x.status, y.status);
        assert_eq!(x.created_by, y.created_by);
    }
}

#[test]
fn reload_sets_counter_one_past_largest_surviving_id() {
    let (mut state, token) = admin_state();
    state
        .create_record(&token, &fields("A", "T", "2025-01-01", "gruen"))
        .expect("a");
    state
        .create_record(&token, &fields("B", "T", "2025-01-02", "gruen"))
        .expect("b");
    state
        .create_record(&token, &fields("C", "T", "2025-01-03", "gruen"))
        .expect("c");
    state.delete_record(&token, 2).expect("delete middle");
    let file = state.export_records();

    let (mut reloaded, new_token) = admin_state();
    reloaded.load_records(&file);
    assert_eq!(reloaded.next_record_id(), 4);
    let created = reloaded
        .create_record(&new_token, &fields("D", "T", "2025-01-04", "gruen"))
        .expect("create");
    assert_eq!(created.id, 4);
    let ids: Vec<u32> = reloaded
        .list_records(&new_token)
        .expect("list")
        .iter()
        .map(|r| r.id)
        .collect();
    assert_eq!(ids, vec![1, 3, 4]);
}

#[test]
fn escaped_fields_are_visible_in_the_file() {
    let (mut state, token) = admin_state();
    state
        .create_record(&token, &fields("a,b", "T", "2025-01-01", "gruen"))
        .expect("record with comma");
    let file = state.export_records();
    let lines: Vec<&str> = file.split('\n').collect();
    assert_eq!(lines.len(), 2);
    assert_eq!(lines[0], "id,subjectName,trainingName,dueDate,status,createdBy");
    assert_eq!(lines[1], "1,a\\cb,T,2025-01-01,gruen,admin");
}
