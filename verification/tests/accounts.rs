use training_core::error::ServiceError;
use training_core::record::RecordFields;
use training_core::role::Role;
use training_core::service::AppState;

fn admin_state() -> (AppState, String) {
    let mut state = AppState::new();
    state.bootstrap_admin();
    let login = state.login("admin", "admin123").expect("bootstrap admin login");
    (state, login.token)
}

fn fields(subject: &str) -> RecordFields {
    RecordFields {
        subject_name: subject.to_string(),
        training_name: "Safety".to_string(),
        due_date: "2025-01-01".to_string(),
        status: "gruen".to_string(),
    }
}

#[test]
fn bootstrap_creates_single_admin_once() {
    let mut state = AppState::new();
    state.bootstrap_admin();
    state.bootstrap_admin();
    let login = state.login("admin", "admin123").expect("admin login");
    assert_eq!(login.account.username, "admin");
    assert_eq!(login.account.role, Role::Admin);
    assert!(login.account.active);
    let accounts = state.list_accounts(&login.token).expect("admin lists accounts");
    assert_eq!(accounts.len(), 1);
}

#[test]
fn login_failures_are_indistinguishable() {
    let (mut state, token) = admin_state();
    let created = state
        .create_account(&token, "erin", "hunter2", Role::User)
        .expect("create erin");
    let wrong_password = state.login("admin", "admin124").unwrap_err();
    let unknown_user = state.login("nobody", "admin123").unwrap_err();
    state
        .update_account(&token, &created.id, Some(false), None)
        .expect("deactivate erin");
    let inactive = state.login("erin", "hunter2").unwrap_err();
    assert_eq!(wrong_password, ServiceError::Unauthorized);
    assert_eq!(unknown_user, ServiceError::Unauthorized);
    assert_eq!(inactive, ServiceError::Unauthorized);
}

#[test]
fn duplicate_username_is_conflict() {
    let (mut state, token) = admin_state();
    state
        .create_account(&token, "bob", "pw-one", Role::User)
        .expect("first bob");
    let second = state.create_account(&token, "bob", "pw-two", Role::Manager);
    assert_eq!(second.unwrap_err(), ServiceError::Conflict);
    let accounts = state.list_accounts(&token).expect("list");
    let bobs: Vec<_> = accounts.iter().filter(|a| a.username == "bob").collect();
    assert_eq!(bobs.len(), 1);
    assert_eq!(bobs[0].role, Role::User);
}

#[test]
fn session_lifecycle() {
    let (mut state, token) = admin_state();
    assert!(state.verify_token(&token).is_some());
    let me = state.whoami(&token).expect("whoami while logged in");
    assert_eq!(me.username, "admin");
    state.logout(&token);
    assert!(state.verify_token(&token).is_none());
    assert_eq!(state.whoami(&token).unwrap_err(), ServiceError::Unauthorized);
    state.logout(&token);
    assert!(state.verify_token(&token).is_none());
}

#[test]
fn self_delete_is_forbidden() {
    let (mut state, token) = admin_state();
    let me = state.whoami(&token).expect("whoami");
    let result = state.delete_account(&token, &me.id);
    assert_eq!(result.unwrap_err(), ServiceError::SelfDeleteForbidden);
    assert_eq!(state.list_accounts(&token).expect("list").len(), 1);
}

#[test]
fn role_gates_account_operations() {
    let (mut state, admin_token) = admin_state();
    state
        .create_account(&admin_token, "mia", "managerpw", Role::Manager)
        .expect("create manager");
    state
        .create_account(&admin_token, "uri", "userpw", Role::User)
        .expect("create user");
    let manager = state.login("mia", "managerpw").expect("manager login");
    let user = state.login("uri", "userpw").expect("user login");

    assert!(state.list_accounts(&manager.token).is_ok());
    assert_eq!(
        state.list_accounts(&user.token).unwrap_err(),
        ServiceError::Forbidden
    );
    assert_eq!(
        state
            .create_account(&manager.token, "eve", "pw", Role::User)
            .unwrap_err(),
        ServiceError::Forbidden
    );
    assert_eq!(
        state
            .update_account(&user.token, &user.account.id, Some(false), None)
            .unwrap_err(),
        ServiceError::Forbidden
    );
    assert_eq!(
        state
            .delete_account(&manager.token, &user.account.id)
            .unwrap_err(),
        ServiceError::Forbidden
    );
    assert_eq!(
        state.list_accounts("no-such-token").unwrap_err(),
        ServiceError::Unauthorized
    );
}

#[test]
fn update_account_applies_only_given_fields() {
    let (mut state, token) = admin_state();
    let carol = state
        .create_account(&token, "carol", "carolpw", Role::User)
        .expect("create carol");
    let deactivated = state
        .update_account(&token, &carol.id, Some(false), None)
        .expect("deactivate");
    assert!(!deactivated.active);
    assert_eq!(deactivated.role, Role::User);
    assert_eq!(state.login("carol", "carolpw").unwrap_err(), ServiceError::Unauthorized);
    let promoted = state
        .update_account(&token, &carol.id, Some(true), Some(Role::Manager))
        .expect("reactivate and promote");
    assert!(promoted.active);
    assert_eq!(promoted.role, Role::Manager);
    let login = state.login("carol", "carolpw").expect("carol login");
    assert_eq!(login.account.role, Role::Manager);
    assert_eq!(
        state
            .update_account(&token, "no-such-id", None, None)
            .unwrap_err(),
        ServiceError::NotFound
    );
}

#[test]
fn session_keeps_login_time_role_snapshot() {
    let (mut state, admin_token) = admin_state();
    let dave = state
        .create_account(&admin_token, "dave", "davepw", Role::User)
        .expect("create dave");
    let old_session = state.login("dave", "davepw").expect("dave login");
    let record = state
        .create_record(&admin_token, &fields("Alice"))
        .expect("seed record");
    state
        .update_account(&admin_token, &dave.id, None, Some(Role::Manager))
        .expect("promote dave");
    assert_eq!(
        state.delete_record(&old_session.token, record.id).unwrap_err(),
        ServiceError::Forbidden
    );
    let new_session = state.login("dave", "davepw").expect("dave re-login");
    state
        .delete_record(&new_session.token, record.id)
        .expect("manager role active after re-login");
}

#[test]
fn whoami_reports_deleted_account() {
    let (mut state, admin_token) = admin_state();
    let temp = state
        .create_account(&admin_token, "temp", "temppw", Role::User)
        .expect("create temp");
    let temp_session = state.login("temp", "temppw").expect("temp login");
    state
        .delete_account(&admin_token, &temp.id)
        .expect("admin deletes temp");
    assert_eq!(
        state.whoami(&temp_session.token).unwrap_err(),
        ServiceError::NotFound
    );
    assert_eq!(
        state.delete_account(&admin_token, &temp.id).unwrap_err(),
        ServiceError::NotFound
    );
}
