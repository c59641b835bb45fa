use training_core::error::ServiceError;
use training_core::role::Role;
use training_core::status::Status;

#[test]
fn satisfies_table_all_nine_pairs() {
    assert!(Role::Admin.satisfies(Role::Admin));
    assert!(Role::Admin.satisfies(Role::Manager));
    assert!(Role::Admin.satisfies(Role::User));
    assert!(!Role::Manager.satisfies(Role::Admin));
    assert!(Role::Manager.satisfies(Role::Manager));
    assert!(Role::Manager.satisfies(Role::User));
    assert!(!Role::User.satisfies(Role::Admin));
    assert!(!Role::User.satisfies(Role::Manager));
    assert!(Role::User.satisfies(Role::User));
}

#[test]
fn role_labels() {
    assert_eq!(Role::Admin.to_string(), "Admin");
    assert_eq!(Role::Manager.to_string(), "Manager");
    assert_eq!(Role::User.to_string(), "User");
}

#[test]
fn status_labels() {
    assert_eq!(Status::Gruen.to_string(), "Aktuell");
    assert_eq!(Status::Gelb.to_string(), "Bald fällig");
    assert_eq!(Status::Rot.to_string(), "Überfällig");
    assert_eq!(Status::Gruen.to_api_string(), "gruen");
    assert_eq!(Status::Gelb.to_api_string(), "gelb");
    assert_eq!(Status::Rot.to_api_string(), "rot");
}

#[test]
fn error_labels_and_distinctness() {
    assert_eq!(ServiceError::Unauthorized.to_string(), "unauthorized");
    assert_eq!(ServiceError::Forbidden.to_string(), "forbidden");
    assert_eq!(ServiceError::NotFound.to_string(), "not found");
    assert_eq!(ServiceError::Conflict.to_string(), "conflict");
    assert_eq!(
        ServiceError::SelfDeleteForbidden.to_string(),
        "cannot delete own account"
    );
    assert_ne!(ServiceError::SelfDeleteForbidden, ServiceError::Forbidden);
}
