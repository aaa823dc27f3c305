use rust_proxy::auth::{AuthError, AuthManager};

fn users(pairs: &[(&str, &str)]) -> Vec<(String, String)> {
    pairs.iter().map(|(u, p)| (u.to_string(), p.to_string())).collect()
}

#[test]
fn test_authenticate() {
    let users = users(&[("admin", "password"), ("user1", "pass123")]);

    let auth_manager = AuthManager::new(&users).ok().unwrap();

    // Test successful authentication
    assert!(auth_manager.authenticate("admin", "password").ok().unwrap());
    assert!(auth_manager.authenticate("user1", "pass123").ok().unwrap());

    // Test failed authentication
    assert!(auth_manager.authenticate("admin", "wrongpass").is_err());
    assert!(auth_manager.authenticate("nonexistent", "password").is_err());
}

#[test]
fn auth_failures_are_authentication_failed() {
    let auth_manager = AuthManager::new(&users(&[("u", "p")])).ok().unwrap();
    assert!(matches!(
        auth_manager.authenticate("u", "x"),
        Err(AuthError::AuthenticationFailed)
    ));
    assert!(matches!(
        auth_manager.authenticate("v", "p"),
        Err(AuthError::AuthenticationFailed)
    ));
    assert!(auth_manager.check("u", "p"));
    assert!(!auth_manager.check("u", "x"));
    assert!(!auth_manager.check("U", "p"));
}

#[test]
fn has_users_reports_configuration() {
    let none = AuthManager::new(&Vec::new()).ok().unwrap();
    assert!(!none.has_users());
    assert!(!none.check("u", "p"));
    let some = AuthManager::new(&users(&[("u", "p")])).ok().unwrap();
    assert!(some.has_users());
}

#[test]
fn repeated_user_keeps_last_password() {
    let auth_manager = AuthManager::new(&users(&[("u", "first"), ("u", "second")]))
        .ok()
        .unwrap();
    assert!(auth_manager.check("u", "second"));
    assert!(!auth_manager.check("u", "first"));
}

#[test]
fn verification_outcomes_map_to_login_results() {
    assert!(matches!(AuthManager::outcome_of_verification(Ok(true)), Ok(true)));
    assert!(matches!(
        AuthManager::outcome_of_verification(Ok(false)),
        Err(AuthError::AuthenticationFailed)
    ));
    let bad = bcrypt::verify("p", "not a hash");
    assert!(bad.is_err());
    assert!(matches!(
        AuthManager::outcome_of_verification(bad),
        Err(AuthError::HashingError(_))
    ));
}
