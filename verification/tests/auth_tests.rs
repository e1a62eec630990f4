use peerstore::auth::AuthSystem;

#[test]
fn register_and_login() {
    let mut auth = AuthSystem::new();
    assert!(auth.register_user("user1", "password1"));
    assert!(!auth.register_user("user1", "password2")); // name taken

    let token = auth.login("user1", "password1");
    assert!(token.is_some());
    let token = token.unwrap();
    assert_eq!(token.len(), 30);

    assert!(auth.login("user1", "wrong_password").is_none());
    assert!(auth.login("ghost", "password1").is_none());

    assert!(auth.validate_token("user1", &token));
    assert!(!auth.validate_token("user1", "not-the-token"));
    assert!(!auth.validate_token("ghost", &token));

    assert!(auth.logout("user1"));
    assert!(!auth.validate_token("user1", &token)); // token cleared
    assert!(!auth.logout("ghost"));
}

#[test]
fn fresh_login_replaces_token() {
    let mut auth = AuthSystem::new();
    auth.register_user("u", "pw");
    let first = auth.login("u", "pw").unwrap();
    let second = auth.login("u", "pw").unwrap();
    assert!(auth.validate_token("u", &second));
    if first != second {
        assert!(!auth.validate_token("u", &first));
    }
}
