use notes_kit::auth::UserInfo;
use notes_kit::session::AuthState;

fn alice() -> UserInfo {
    UserInfo { email: "alice@example.org".to_string(), display_name: None, assigned_levels: vec!["phd".to_string()] }
}

#[test]
fn prompts_name_the_access_or_the_failure() {
    let mut a = AuthState::new();
    assert!(!a.is_authenticated());
    a.request_login("phd");
    assert_eq!(a.login_prompt.as_deref(), Some("This content requires 'phd' access"));
    a.request_login_any();
    assert_eq!(a.login_prompt.as_deref(), Some(""));
    a.login_failed("invalid credentials");
    assert_eq!(a.login_prompt.as_deref(), Some("Login failed: invalid credentials"));
    a.close_login_prompt();
    assert!(a.login_prompt.is_none());
}

#[test]
fn signing_in_and_out_sets_the_user() {
    let mut a = AuthState::new();
    a.request_login_any();
    a.logged_in(Some(Some(alice())));
    assert!(a.is_authenticated());
    assert!(a.login_prompt.is_none());
    assert_eq!(a.user.as_ref().map(|u| u.email.as_str()), Some("alice@example.org"));
    a.logged_in(None);
    assert!(a.is_authenticated());
    a.logged_out();
    assert!(!a.is_authenticated());
}
