use f1clash_setup::analytics::{guard, Unauthorized};
use f1clash_setup::auth::{auth_status, base64_encode, get_cookie, login_cookie, session_token_for, AuthStatus};

#[test]
fn get_cookie_finds_the_named_cookie() {
    let h = Some("theme=dark; admin_session=tok123; lang=en");
    assert_eq!(get_cookie(h, "admin_session"), Some("tok123".to_string()));
    assert_eq!(get_cookie(h, "theme"), Some("dark".to_string()));
    assert_eq!(get_cookie(h, "lang"), Some("en".to_string()));
}

#[test]
fn get_cookie_takes_the_first_occurrence() {
    assert_eq!(get_cookie(Some("a=1; a=2"), "a"), Some("1".to_string()));
}

#[test]
fn get_cookie_needs_the_whole_name() {
    assert_eq!(get_cookie(Some("admin_session=tok"), "admin"), None);
    assert_eq!(get_cookie(Some("xadmin=tok"), "admin"), None);
}

#[test]
fn get_cookie_without_header_or_cookie_is_none() {
    assert_eq!(get_cookie(None, "admin_session"), None);
    assert_eq!(get_cookie(Some(""), "admin_session"), None);
    assert_eq!(get_cookie(Some("other=1"), "admin_session"), None);
}

#[test]
fn get_cookie_value_may_be_empty() {
    assert_eq!(get_cookie(Some("admin_session="), "admin_session"), Some(String::new()));
}

#[test]
fn auth_disabled_without_a_token() {
    let s = auth_status(None, Some("admin_session=anything"));
    assert_eq!(s, AuthStatus { enabled: false, logged_in: false });
}

#[test]
fn auth_logged_in_with_matching_cookie() {
    let s = auth_status(Some("tok"), Some("x=1; admin_session=tok"));
    assert_eq!(s, AuthStatus { enabled: true, logged_in: true });
}

#[test]
fn auth_not_logged_in_with_wrong_or_missing_cookie() {
    assert_eq!(
        auth_status(Some("tok"), Some("admin_session=nope")),
        AuthStatus { enabled: true, logged_in: false }
    );
    assert_eq!(auth_status(Some("tok"), None), AuthStatus { enabled: true, logged_in: false });
}

#[test]
fn login_sets_the_session_cookie_on_the_right_password() {
    assert_eq!(
        login_cookie(Some("tok"), Some("pw"), "pw"),
        Some("admin_session=tok; HttpOnly; Path=/; SameSite=Lax".to_string())
    );
}

#[test]
fn login_refuses_a_wrong_password_or_missing_config() {
    assert_eq!(login_cookie(Some("tok"), Some("pw"), "other"), None);
    assert_eq!(login_cookie(None, Some("pw"), "pw"), None);
    assert_eq!(login_cookie(Some("tok"), None, "pw"), None);
}

#[test]
fn base64_known_vectors() {
    assert_eq!(base64_encode(b""), "");
    assert_eq!(base64_encode(b"f"), "Zg==");
    assert_eq!(base64_encode(b"fo"), "Zm8=");
    assert_eq!(base64_encode(b"foo"), "Zm9v");
    assert_eq!(base64_encode(b"foob"), "Zm9vYg==");
    assert_eq!(base64_encode(b"fooba"), "Zm9vYmE=");
    assert_eq!(base64_encode(b"foobar"), "Zm9vYmFy");
    assert_eq!(base64_encode(&[0xff, 0xfe, 0xfd]), "//79");
}

#[test]
fn base64_length_is_four_per_started_group() {
    for n in 0..20usize {
        let bytes = vec![7u8; n];
        assert_eq!(base64_encode(&bytes).len(), 4 * ((n + 2) / 3));
    }
}

#[test]
fn session_token_is_base64_of_prefixed_password() {
    assert_eq!(session_token_for("secret"), "ZjFjbGFzaC1hZG1pbjpzZWNyZXQ=");
    assert_eq!(session_token_for(""), "ZjFjbGFzaC1hZG1pbjo=");
}

#[test]
fn session_cookie_of_the_token_logs_in() {
    let token = session_token_for("secret");
    let cookie = login_cookie(Some(&token), Some("secret"), "secret").unwrap();
    let header = cookie.split(';').next().unwrap().to_string();
    let s = auth_status(Some(&token), Some(&header));
    assert!(s.logged_in);
}

#[test]
fn guard_refuses_only_enabled_and_logged_out() {
    assert_eq!(guard(&AuthStatus { enabled: true, logged_in: false }), Err(Unauthorized));
    assert_eq!(guard(&AuthStatus { enabled: true, logged_in: true }), Ok(()));
    assert_eq!(guard(&AuthStatus { enabled: false, logged_in: false }), Ok(()));
}
