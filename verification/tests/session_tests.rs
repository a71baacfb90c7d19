use f1clash_setup::session::hash_token;

#[test]
fn hash_token_is_64_char_hex() {
    let h = hash_token("550e8400-e29b-41d4-a716-446655440000");
    assert_eq!(h.len(), 64);
    assert!(h.chars().all(|c| c.is_ascii_hexdigit()));
}

#[test]
fn hash_token_is_deterministic() {
    let a = hash_token("test-token");
    let b = hash_token("test-token");
    assert_eq!(a, b);
}

#[test]
fn hash_token_different_inputs_differ() {
    let a = hash_token("token-a");
    let b = hash_token("token-b");
    assert_ne!(a, b);
}

#[test]
fn hash_token_of_empty_string_is_the_sha256_of_nothing() {
    assert_eq!(
        hash_token(""),
        "e3b0c44298fc1c149afbf4c8996fb92427ae41e4649b934ca495991b7852b855"
    );
}
