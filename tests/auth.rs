use rediserve::auth::check_auth;

#[test]
fn test_unauthorization() {
    assert!(!check_auth(Some("tok"), None, ""));
}

#[test]
fn test_query_authorization() {
    assert!(check_auth(Some("tok"), None, "_token=tok"));
}

#[test]
fn test_header_authorization() {
    assert!(check_auth(Some("tok"), Some("Bearer tok"), ""));
}

#[test]
fn no_server_token_lets_everything_through() {
    assert!(check_auth(None, None, ""));
}

#[test]
fn bearer_prefix_is_stripped_repeatedly() {
    assert!(check_auth(Some("tok"), Some("Bearer Bearer tok"), ""));
    assert!(!check_auth(Some("tok"), Some("bearer tok"), ""));
    assert!(!check_auth(Some("tok"), Some("Bearer tok2"), ""));
}

#[test]
fn query_token_is_decoded_and_first_wins() {
    assert!(check_auth(Some("a b!"), None, "x=1&_token=a+b%21"));
    assert!(!check_auth(Some("tok"), None, "_token=x&_token=tok"));
    assert!(check_auth(Some("tok"), Some("Bearer nope"), "_token=tok"));
}
