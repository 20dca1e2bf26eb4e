use rlinks::responder::{lookup_exit_code, lookup_target, route, trim_leading_slashes, Route};

#[test]
fn test_run_not_found() {
    let args = vec!["rlinks-worker".to_string(), "missing".to_string()];
    assert_eq!(lookup_exit_code(&args), 1);
}

#[test]
fn known_code_exits_zero_and_missing_argument_two() {
    let args = vec!["rlinks-worker".to_string(), "ok-code".to_string()];
    assert_eq!(lookup_exit_code(&args), 0);
    assert_eq!(lookup_exit_code(&vec!["rlinks-worker".to_string()]), 2);
}

#[test]
fn lookup_table() {
    assert_eq!(lookup_target("ok-code"), Some("https://example.com".to_string()));
    assert_eq!(lookup_target("ok-cod"), None);
    assert_eq!(lookup_target(""), None);
}

#[test]
fn slashes_are_trimmed() {
    assert_eq!(trim_leading_slashes("///ok-code"), "ok-code");
    assert_eq!(trim_leading_slashes("/a/b"), "a/b");
    assert_eq!(trim_leading_slashes("//"), "");
    assert_eq!(trim_leading_slashes("x"), "x");
}

#[test]
fn routes() {
    assert!(matches!(route(false, "/ok-code"), Route::MethodNotAllowed));
    assert!(matches!(route(true, "/"), Route::MissingCode));
    assert!(matches!(route(true, "/missing"), Route::NotFound));
    match route(true, "//ok-code") {
        Route::Found { code, target } => {
            assert_eq!(code, "ok-code");
            assert_eq!(target, "https://example.com");
        }
        other => panic!("unexpected {:?}", other),
    }
}
