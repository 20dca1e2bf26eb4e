use rlinks::redirect::{validate_redirect, validate_with_scheme, Redirect, ValidationError};

fn redirect(code: &str, target: &str) -> Redirect {
    Redirect {
        code: code.to_string(),
        target: target.to_string(),
    }
}

#[test]
fn valid_redirect_passes() {
    let r = redirect("ok-1", "https://example.com/path");
    assert!(validate_redirect(&r).is_ok());
}

#[test]
fn invalid_code_fails() {
    let r = redirect("!bad", "https://example.com");
    assert!(matches!(
        validate_redirect(&r),
        Err(ValidationError::InvalidCode)
    ));
}

#[test]
fn reserved_code_fails() {
    let r = redirect("api", "https://example.com");
    assert!(matches!(
        validate_redirect(&r),
        Err(ValidationError::ReservedCode)
    ));
}

#[test]
fn insecure_target_fails() {
    let r = redirect("ok", "http://example.com");
    assert!(matches!(
        validate_redirect(&r),
        Err(ValidationError::InsecureTarget)
    ));
}

#[test]
fn invalid_target_fails() {
    let r = redirect("ok", "not-a-url");
    assert!(matches!(
        validate_redirect(&r),
        Err(ValidationError::InvalidTarget)
    ));
}

#[test]
fn test_create_invalid_redirect_reserved() {
    let r = redirect("api", "https://example.com");
    let res = validate_redirect(&r);
    assert!(res.is_err(), "CLI should fail for reserved code");
    assert!(
        matches!(res, Err(ValidationError::ReservedCode)),
        "Stderr should contain validation error"
    );
}

#[test]
fn test_create_invalid_redirect_url() {
    let r = redirect("valid-code", "not-a-url");
    let res = validate_redirect(&r);
    assert!(res.is_err(), "CLI should fail for invalid URL");
    assert!(
        matches!(res, Err(ValidationError::InvalidTarget)),
        "Stderr should contain validation error"
    );
}

#[test]
fn test_create_invalid_redirect_http() {
    let r = redirect("valid-code", "http://example.com");
    assert!(
        validate_redirect(&r).is_err(),
        "CLI should fail for HTTP URL without flag"
    );
}

#[test]
fn test_create_valid_redirect() {
    let r = redirect("test-code", "https://example.com");
    assert_eq!(validate_redirect(&r), Ok(()), "CLI should succeed for valid redirect");
    assert_eq!(r.code, "test-code");
    assert_eq!(r.target, "https://example.com");
}

#[test]
fn code_length_limits() {
    assert!(matches!(
        validate_redirect(&redirect("a", "https://example.com")),
        Err(ValidationError::InvalidCode)
    ));
    assert!(validate_redirect(&redirect("ab", "https://example.com")).is_ok());
    let longest = "a".repeat(32);
    assert!(validate_redirect(&redirect(&longest, "https://example.com")).is_ok());
    let too_long = "a".repeat(33);
    assert!(matches!(
        validate_redirect(&redirect(&too_long, "https://example.com")),
        Err(ValidationError::InvalidCode)
    ));
    assert!(matches!(
        validate_redirect(&redirect("ab\n", "https://example.com")),
        Err(ValidationError::InvalidCode)
    ));
    assert!(matches!(
        validate_redirect(&redirect("héllo", "https://example.com")),
        Err(ValidationError::InvalidCode)
    ));
}

#[test]
fn other_reserved_codes_fail() {
    for code in ["admin", "www"] {
        assert!(matches!(
            validate_redirect(&redirect(code, "https://example.com")),
            Err(ValidationError::ReservedCode)
        ));
    }
    assert!(validate_redirect(&redirect("apis", "https://example.com")).is_ok());
}

#[test]
fn scheme_is_read_after_parsing() {
    assert!(validate_redirect(&redirect("ok", "HTTPS://example.com")).is_ok());
    assert!(matches!(
        validate_redirect(&redirect("ok", "ftp://example.com")),
        Err(ValidationError::InsecureTarget)
    ));
}

#[test]
fn validate_with_given_scheme() {
    let r = redirect("ok", "ignored");
    assert_eq!(validate_with_scheme(&r, Some("https".to_string())), Ok(()));
    assert_eq!(
        validate_with_scheme(&r, Some("http".to_string())),
        Err(ValidationError::InsecureTarget)
    );
    assert_eq!(
        validate_with_scheme(&r, None),
        Err(ValidationError::InvalidTarget)
    );
    let bad = redirect("!", "https://example.com");
    assert_eq!(
        validate_with_scheme(&bad, Some("https".to_string())),
        Err(ValidationError::InvalidCode)
    );
}

#[test]
fn redirects_compare_by_fields() {
    assert!(redirect("abc123", "https://example.com") == redirect("abc123", "https://example.com"));
    assert!(redirect("abc123", "https://example.com") != redirect("abc124", "https://example.com"));
    assert_eq!(ValidationError::InsecureTarget.message(), "target must be https");
}
