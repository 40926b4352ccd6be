use shortty::errors::ValidationError;
use shortty::validate_url::{is_valid_domain, normalize_url};

#[test]
fn normalization_determinism_bare_host() {
    assert_eq!(normalize_url("example.com").unwrap(), "https://example.com");
}

#[test]
fn normalization_determinism_with_scheme() {
    assert_eq!(normalize_url("https://example.com").unwrap(), "https://example.com");
}

#[test]
fn normalization_determinism_trailing_slash() {
    assert_eq!(normalize_url("https://example.com/").unwrap(), "https://example.com");
}

#[test]
fn normalization_trims_whitespace() {
    assert_eq!(normalize_url("  https://example.com  ").unwrap(), "https://example.com");
}

#[test]
fn normalization_keeps_real_paths() {
    assert_eq!(normalize_url("https://example.com/path/").unwrap(), "https://example.com/path/");
    assert_eq!(normalize_url("https://example.com/a?q=1").unwrap(), "https://example.com/a?q=1");
}

#[test]
fn rejects_empty_input() {
    assert_eq!(normalize_url("").unwrap_err(), ValidationError::Empty);
    assert_eq!(normalize_url("   ").unwrap_err(), ValidationError::Empty);
}

#[test]
fn rejects_over_long_input() {
    let long = "a".repeat(3000);
    assert_eq!(normalize_url(&long).unwrap_err(), ValidationError::TooLong);
}

#[test]
fn rejects_unparsable_input() {
    assert_eq!(normalize_url("exa mple.com").unwrap_err(), ValidationError::Unparsable);
}

#[test]
fn rejects_undotted_host() {
    assert_eq!(normalize_url("https://localhost").unwrap_err(), ValidationError::InvalidDomain);
}

#[test]
fn rejects_ip_looking_host() {
    assert_eq!(normalize_url("https://127.0.0.1").unwrap_err(), ValidationError::InvalidDomain);
}

#[test]
fn domain_validation_on_full_urls() {
    assert!(is_valid_domain("https://example.com"));
    assert!(is_valid_domain("https://sub.example.co.uk"));
    assert!(!is_valid_domain("https://localhost"));
    assert!(!is_valid_domain("https://127.0.0.1"));
    assert!(!is_valid_domain("not a url"));
}

#[test]
fn validation_error_messages() {
    assert_eq!(ValidationError::Empty.message(), "URL cannot be empty");
    assert_eq!(ValidationError::TooLong.message(), "URL too long (max 2048 characters)");
    assert_eq!(ValidationError::Unparsable.message(), "Failed to parse URL");
    assert_eq!(ValidationError::InvalidDomain.message(), "Invalid domain format");
}
