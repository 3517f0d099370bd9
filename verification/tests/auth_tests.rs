use navis_extension::auth::{
    validate_auth_header_name, validate_secret_header_value, AuthErrorKind, AuthScheme,
    ProviderAuthProfile,
};

#[test]
fn schemes_parse_from_canonical_spelling() {
    assert_eq!(AuthScheme::parse(" bearer ").unwrap(), AuthScheme::Bearer);
    assert_eq!(AuthScheme::parse("api-key").unwrap(), AuthScheme::ApiKey);
    assert_eq!(AuthScheme::parse("custom").unwrap(), AuthScheme::Custom);
    assert_eq!(AuthScheme::parse("none").unwrap(), AuthScheme::NoAuth);
    let e = AuthScheme::parse(" Basic ").unwrap_err();
    assert_eq!(e.kind, AuthErrorKind::UnsupportedScheme);
    assert_eq!(e.to_string(), "不支持的 Gateway auth scheme: Basic");
}

#[test]
fn manifest_profiles() {
    let p = ProviderAuthProfile::from_manifest("bearer", "authorization").unwrap();
    assert_eq!(p.scheme(), AuthScheme::Bearer);
    assert_eq!(p.header_name(), Some("authorization"));
    assert!(p.requires_secret());

    let p = ProviderAuthProfile::from_manifest("api-key", " X-Api-Key ").unwrap();
    assert_eq!(p.header_name(), Some("X-Api-Key"));
    assert!(p.requires_secret());

    let p = ProviderAuthProfile::from_manifest("none", "  ").unwrap();
    assert_eq!(p.scheme(), AuthScheme::NoAuth);
    assert_eq!(p.header_name(), None);
    assert!(!p.requires_secret());

    assert_eq!(
        ProviderAuthProfile::from_manifest("none", "x-api-key").unwrap_err().kind,
        AuthErrorKind::HeaderNotAllowed
    );
    assert_eq!(
        ProviderAuthProfile::from_manifest("bearer", "x-api-key").unwrap_err().kind,
        AuthErrorKind::BearerRequiresAuthorization
    );
    assert_eq!(
        ProviderAuthProfile::from_manifest("custom", "Host").unwrap_err().kind,
        AuthErrorKind::ProtectedHeader
    );
}

#[test]
fn builtin_profiles() {
    let p = ProviderAuthProfile::from_builtin(AuthScheme::Bearer, None, true).unwrap();
    assert_eq!(p.header_name(), Some("Authorization"));
    assert_eq!(
        ProviderAuthProfile::from_builtin(AuthScheme::ApiKey, None, true).unwrap_err().kind,
        AuthErrorKind::HeaderRequired
    );
    let p = ProviderAuthProfile::from_builtin(AuthScheme::NoAuth, Some(""), false).unwrap();
    assert_eq!(p, ProviderAuthProfile::none());
}

#[test]
fn header_names_are_checked() {
    assert_eq!(validate_auth_header_name("  x-api-key ").unwrap(), "x-api-key");
    assert_eq!(validate_auth_header_name("").unwrap_err().kind, AuthErrorKind::InvalidHeaderName);
    assert_eq!(validate_auth_header_name("x api").unwrap_err().kind, AuthErrorKind::InvalidHeaderName);
    assert_eq!(validate_auth_header_name("x(api)").unwrap_err().kind, AuthErrorKind::InvalidHeaderName);
    let long = "x".repeat(129);
    assert_eq!(validate_auth_header_name(&long).unwrap_err().kind, AuthErrorKind::InvalidHeaderName);
    let e = validate_auth_header_name("Cookie").unwrap_err();
    assert_eq!(e.to_string(), "认证 header 不允许使用受保护的 header: Cookie");
}

#[test]
fn secret_values_are_checked() {
    assert!(validate_secret_header_value("sk-123").is_ok());
    assert!(validate_secret_header_value("").is_err());
    assert!(validate_secret_header_value("a\nb").is_err());
    assert!(validate_secret_header_value(&"a".repeat(8193)).is_err());
    assert!(validate_secret_header_value(&"a".repeat(8192)).is_ok());
}

#[test]
fn auth_headers_carry_the_secret() {
    let bearer = ProviderAuthProfile::from_manifest("bearer", "Authorization").unwrap();
    let headers = bearer.auth_headers(Some("sk-1")).unwrap();
    assert_eq!(
        headers,
        vec![
            ("content-type".to_string(), "application/json".to_string()),
            ("authorization".to_string(), "Bearer sk-1".to_string()),
        ]
    );
    let api = ProviderAuthProfile::from_manifest("api-key", "X-Api-Key").unwrap();
    let headers = api.auth_headers(Some("k")).unwrap();
    assert_eq!(headers[1], ("x-api-key".to_string(), "k".to_string()));
    assert_eq!(api.auth_headers(None).unwrap_err().kind, AuthErrorKind::SecretMissing);

    let none = ProviderAuthProfile::none();
    assert_eq!(none.auth_headers(None).unwrap().len(), 1);
    assert_eq!(none.auth_headers(Some("k")).unwrap_err().kind, AuthErrorKind::SecretNotAllowed);
    assert_eq!(bearer.auth_headers(Some("a\u{1}b")).unwrap_err().kind, AuthErrorKind::UnsafeSecret);
}
