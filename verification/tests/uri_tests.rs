use secretspec_provider_sops::uri::cli_target;
use secretspec_provider_sops::{FieldSpec, SopsUri, UriError};

#[test]
fn parse_bare_path() {
    let u = SopsUri::parse("sops://./secrets.yaml").unwrap();
    assert_eq!(u.file, "./secrets.yaml");
    assert!(u.key.is_none());
    assert!(u.format.is_none());
    assert!(u.extra.is_empty());
}

#[test]
fn parse_query_form() {
    let u = SopsUri::parse("sops://./secrets.yaml?key=NVIDIA_API_KEY&f=yaml").unwrap();
    assert_eq!(u.file, "./secrets.yaml");
    assert_eq!(u.key.as_deref(), Some("NVIDIA_API_KEY"));
    assert_eq!(u.format.as_deref(), Some("yaml"));
}

#[test]
fn parse_fragment_form() {
    let u = SopsUri::parse("sops://./secrets.yaml#nvidia_api_key").unwrap();
    assert_eq!(u.file, "./secrets.yaml");
    assert_eq!(u.key.as_deref(), Some("nvidia_api_key"));
}

#[test]
fn parse_unknown_query_preserved() {
    let u = SopsUri::parse("sops://./secrets.yaml?age_recipient=age1abc&f=json").unwrap();
    assert_eq!(u.format.as_deref(), Some("json"));
    assert_eq!(
        u.extra,
        vec![("age_recipient".to_string(), "age1abc".to_string())]
    );
}

#[test]
fn parse_rejects_wrong_scheme() {
    assert!(SopsUri::parse("vault://foo").is_err());
    assert!(SopsUri::parse("./secrets.yaml").is_err());
}

#[test]
fn parse_rejects_empty_path() {
    assert!(SopsUri::parse("sops://").is_err());
    assert!(SopsUri::parse("sops://?key=foo").is_err());
}

#[test]
fn parse_rejects_empty_fragment() {
    assert!(SopsUri::parse("sops://./secrets.yaml#").is_err());
}

#[test]
fn display_redacts_nothing_in_sopsuri() {
    let u = SopsUri::parse("sops://./secrets.yaml?key=NVIDIA_API_KEY&f=yaml").unwrap();
    let s = u.to_public_string();
    assert_eq!(s, "sops://./secrets.yaml?key=NVIDIA_API_KEY&f=yaml");
}

#[test]
fn fieldspec_display_redacts_sensitive_by_default() {
    let f = FieldSpec::new("age_key", "vault://secret/data/age_key?auth=approle");
    let s = f.display_string();
    assert_eq!(s, "age_key=***");
    assert!(!s.contains("vault://"));
    assert!(!s.contains("approle"));
}

#[test]
fn fieldspec_display_shows_public_uris() {
    let f = FieldSpec::new("vault_addr", "https://astral-key:8080").public();
    let s = f.display_string();
    assert_eq!(s, "vault_addr=https://astral-key:8080");
}

#[test]
fn fieldspec_uri_redacted_returns_raw() {
    let f = FieldSpec::new("age_key", "vault://secret/data/age_key");
    assert_eq!(f.uri_redacted(), "vault://secret/data/age_key");
}

#[test]
fn fromstr_roundtrip() {
    let s = "sops://./secrets.yaml?key=foo&f=yaml";
    let u: SopsUri = s.parse().unwrap();
    assert_eq!(u.to_public_string(), s);
}

#[test]
fn parse_error_variants_and_messages() {
    match SopsUri::parse("vault://foo") {
        Err(UriError::WrongScheme(s)) => assert_eq!(s, "vault://foo"),
        other => panic!("expected WrongScheme, got {other:?}"),
    }
    let e = SopsUri::parse("vault://foo").unwrap_err();
    assert_eq!(e.message(), "URI does not start with `sops://`: \"vault://foo\"");
    assert_eq!(SopsUri::parse("sops://").unwrap_err(), UriError::EmptyPath);
    assert_eq!(SopsUri::parse("sops://").unwrap_err().message(), "URI is missing the file path");
    match SopsUri::parse("sops://./secrets.yaml#") {
        Err(UriError::Malformed(m)) => assert_eq!(m, "empty fragment; use `?key=X` instead"),
        other => panic!("expected Malformed, got {other:?}"),
    }
}

#[test]
fn parse_format_long_name_and_last_wins() {
    let u = SopsUri::parse("sops://a.env?format=dotenv&f=json&&x").unwrap();
    assert_eq!(u.file, "a.env");
    assert_eq!(u.format.as_deref(), Some("json"));
    assert_eq!(u.extra, vec![("x".to_string(), String::new())]);
}

#[test]
fn public_string_renders_fragment_key_as_query() {
    let u = SopsUri::parse("sops://./secrets.yaml#nvidia_api_key").unwrap();
    assert_eq!(u.to_public_string(), "sops://./secrets.yaml?key=nvidia_api_key");
    let again = SopsUri::parse(&u.to_public_string()).unwrap();
    assert_eq!(again, u);
}

#[test]
fn cli_target_plain_path_and_uri() {
    assert_eq!(
        cli_target("secrets.yaml", Some("yaml")),
        ("secrets.yaml".to_string(), Some("yaml".to_string()))
    );
    assert_eq!(cli_target("secrets.env", None), ("secrets.env".to_string(), None));
    assert_eq!(
        cli_target("sops://./s.bin?f=bin", None),
        ("./s.bin".to_string(), Some("bin".to_string()))
    );
    // The flag takes precedence over the URI's format.
    assert_eq!(
        cli_target("sops://./s.bin?f=bin", Some("yaml")),
        ("./s.bin".to_string(), Some("yaml".to_string()))
    );
}
