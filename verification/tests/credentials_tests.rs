use secretspec_provider_sops::{CredentialValue, CredentialsChain, CredentialsError, FieldSpec};

fn resolver_with(map: &[(&str, &str)]) -> impl Fn(&str) -> Result<String, String> {
    let map: std::collections::HashMap<String, String> = map
        .iter()
        .map(|(k, v)| (k.to_string(), v.to_string()))
        .collect();
    move |uri: &str| match map.get(uri) {
        Some(v) => Ok(v.clone()),
        None => Err(format!("no resolver entry for uri={uri}")),
    }
}

#[test]
fn resolve_all_happy_path() {
    let chain = CredentialsChain::new()
        .with(FieldSpec::new("age_key", "vault://vault/data/age_key"))
        .with(FieldSpec::new("aws_secret_access_key", "onepassword://Homelab/aws"));
    let r = resolver_with(&[
        ("vault://vault/data/age_key", "AGE-PRIVKEY-PAYLOAD"),
        ("onepassword://Homelab/aws", "AWS-SECRET-PAYLOAD"),
    ]);
    let v = chain.resolve_all(&r).expect("resolve");
    assert_eq!(v.len(), 2);
    assert_eq!(v[0].name, "age_key");
    assert_eq!(v[0].value_plaintext(), "AGE-PRIVKEY-PAYLOAD");
    assert!(v[0].sensitive);
    assert_eq!(v[1].name, "aws_secret_access_key");
}

#[test]
fn resolve_all_empty_chain_errors() {
    let chain = CredentialsChain::new();
    let r = resolver_with(&[]);
    let err = match chain.resolve_all(&r) {
        Err(e) => e,
        Ok(_) => panic!("empty chain"),
    };
    assert!(matches!(err, CredentialsError::EmptyChain));
}

#[test]
fn resolve_all_partial_failure_reports_first() {
    let chain = CredentialsChain::new()
        .with(FieldSpec::new("age_key", "vault://vault/data/age_key"))
        .with(FieldSpec::new("vm_token", "vm://x"));
    let r = resolver_with(&[("vault://vault/data/age_key", "AGE-OK")]);
    let err = match chain.resolve_all(&r) {
        Err(e) => e,
        Ok(_) => panic!("partial fail"),
    };
    match err {
        CredentialsError::ResolveFailed { name, source_uri, cause } => {
            assert_eq!(name, "vm_token");
            assert_eq!(source_uri, "vm://x");
            assert!(cause.contains("no resolver entry"));
        }
        other => panic!("expected ResolveFailed, got {other:?}"),
    }
}

#[test]
fn credentialvalue_debug_masks_sensitive() {
    let cv = CredentialValue {
        name: "age_key".into(),
        value: "SUPER-SECRET".into(),
        sensitive: true,
        source_uri: "vault://vault/data/age_key".into(),
    };
    let dbg = cv.debug_string();
    assert!(!dbg.contains("SUPER-SECRET"), "secret must not appear in Debug: {dbg}");
    assert!(dbg.contains("***"), "Debug should mask with ***: {dbg}");
    assert!(dbg.contains("vault://vault/data/age_key"));
}

#[test]
fn credentialvalue_debug_shows_public() {
    let cv = CredentialValue {
        name: "vault_addr".into(),
        value: "https://astral-key:8080".into(),
        sensitive: false,
        source_uri: "vault://https://astral-key:8080".into(),
    };
    let dbg = cv.debug_string();
    assert!(dbg.contains("https://astral-key:8080"));
}

#[test]
fn credentialvalue_display_always_masks() {
    let cv_public = CredentialValue {
        name: "vault_addr".into(),
        value: "https://astral-key:8080".into(),
        sensitive: false,
        source_uri: "vault://https://astral-key:8080".into(),
    };
    let s = cv_public.display_string();
    assert_eq!(s, "vault_addr=***");
}

#[test]
fn credentialvalue_debug_exact_form() {
    let cv = CredentialValue {
        name: "age_key".into(),
        value: "SUPER-SECRET".into(),
        sensitive: true,
        source_uri: "vault://x".into(),
    };
    assert_eq!(
        cv.debug_string(),
        "CredentialValue { name: \"age_key\", value: \"***\", sensitive: true, source_uri: \"vault://x\" }"
    );
}

#[test]
fn chain_builder_counts_fields_in_order() {
    let chain = CredentialsChain::new();
    assert!(chain.is_empty());
    assert_eq!(chain.len(), 0);
    let chain = chain
        .with(FieldSpec::new("a", "vault://a"))
        .with(FieldSpec::new("b", "https://b").public());
    assert!(!chain.is_empty());
    assert_eq!(chain.len(), 2);
    assert_eq!(chain.fields()[0].name, "a");
    assert_eq!(chain.fields()[1].name, "b");
    assert!(chain.fields()[0].sensitive);
    assert!(!chain.fields()[1].sensitive);
}

#[test]
fn credentials_error_messages() {
    let e = CredentialsError::ResolveFailed {
        name: "vm_token".into(),
        source_uri: "vm://x".into(),
        cause: "boom".into(),
    };
    assert!(e.message().contains("vm_token"));
    assert!(CredentialsError::EmptyChain.message().len() > 0);
}
