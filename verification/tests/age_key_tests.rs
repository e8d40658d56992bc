//! The helper that test fixtures use to read the public key that
//! `age-keygen` prints.

fn parse_age_pubkey_line(line: &str) -> Option<String> {
    let trimmed = line.trim();
    if trimmed.starts_with("age1") {
        return Some(trimmed.to_string());
    }
    let idx = trimmed.find("age1")?;
    Some(trimmed[idx..].trim().to_string())
}

#[test]
fn parse_age_pubkey_line_accepts_bare() {
    assert_eq!(parse_age_pubkey_line("age1abc123"), Some("age1abc123".to_string()));
}

#[test]
fn parse_age_pubkey_line_accepts_prefixed() {
    assert_eq!(parse_age_pubkey_line("Public key: age1abc123"), Some("age1abc123".to_string()));
}

#[test]
fn parse_age_pubkey_line_returns_none_for_garbage() {
    assert_eq!(parse_age_pubkey_line(""), None);
    assert_eq!(parse_age_pubkey_line("not a key"), None);
}
