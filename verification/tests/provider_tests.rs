use secretspec_provider_sops::infer_format_from_path;
use secretspec_provider_sops::provider::{
    bytes_after_decrypt, decrypted_bytes, decrypted_text, effective_format, extract_dotenv,
    first_output_line, normalize_format_hint, pick_executable, plan_extraction, text_after_decrypt,
    which_answer, DecryptOutcome, Extraction, PathProbe,
};
use secretspec_provider_sops::yaml::{
    extract_yaml_json, extract_yaml_json_text, parse_yaml, yaml_value_to_string, YamlKey, YamlValue,
};
use secretspec_provider_sops::{parse_dotenv_line, strip_inline_comment, SopsError, SopsProvider};

#[test]
fn closed_set_aliases_normalize() {
    assert_eq!(normalize_format_hint("yaml"), "yaml");
    assert_eq!(normalize_format_hint("yml"), "yaml");
    assert_eq!(normalize_format_hint("YAML"), "yaml");
    assert_eq!(normalize_format_hint("JSON"), "json");
    assert_eq!(normalize_format_hint("dotenv"), "dotenv");
    assert_eq!(normalize_format_hint("env"), "dotenv");
    assert_eq!(normalize_format_hint("ENV"), "dotenv");
}

#[test]
fn unknown_passes_through_lowercase() {
    assert_eq!(normalize_format_hint("bin"), "bin");
    assert_eq!(normalize_format_hint("BIN"), "bin");
}

#[test]
fn infer_format_yaml_variants() {
    assert_eq!(infer_format_from_path("secrets.yaml"), Some("yaml".to_string()));
    assert_eq!(infer_format_from_path("secrets.yml"), Some("yaml".to_string()));
}

#[test]
fn infer_format_json() {
    assert_eq!(infer_format_from_path("data.json"), Some("json".to_string()));
}

#[test]
fn infer_format_dotenv() {
    assert_eq!(infer_format_from_path(".env"), Some("dotenv".to_string()));
    assert_eq!(infer_format_from_path("config.env"), Some("dotenv".to_string()));
}

#[test]
fn infer_format_unknown_returns_lowercase_ext() {
    let f = infer_format_from_path("data.bin");
    assert_eq!(f, Some("bin".to_string()));
}

#[test]
fn infer_format_documented_examples() {
    assert_eq!(infer_format_from_path(".env.production"), Some("dotenv".to_string()));
    assert_eq!(infer_format_from_path(".env.local"), Some("dotenv".to_string()));
    assert_eq!(infer_format_from_path("no-ext"), None);
    assert_eq!(infer_format_from_path("dir/Data.YML"), Some("yaml".to_string()));
    assert_eq!(infer_format_from_path("/etc/secrets/.env"), Some("dotenv".to_string()));
    assert_eq!(infer_format_from_path("archive.tar.GZ"), Some("gz".to_string()));
    assert_eq!(infer_format_from_path(".hidden"), None);
}

#[test]
fn parse_dotenv_line_basic() {
    assert_eq!(parse_dotenv_line("FOO=bar"), Some(("FOO", "bar")));
    assert_eq!(parse_dotenv_line("FOO=\"bar baz\""), Some(("FOO", "bar baz")));
    assert_eq!(parse_dotenv_line("FOO='qux'"), Some(("FOO", "qux")));
    assert_eq!(parse_dotenv_line("FOO="), Some(("FOO", "")));
}

#[test]
fn parse_dotenv_line_export_prefix() {
    assert_eq!(parse_dotenv_line("export FOO=bar"), Some(("FOO", "bar")));
    assert_eq!(parse_dotenv_line("  export FOO=\"baz\""), Some(("FOO", "baz")));
}

#[test]
fn parse_dotenv_line_unset() {
    assert_eq!(parse_dotenv_line("unset FOO"), None);
}

#[test]
fn parse_dotenv_line_inline_comment() {
    assert_eq!(parse_dotenv_line("FOO=bar # trailing comment"), Some(("FOO", "bar")));
    assert_eq!(parse_dotenv_line("FOO=bar # comment with # in it"), Some(("FOO", "bar")));
}

#[test]
fn parse_dotenv_line_quoted_value_preserves_hash() {
    assert_eq!(parse_dotenv_line("FOO=\"bar # baz\""), Some(("FOO", "bar # baz")));
    assert_eq!(parse_dotenv_line("FOO='qux # quux'"), Some(("FOO", "qux # quux")));
}

#[test]
fn parse_dotenv_line_comment_or_blank() {
    assert_eq!(parse_dotenv_line("# comment"), None);
    assert_eq!(parse_dotenv_line(""), None);
    assert_eq!(parse_dotenv_line("   "), None);
}

#[test]
fn parse_dotenv_line_no_eq() {
    assert_eq!(parse_dotenv_line("FOObar"), None);
    assert_eq!(parse_dotenv_line("export FOObar"), None);
}

#[test]
fn parse_dotenv_line_via_export() {
    assert_eq!(parse_dotenv_line("export FOO=bar"), Some(("FOO", "bar")));
}

#[test]
fn parse_dotenv_line_ignores_blank_and_comment() {
    assert_eq!(parse_dotenv_line(""), None);
    assert_eq!(parse_dotenv_line("# comment"), None);
}

#[test]
fn strip_inline_comment_quoting() {
    assert_eq!(strip_inline_comment("bar # c"), "bar ");
    assert_eq!(strip_inline_comment("bar \"# not c\""), "bar \"# not c\"");
    assert_eq!(strip_inline_comment("bar 'still not c' # c"), "bar 'still not c' ");
    assert_eq!(strip_inline_comment("bar # a\\\"b"), "bar ");
}

#[test]
fn strip_inline_comment_escapes_inside_double_quotes() {
    // The escaped quote does not close the string, so `#` stays inside it.
    assert_eq!(strip_inline_comment("\"a\\\"#b\" # c"), "\"a\\\"#b\" ");
    assert_eq!(strip_inline_comment("no comment"), "no comment");
    assert_eq!(strip_inline_comment("#all"), "");
}

#[test]
fn parse_dotenv_line_trims_key_and_all_quotes() {
    assert_eq!(parse_dotenv_line("  KEY  =  value  "), Some(("KEY", "value")));
    assert_eq!(parse_dotenv_line("K=\"'both'\""), Some(("K", "both")));
    assert_eq!(parse_dotenv_line("K=a=b"), Some(("K", "a=b")));
}

fn exited(success: bool, stdout: &[u8], stderr: &[u8]) -> DecryptOutcome {
    DecryptOutcome::Exited { success, stdout: stdout.to_vec(), stderr: stderr.to_vec() }
}

#[test]
fn extract_dotenv_key_round_trip_text() {
    let plain = "N8N_API_KEY=replace-with-real-key\nN8N_WEBHOOK_SECRET=\"abc#def\"  # trailing comment\n# leading comment\nNIX_PACKAGES_CACHE_TOKEN=replace-with-real-token\n";
    assert_eq!(extract_dotenv(plain, "secrets.env", "N8N_API_KEY").unwrap(), "replace-with-real-key");
    assert_eq!(extract_dotenv(plain, "secrets.env", "N8N_WEBHOOK_SECRET").unwrap(), "abc#def");
    assert_eq!(
        extract_dotenv(plain, "secrets.env", "NIX_PACKAGES_CACHE_TOKEN").unwrap(),
        "replace-with-real-token"
    );
    match extract_dotenv(plain, "secrets.env", "MISSING") {
        Err(SopsError::KeyNotFound { file, key }) => {
            assert_eq!(file, "secrets.env");
            assert_eq!(key, "MISSING");
        }
        other => panic!("expected KeyNotFound, got {other:?}"),
    }
}

#[test]
fn extract_dotenv_first_definition_wins_and_crlf() {
    let plain = "A=1\r\nA=2\r\n";
    assert_eq!(extract_dotenv(plain, "f", "A").unwrap(), "1");
}

fn yaml_doc() -> YamlValue {
    let services = YamlValue::Mapping {
        entries: vec![(
            YamlKey::Str("openai".to_string()),
            YamlValue::Mapping {
                entries: vec![(YamlKey::Str("org_id".to_string()), YamlValue::Str("org-123".to_string()))],
                rendered: Some("org_id: org-123\n".to_string()),
            },
        )],
        rendered: Some("openai:\n  org_id: org-123\n".to_string()),
    };
    YamlValue::Mapping {
        entries: vec![
            (YamlKey::Str("nvidia_api_key".to_string()), YamlValue::Str("nvapi-test-replace-me".to_string())),
            (YamlKey::Str("openai_org_id".to_string()), YamlValue::Str("org-test-replace-me".to_string())),
            (YamlKey::Str("port".to_string()), YamlValue::Number("8080".to_string())),
            (YamlKey::Str("enabled".to_string()), YamlValue::Bool(true)),
            (YamlKey::Str("nothing".to_string()), YamlValue::Null),
            (YamlKey::Other, YamlValue::Str("numeric key".to_string())),
            (YamlKey::Str("list".to_string()), YamlValue::Other { rendered: Some("- a\n- b\n".to_string()) }),
            (YamlKey::Str("services".to_string()), services),
        ],
        rendered: None,
    }
}

#[test]
fn extract_yaml_key_round_trip_parsed() {
    let doc = Ok(yaml_doc());
    assert_eq!(extract_yaml_json(&doc, "secrets.yaml", "nvidia_api_key").unwrap(), "nvapi-test-replace-me");
    assert_eq!(extract_yaml_json(&doc, "secrets.yaml", "openai_org_id").unwrap(), "org-test-replace-me");
}

#[test]
fn extract_missing_yaml_key_is_key_not_found() {
    let doc = Ok(yaml_doc());
    match extract_yaml_json(&doc, "secrets.yaml", "not_a_real_key") {
        Err(SopsError::KeyNotFound { file, key }) => {
            assert_eq!(file, "secrets.yaml");
            assert_eq!(key, "not_a_real_key");
        }
        other => panic!("expected KeyNotFound, got {other:?}"),
    }
}

#[test]
fn extract_yaml_dot_paths_and_scalars() {
    let doc = Ok(yaml_doc());
    assert_eq!(extract_yaml_json(&doc, "f", "services.openai.org_id").unwrap(), "org-123");
    assert_eq!(extract_yaml_json(&doc, "f", "services.openai").unwrap(), "org_id: org-123");
    assert_eq!(extract_yaml_json(&doc, "f", "port").unwrap(), "8080");
    assert_eq!(extract_yaml_json(&doc, "f", "enabled").unwrap(), "true");
    assert_eq!(extract_yaml_json(&doc, "f", "nothing").unwrap(), "");
    assert_eq!(extract_yaml_json(&doc, "f", "list").unwrap(), "- a\n- b");
    // A step through a non-mapping, or an empty piece, finds nothing.
    assert!(matches!(extract_yaml_json(&doc, "f", "port.x"), Err(SopsError::KeyNotFound { .. })));
    assert!(matches!(extract_yaml_json(&doc, "f", "services..org_id"), Err(SopsError::KeyNotFound { .. })));
    // An empty key is a single empty piece, which no entry has.
    assert!(matches!(extract_yaml_json(&doc, "f", ""), Err(SopsError::KeyNotFound { .. })));
}

#[test]
fn extract_yaml_parse_failure_is_decryption_failure() {
    let doc: Result<YamlValue, String> = Err("did not find expected key".to_string());
    match extract_yaml_json(&doc, "f", "k") {
        Err(SopsError::DecryptionFailed(m)) => assert_eq!(m, "yaml parse: did not find expected key"),
        other => panic!("expected DecryptionFailed, got {other:?}"),
    }
}

#[test]
fn yaml_value_text_forms() {
    assert_eq!(yaml_value_to_string(&YamlValue::Bool(false)), Some("false".to_string()));
    assert_eq!(yaml_value_to_string(&YamlValue::Other { rendered: None }), None);
    assert_eq!(
        yaml_value_to_string(&YamlValue::Other { rendered: Some("  !tag x \n".to_string()) }),
        Some("!tag x".to_string())
    );
}

#[test]
fn plan_requires_sops_and_a_known_format() {
    assert_eq!(plan_extraction("s.yaml", None, false, false), Err(SopsError::SopsBinaryMissing));
    assert_eq!(plan_extraction("s.yaml", None, true, false), Ok(Extraction::Structured));
    assert_eq!(plan_extraction("s.txt", Some("JSON"), true, false), Ok(Extraction::Structured));
    assert_eq!(plan_extraction("s.env", None, true, false), Ok(Extraction::Dotenv));
    assert_eq!(
        plan_extraction("s.bin", None, true, false),
        Err(SopsError::UnsupportedFormat { format: "bin".to_string() })
    );
    assert_eq!(plan_extraction("s.bin", None, true, true), Ok(Extraction::Bin));
    assert_eq!(
        plan_extraction("noext", None, true, true),
        Err(SopsError::UnsupportedFormat { format: "<unknown extension or no extension>".to_string() })
    );
    assert_eq!(effective_format("s.yml", None), Some("yaml".to_string()));
    assert_eq!(effective_format("s.yml", Some("Env")), Some("dotenv".to_string()));
}

#[test]
fn sops_error_messages() {
    assert_eq!(
        SopsError::SopsBinaryMissing.message(),
        "`sops` binary not found in PATH; install with `nix profile install nixpkgs#sops`"
    );
    assert_eq!(
        SopsError::KeyNotFound { file: "f.yaml".into(), key: "k".into() }.message(),
        "key `k` not found in `f.yaml`"
    );
    assert_eq!(
        SopsError::UnsupportedFormat { format: "toml".into() }.message(),
        "format `toml` not supported by the crate (closed set: yaml, json, dotenv, bin)"
    );
    assert_eq!(SopsError::DecryptionFailed("x".into()).message(), "sops decryption failed: x");
    assert_eq!(SopsError::Io("gone".into()).message(), "I/O error: gone");
}

#[test]
fn decryption_outcomes() {
    assert_eq!(decrypted_text(&exited(true, b"a: 1\n", b"")), Ok("a: 1\n".to_string()));
    assert_eq!(
        decrypted_text(&exited(false, b"", b"  Failed to decrypt\n")),
        Err(SopsError::DecryptionFailed("Failed to decrypt".to_string()))
    );
    assert_eq!(
        decrypted_text(&DecryptOutcome::SpawnFailed("No such file".to_string())),
        Err(SopsError::Io("No such file".to_string()))
    );
    // Invalid UTF-8 is replaced in text, kept in bytes.
    assert_eq!(decrypted_text(&exited(true, &[0x61, 0xff], b"")), Ok("a\u{fffd}".to_string()));
    assert_eq!(decrypted_bytes(&exited(true, &[0x61, 0xff], b"")), Ok(vec![0x61, 0xff]));
}

#[test]
fn lookup_steps() {
    let out = exited(true, b"K=v\n", b"");
    assert_eq!(text_after_decrypt(Extraction::Dotenv, &out, "f.env", "K"), Ok("v".to_string()));
    assert_eq!(bytes_after_decrypt(Extraction::Dotenv, &out, "f.env", "K"), Ok(b"v".to_vec()));
    let yaml = exited(true, b"a: b\nservices:\n  openai:\n    org_id: org-1\n", b"");
    assert_eq!(text_after_decrypt(Extraction::Structured, &yaml, "f", "a"), Ok("b".to_string()));
    assert_eq!(
        text_after_decrypt(Extraction::Structured, &yaml, "f", "services.openai.org_id"),
        Ok("org-1".to_string())
    );
    assert_eq!(
        bytes_after_decrypt(Extraction::Bin, &exited(true, &[0, 159, 146, 150], b""), "f.bin", "ignored"),
        Ok(vec![0, 159, 146, 150])
    );
    assert_eq!(
        bytes_after_decrypt(Extraction::Structured, &exited(true, "k: é\n".as_bytes(), b""), "f", "k"),
        Ok("é".as_bytes().to_vec())
    );
    assert!(matches!(
        text_after_decrypt(Extraction::Structured, &exited(true, b"k: [unclosed", b""), "f", "k"),
        Err(SopsError::DecryptionFailed(m)) if m.starts_with("yaml parse: ")
    ));
}

#[test]
fn yaml_text_is_parsed() {
    let doc = parse_yaml("nvidia_api_key: nvapi-test-replace-me\nport: 8080\nok: true\nnone: ~\nlist: [a, b]\n3: three\n").unwrap();
    match &doc {
        YamlValue::Mapping { entries, .. } => {
            assert_eq!(entries.len(), 6);
            assert!(matches!(&entries[0], (YamlKey::Str(k), YamlValue::Str(v)) if k == "nvidia_api_key" && v == "nvapi-test-replace-me"));
            assert!(matches!(&entries[1].1, YamlValue::Number(n) if n == "8080"));
            assert!(matches!(&entries[2].1, YamlValue::Bool(true)));
            assert!(matches!(&entries[3].1, YamlValue::Null));
            assert!(matches!(&entries[4].1, YamlValue::Other { rendered: Some(r) } if r.trim() == "- a\n- b"));
            assert!(matches!(&entries[5].0, YamlKey::Other));
        }
        other => panic!("expected a mapping, got {other:?}"),
    }
    assert!(parse_yaml("a: [").is_err());
    // JSON is YAML too.
    let plain = "{\"services\": {\"openai\": {\"org_id\": \"org-123\"}}}";
    assert_eq!(extract_yaml_json_text(plain, "f.json", "services.openai.org_id").unwrap(), "org-123");
    assert_eq!(extract_yaml_json_text(plain, "f.json", "services.openai").unwrap(), "org_id: org-123");
    match extract_yaml_json_text("real_key: present\n", "secrets.yaml", "not_a_real_key") {
        Err(SopsError::KeyNotFound { file, key }) => {
            assert_eq!(file, "secrets.yaml");
            assert_eq!(key, "not_a_real_key");
        }
        other => panic!("expected KeyNotFound, got {other:?}"),
    }
    // A tagged mapping is walked through; its own text keeps the tag.
    assert_eq!(extract_yaml_json_text("a: !t\n  b: c\n", "f", "a.b").unwrap(), "c");
    assert_eq!(extract_yaml_json_text("a: !t\n  b: c\n", "f", "a").unwrap(), "!t\nb: c");
}

#[test]
fn path_lookup_and_tool_output() {
    let probes = vec![
        PathProbe { path: "/a/sops".to_string(), is_file: false, mode: None },
        PathProbe { path: "/b/sops".to_string(), is_file: true, mode: Some(0o644) },
        PathProbe { path: "/c/sops".to_string(), is_file: true, mode: Some(0o755) },
    ];
    assert_eq!(pick_executable(&probes), Some("/c/sops".to_string()));
    let unreadable = vec![
        PathProbe { path: "/a/sops".to_string(), is_file: true, mode: None },
        PathProbe { path: "/c/sops".to_string(), is_file: true, mode: Some(0o755) },
    ];
    assert_eq!(pick_executable(&unreadable), None);
    assert_eq!(pick_executable(&Vec::new()), None);
    assert_eq!(which_answer(true, &b"/usr/bin/sops\n".to_vec()), Some("/usr/bin/sops".to_string()));
    assert_eq!(which_answer(false, &b"/usr/bin/sops\n".to_vec()), None);
    assert_eq!(
        first_output_line(&b"sops 3.9.0 (latest)\nmore\n".to_vec()),
        Some("sops 3.9.0 (latest)".to_string())
    );
    assert_eq!(first_output_line(&Vec::new()), None);
}

#[test]
fn provider_key_file_and_doctor() {
    let p = SopsProvider::new();
    assert_eq!(p.age_keyfile(), None);
    let q = SopsProvider::with_age_keyfile("/keys/age.key");
    assert_eq!(q.age_keyfile(), Some("/keys/age.key"));
    let r = q.doctor_report("0.1.0", None, None, None, None, Some("/env/key".to_string()));
    assert_eq!(r.sops_age_key_file.as_deref(), Some("/keys/age.key"));
    let r = p.doctor_report("0.1.0", Some("/bin/sops".to_string()), None, None, None, Some("/env/key".to_string()));
    assert_eq!(r.sops_age_key_file.as_deref(), Some("/env/key"));
    assert_eq!(r.sops_path.as_deref(), Some("/bin/sops"));
    assert_eq!(r.provider_version, "0.1.0");
}

#[test]
fn white_space_agrees_with_std() {
    for u in 0u32..0x3100 {
        if let Some(c) = char::from_u32(u) {
            assert_eq!(secretspec_provider_sops::text::white_space(c), c.is_whitespace(), "U+{u:04X}");
        }
    }
}
