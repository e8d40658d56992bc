use secretspec_provider_sops::protocol::{
    batch_values, decimal_string, dispatch, error_kind, file_lookup_response, get_response,
    parse_error_response, plan_get, request_text, Action, BatchGetRequest, GetPlan, HelloRequest,
    HelloResponse, ReflectRequest, Request, Response, SecretRequest, SetRequest,
};
use secretspec_provider_sops::search::{has_yaml_extension, DirEntryInfo, SearchAction, YamlSearch};
use secretspec_provider_sops::SopsError;

fn hello(version: u32) -> Request {
    Request::Hello(HelloRequest {
        protocol_version: version,
        uri: "sops://./secrets.yaml".to_string(),
        config_file: Some("/tmp/secretspec.toml".to_string()),
        context: Vec::new(),
    })
}

fn get(project: &str, key: &str) -> SecretRequest {
    SecretRequest { project: project.to_string(), key: key.to_string(), profile: Some("default".to_string()) }
}

#[test]
fn hello_advertises_v1_capabilities() {
    match dispatch(hello(1)) {
        Action::Respond { response: Response::Hello(h), last } => {
            assert!(!last);
            assert!(h.ok);
            assert_eq!(h.protocol_version, 1);
            assert_eq!(h.name, "sops");
            for required in ["get", "set", "batch_get", "reflect", "bye"] {
                assert!(h.capabilities.iter().any(|c| c == required), "missing capability {required}");
            }
        }
        other => panic!("expected a hello answer, got {other:?}"),
    }
}

#[test]
fn get_returns_null_on_missing_key_per_spec() {
    // A flat key is searched for under the project directory.
    match dispatch(Request::Get(get("homelab", "nvidia_api_key"))) {
        Action::Resolve(GetPlan::Search { dir, key, max_depth }) => {
            assert_eq!(dir, "homelab");
            assert_eq!(key, "nvidia_api_key");
            assert_eq!(max_depth, 8);
        }
        other => panic!("expected a search, got {other:?}"),
    }
    // Nothing found anywhere: the answer is ok with value null.
    match get_response(None) {
        Response::Get(g) => {
            assert!(g.ok);
            assert!(g.value.is_none());
        }
        other => panic!("expected a get answer, got {other:?}"),
    }
    // A failed file lookup is also null, never an error.
    match file_lookup_response(Err(SopsError::KeyNotFound { file: "f".into(), key: "k".into() })) {
        Response::Get(g) => {
            assert!(g.ok);
            assert!(g.value.is_none());
        }
        other => panic!("expected a get answer, got {other:?}"),
    }
}

#[test]
fn hello_without_config_file_is_answered() {
    let req = Request::Hello(HelloRequest {
        protocol_version: 1,
        uri: "sops://./secrets.yaml".to_string(),
        config_file: None,
        context: Vec::new(),
    });
    assert!(matches!(dispatch(req), Action::Respond { response: Response::Hello(h), last: false } if h.ok));
}

#[test]
fn bye_returns_ok() {
    match dispatch(Request::Bye) {
        Action::Respond { response: Response::Bye(b), last } => {
            assert!(b.ok);
            assert!(last);
        }
        other => panic!("expected a bye answer, got {other:?}"),
    }
}

#[test]
fn hello_response_supports_v1() {
    let resp = HelloResponse::v1();
    assert_eq!(resp.protocol_version, 1);
    assert_eq!(resp.name, "sops");
    assert_eq!(resp.capabilities, vec!["get", "set", "batch_get", "reflect", "bye"]);
    assert!(matches!(Response::hello(), Response::Hello(h) if h.ok));
}

#[test]
fn error_response_envelope_shape() {
    match Response::error("not_found", "key `k` not in `secrets.yaml`") {
        Response::Error(e) => {
            assert!(!e.ok);
            assert_eq!(e.error.kind, "not_found");
            assert_eq!(e.error.message, "key `k` not in `secrets.yaml`");
        }
        other => panic!("expected an error, got {other:?}"),
    }
}

#[test]
fn unsupported_version_ends_the_session() {
    match dispatch(hello(2)) {
        Action::Respond { response: Response::Error(e), last } => {
            assert!(last);
            assert!(!e.ok);
            assert_eq!(e.error.kind, error_kind::UNSUPPORTED_VERSION);
            assert_eq!(e.error.message, "protocol_version 2 not supported (plugin supports 1)");
        }
        other => panic!("expected an error, got {other:?}"),
    }
    assert_eq!(decimal_string(0), "0");
    assert_eq!(decimal_string(4294967295), "4294967295");
}

#[test]
fn set_is_refused() {
    let req = Request::SetSecret(SetRequest {
        project: "p".into(),
        key: "k".into(),
        value: serde_json::Value::String("v".into()),
        profile: None,
    });
    match dispatch(req) {
        Action::Respond { response: Response::Error(e), last } => {
            assert!(!last);
            assert_eq!(e.error.kind, "permission_denied");
            assert!(e.error.message.starts_with("set is not supported by the SOPS provider"));
        }
        other => panic!("expected an error, got {other:?}"),
    }
}

#[test]
fn batch_get_answers_null_for_each_key_in_order() {
    let req = Request::BatchGet(BatchGetRequest {
        project: "myapp".into(),
        keys: vec!["DB_URL".into(), "API_KEY".into(), "DB_URL".into(), "A".into()],
        profile: Some("production".into()),
    });
    match dispatch(req) {
        Action::Respond { response: Response::BatchGet(b), last } => {
            assert!(!last);
            assert!(b.ok);
            assert_eq!(
                b.values,
                vec![
                    ("A".to_string(), None),
                    ("API_KEY".to_string(), None),
                    ("DB_URL".to_string(), None)
                ]
            );
        }
        other => panic!("expected a batch answer, got {other:?}"),
    }
    assert!(batch_values(&Vec::new()).is_empty());
    let unicode = batch_values(&vec!["é".to_string(), "z".to_string(), "".to_string()]);
    let keys: Vec<&str> = unicode.iter().map(|(k, _)| k.as_str()).collect();
    assert_eq!(keys, vec!["", "z", "é"]);
}

#[test]
fn reflect_advertises_bootstrap_schema() {
    match dispatch(Request::Reflect(ReflectRequest { project: None })) {
        Action::Respond { response: Response::Reflect(r), last } => {
            assert!(!last);
            assert!(r.ok);
            assert_eq!(r.secrets.len(), 1);
            assert_eq!(r.secrets[0].0, "__bootstrap__");
            assert_eq!(r.secrets[0].1.ty, "string");
        }
        other => panic!("expected a reflect answer, got {other:?}"),
    }
}

#[test]
fn get_with_file_hint_plans_a_file_lookup() {
    match plan_get(&get("/etc/nixos/secrets", "ai/nvidia-api-key.yaml#nvidia_api_key")) {
        GetPlan::File { file, key } => {
            assert_eq!(file, "/etc/nixos/secrets/ai/nvidia-api-key.yaml");
            assert_eq!(key, "nvidia_api_key");
        }
        other => panic!("expected a file lookup, got {other:?}"),
    }
    match plan_get(&get("", "#k")) {
        GetPlan::File { file, key } => {
            assert_eq!(file, "./.");
            assert_eq!(key, "k");
        }
        other => panic!("expected a file lookup, got {other:?}"),
    }
    match plan_get(&get("base/", "sub/file.yaml")) {
        GetPlan::File { file, key } => {
            assert_eq!(file, "base/sub/file.yaml");
            assert_eq!(key, "sub/file.yaml");
        }
        other => panic!("expected a file lookup, got {other:?}"),
    }
    match plan_get(&get("base", "/abs/f.env#A#B")) {
        GetPlan::File { file, key } => {
            assert_eq!(file, "/abs/f.env");
            assert_eq!(key, "A#B");
        }
        other => panic!("expected a file lookup, got {other:?}"),
    }
    match file_lookup_response(Ok("v".to_string())) {
        Response::Get(g) => assert_eq!(g.value.as_deref(), Some("v")),
        other => panic!("expected a get answer, got {other:?}"),
    }
}

#[test]
fn lines_and_parse_errors() {
    assert_eq!(request_text("   \t"), None);
    assert_eq!(request_text("  {\"op\":\"bye\"}  "), Some("{\"op\":\"bye\"}"));
    match parse_error_response("expected value at line 1 column 1") {
        Response::Error(e) => {
            assert_eq!(e.error.kind, "invalid_request");
            assert_eq!(e.error.message, "parse: expected value at line 1 column 1");
        }
        other => panic!("expected an error, got {other:?}"),
    }
}

fn entry(path: &str, is_symlink: bool, is_dir: bool) -> DirEntryInfo {
    DirEntryInfo { path: path.to_string(), is_symlink, is_dir }
}

#[test]
fn search_visits_depth_first_and_stops_at_first_hit() {
    assert!(has_yaml_extension("a/b.yaml"));
    assert!(has_yaml_extension("b.yml"));
    assert!(!has_yaml_extension("b.YAML"));
    assert!(!has_yaml_extension("b.json"));

    let mut s = YamlSearch::start("root", 8);
    match s.next_action() {
        SearchAction::ListDir(d) => assert_eq!(d, "root"),
        other => panic!("expected a listing, got {other:?}"),
    }
    let a = s.on_listing(Some(vec![
        entry("root/link.yaml", true, false),
        entry("root/notes.txt", false, false),
        entry("root/sub", false, true),
        entry("root/top.yml", false, false),
    ]));
    match a {
        SearchAction::ListDir(d) => assert_eq!(d, "root/sub"),
        other => panic!("expected a listing, got {other:?}"),
    }
    let a = s.on_listing(Some(vec![entry("root/sub/a.yaml", false, false)]));
    match a {
        SearchAction::TryFile(f) => assert_eq!(f, "root/sub/a.yaml"),
        other => panic!("expected a lookup, got {other:?}"),
    }
    let a = s.on_lookup(None);
    match a {
        SearchAction::TryFile(f) => assert_eq!(f, "root/top.yml"),
        other => panic!("expected a lookup, got {other:?}"),
    }
    match s.on_lookup(Some("found-it".to_string())) {
        SearchAction::Finished(v) => assert_eq!(v.as_deref(), Some("found-it")),
        other => panic!("expected the end, got {other:?}"),
    }
}

#[test]
fn search_respects_depth_and_unlistable_dirs() {
    let mut s = YamlSearch::start("", 1);
    assert!(matches!(s.next_action(), SearchAction::ListDir(_)));
    match s.on_listing(Some(vec![entry("deep", false, true), entry("x.yaml", false, false)])) {
        SearchAction::TryFile(f) => assert_eq!(f, "x.yaml"),
        other => panic!("expected a lookup, got {other:?}"),
    }
    match s.on_lookup(None) {
        SearchAction::Finished(v) => assert!(v.is_none()),
        other => panic!("expected the end, got {other:?}"),
    }
    let mut s = YamlSearch::start("gone", 8);
    match s.on_listing(None) {
        SearchAction::Finished(v) => assert!(v.is_none()),
        other => panic!("expected the end, got {other:?}"),
    }
    let s = YamlSearch::start("root", 0);
    assert!(matches!(s.next_action(), SearchAction::Finished(None)));
}
