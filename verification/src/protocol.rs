//! The Secret Provider Protocol v1, as line-delimited JSON over stdio:
//! the requests and responses, and the decisions taken on each request.
//!
//! Reading and writing lines, (de)serializing JSON and resolving a `get`
//! are done by the caller. [`dispatch`] tells it what to answer, or which
//! lookup to run; the answer to a lookup is [`get_response`].
use vstd::prelude::*;

use crate::paths::{join_paths, path_join};
use crate::text::{
    chars_of, find_char, find_in, lemma_str_lt_irreflexive, lemma_str_lt_total,
    lemma_str_lt_transitive, str_eq, str_less, str_lt, trim, trimmed,
};

pub mod error_kind;

verus! {

/// A JSON value, carried through untouched.
#[verifier::external_type_specification]
#[verifier::external_body]
pub struct ExJsonValue(serde_json::Value);

// ─────────────────────────── requests ───────────────────────────────────

/// One request line, by its `op`.
#[derive(Debug)]
pub enum Request {
    Hello(HelloRequest),
    Get(SecretRequest),
    SetSecret(SetRequest),
    BatchGet(BatchGetRequest),
    Reflect(ReflectRequest),
    Bye,
}

#[derive(Debug)]
pub struct HelloRequest {
    pub protocol_version: u32,
    pub uri: String,
    /// The host's `secretspec.toml`, or `None` (`null`) when there is none.
    pub config_file: Option<String>,
    /// Per-session metadata, by key in key order.
    pub context: Vec<(String, serde_json::Value)>,
}

#[derive(Debug)]
pub struct SecretRequest {
    pub project: String,
    pub key: String,
    pub profile: Option<String>,
}

#[derive(Debug)]
pub struct SetRequest {
    pub project: String,
    pub key: String,
    pub value: serde_json::Value,
    pub profile: Option<String>,
}

#[derive(Debug)]
pub struct BatchGetRequest {
    pub project: String,
    pub keys: Vec<String>,
    pub profile: Option<String>,
}

#[derive(Debug)]
pub struct ReflectRequest {
    pub project: Option<String>,
}

// ─────────────────────────── responses ──────────────────────────────────

/// One response line. `ok: false` responses are errors.
#[derive(Debug)]
pub enum Response {
    Hello(HelloResponse),
    Get(GetResponse),
    SetSecret(SetResponse),
    BatchGet(BatchGetResponse),
    Reflect(ReflectResponse),
    Bye(ByeResponse),
    Error(ErrorResponse),
}

#[derive(Debug)]
pub struct HelloResponse {
    pub ok: bool,
    pub protocol_version: u32,
    pub name: String,
    pub capabilities: Vec<String>,
}

#[derive(Debug)]
pub struct GetResponse {
    pub ok: bool,
    /// `None` is the protocol's `value: null` for a key that is missing.
    pub value: Option<String>,
}

#[derive(Debug)]
pub struct SetResponse {
    pub ok: bool,
}

#[derive(Debug)]
pub struct BatchGetResponse {
    pub ok: bool,
    /// `key -> value`, in key order, each key once; `None` is `null`.
    pub values: Vec<(String, Option<String>)>,
}

#[derive(Debug)]
pub struct ReflectResponse {
    pub ok: bool,
    /// Schema per key, in key order.
    pub secrets: Vec<(String, SecretSchema)>,
}

#[derive(Debug)]
pub struct SecretSchema {
    /// Serialized as `type`.
    pub ty: String,
}

#[derive(Debug)]
pub struct ByeResponse {
    pub ok: bool,
}

#[derive(Debug)]
pub struct ErrorResponse {
    pub ok: bool,
    pub error: ErrorBody,
}

#[derive(Debug)]
pub struct ErrorBody {
    pub kind: String,
    pub message: String,
}

/// The operations this plugin advertises.
pub open spec fn capability_names() -> Seq<Seq<char>> {
    seq!["get"@, "set"@, "batch_get"@, "reflect"@, "bye"@]
}

/// The `hello` answer of a v1 plugin named `sops`.
pub open spec fn is_v1_hello(h: HelloResponse) -> bool {
    &&& h.ok
    &&& h.protocol_version == 1
    &&& h.name@ == "sops"@
    &&& h.capabilities.deep_view() == capability_names()
}

/// `r` is the error envelope with this kind and message.
pub open spec fn is_error(r: Response, kind: Seq<char>, message: Seq<char>) -> bool {
    &&& r matches Response::Error(e)
    &&& !e.ok
    &&& e.error.kind@ == kind
    &&& e.error.message@ == message
}

impl HelloResponse {
    /// The v1 `hello` answer: protocol version 1, name `sops`, and the
    /// capabilities get, set, batch_get, reflect and bye.
    pub fn v1() -> (r: Self)
        ensures
            is_v1_hello(r),
    {
        let capabilities = vec![
            "get".to_string(),
            "set".to_string(),
            "batch_get".to_string(),
            "reflect".to_string(),
            "bye".to_string(),
        ];
        assert(capabilities.deep_view() =~= capability_names());
        HelloResponse { ok: true, protocol_version: 1, name: "sops".to_string(), capabilities }
    }
}

impl Response {
    /// The error envelope `{ok: false, error: {kind, message}}`.
    pub fn error(kind: &str, message: &str) -> (r: Response)
        ensures
            is_error(r, kind@, message@),
    {
        Response::Error(
            ErrorResponse {
                ok: false,
                error: ErrorBody { kind: kind.to_string(), message: message.to_string() },
            },
        )
    }

    /// The successful v1 `hello` answer.
    pub fn hello() -> (r: Response)
        ensures
            r matches Response::Hello(h) && is_v1_hello(h),
    {
        Response::Hello(HelloResponse::v1())
    }
}

// ─────────────────────────── decimal numbers ────────────────────────────

pub open spec fn digit_chars() -> Seq<char> {
    seq!['0', '1', '2', '3', '4', '5', '6', '7', '8', '9']
}

/// The decimal notation of `n`.
pub open spec fn decimal(n: nat) -> Seq<char>
    decreases n,
{
    if n < 10 {
        seq![digit_chars()[n as int]]
    } else {
        decimal(n / 10).push(digit_chars()[(n % 10) as int])
    }
}

fn digit_str(d: u32) -> (r: &'static str)
    requires
        d < 10,
    ensures
        r@ == seq![digit_chars()[d as int]],
{
    proof {
        reveal_strlit("0");
        reveal_strlit("1");
        reveal_strlit("2");
        reveal_strlit("3");
        reveal_strlit("4");
        reveal_strlit("5");
        reveal_strlit("6");
        reveal_strlit("7");
        reveal_strlit("8");
        reveal_strlit("9");
    }
    if d == 0 {
        "0"
    } else if d == 1 {
        "1"
    } else if d == 2 {
        "2"
    } else if d == 3 {
        "3"
    } else if d == 4 {
        "4"
    } else if d == 5 {
        "5"
    } else if d == 6 {
        "6"
    } else if d == 7 {
        "7"
    } else if d == 8 {
        "8"
    } else {
        "9"
    }
}

/// `n` in decimal.
pub fn decimal_string(n: u32) -> (r: String)
    ensures
        r@ == decimal(n as nat),
    decreases n,
{
    if n < 10 {
        digit_str(n).to_string()
    } else {
        let mut s = decimal_string(n / 10);
        s.append(digit_str(n % 10));
        s
    }
}

// ─────────────────────────── get ────────────────────────────────────────

/// How a `get` is resolved.
pub enum GetPlanModel {
    File { file: Seq<char>, key: Seq<char> },
    Search { dir: Seq<char>, key: Seq<char>, max_depth: u32 },
}

/// How a `get` is resolved.
#[derive(Debug)]
pub enum GetPlan {
    /// Look `key` up in `file` (format from the file's extension).
    File { file: String, key: String },
    /// Look `key` up in every `.yaml`/`.yml` file under `dir`, descending at
    /// most `max_depth` levels; the first file that has it answers.
    Search { dir: String, key: String, max_depth: u32 },
}

impl View for GetPlan {
    type V = GetPlanModel;

    open spec fn view(&self) -> GetPlanModel {
        match self {
            GetPlan::File { file, key } => GetPlanModel::File { file: file@, key: key@ },
            GetPlan::Search { dir, key, max_depth } => GetPlanModel::Search {
                dir: dir@,
                key: key@,
                max_depth: *max_depth,
            },
        }
    }
}

/// How deep a search for a flat key descends.
pub const SEARCH_MAX_DEPTH: u32 = 8;

/// How a `get` of `key` in `project` is resolved. A key holding `#` or
/// `/` names a file: the part before the first `#` is the file, relative
/// to the project directory (`.` when either is empty), and the part after
/// it is the key in that file (the whole key when there is no `#`). A flat
/// key is searched for in the YAML files under the project directory.
pub open spec fn spec_plan_get(project: Seq<char>, key: Seq<char>) -> GetPlanModel {
    if find_char(key, '#') is Some || find_char(key, '/') is Some {
        let (first, inner) = match find_char(key, '#') {
            Some(i) => (key.take(i), key.skip(i + 1)),
            None => (key, key),
        };
        let rel = if first.len() == 0 {
            "."@
        } else {
            first
        };
        let base = if project.len() == 0 {
            "."@
        } else {
            project
        };
        GetPlanModel::File { file: path_join(base, rel), key: inner }
    } else {
        GetPlanModel::Search { dir: project, key, max_depth: SEARCH_MAX_DEPTH }
    }
}

/// How the `get` request `g` is resolved (see [`spec_plan_get`]).
pub fn plan_get(g: &SecretRequest) -> (r: GetPlan)
    ensures
        r@ == spec_plan_get(g.project@, g.key@),
{
    let key = g.key.as_str();
    let v = chars_of(key);
    let n = v.len();
    assert(v@.subrange(0, n as int) =~= v@);
    let hash = find_in(&v, 0, n, '#');
    let slash = find_in(&v, 0, n, '/');
    if hash.is_none() && slash.is_none() {
        return GetPlan::Search {
            dir: g.project.clone(),
            key: g.key.clone(),
            max_depth: SEARCH_MAX_DEPTH,
        };
    }
    let (first, inner) = match hash {
        Some(i) => {
            assert(v@.subrange(0, i as int) =~= v@.take(i as int));
            assert(v@.subrange(i + 1, n as int) =~= v@.skip(i + 1));
            (key.substring_char(0, i), key.substring_char(i + 1, n))
        },
        None => (key, key),
    };
    proof {
        reveal_strlit(".");
    }
    let rel = if first.unicode_len() == 0 {
        "."
    } else {
        first
    };
    let base = if g.project.as_str().unicode_len() == 0 {
        "."
    } else {
        g.project.as_str()
    };
    GetPlan::File { file: join_paths(base, rel), key: inner.to_string() }
}

/// The answer to a `get`: `ok` with the value found, or `value: null`.
pub fn get_response(value: Option<String>) -> (r: Response)
    ensures
        r matches Response::Get(g) && g.ok && g.value == value,
{
    Response::Get(GetResponse { ok: true, value })
}

/// The answer to a `get` resolved in one file: any failure (file or key
/// missing, `sops` unavailable, decryption failed) is `value: null`.
pub fn file_lookup_response(found: Result<String, crate::SopsError>) -> (r: Response)
    ensures
        r matches Response::Get(g) && g.ok && g.value == (match found {
            Ok(v) => Some(v),
            Err(_) => None::<String>,
        }),
{
    match found {
        Ok(v) => get_response(Some(v)),
        Err(_) => get_response(None),
    }
}

// ─────────────────────────── batch_get, reflect, set ────────────────────

/// The keys of a list of entries.
pub open spec fn entry_keys<V>(entries: Seq<(String, V)>) -> Seq<Seq<char>> {
    entries.map_values(|e: (String, V)| e.0@)
}

/// The views of a list of strings.
pub open spec fn string_views(keys: Seq<String>) -> Seq<Seq<char>> {
    keys.map_values(|k: String| k@)
}

/// Each key comes before the next, so none occurs twice.
pub open spec fn strictly_sorted(s: Seq<Seq<char>>) -> bool {
    forall|i: int, j: int| 0 <= i < j < s.len() ==> str_lt(#[trigger] s[i], #[trigger] s[j])
}

/// The `values` of a `batch_get` answer for `keys`: each requested key
/// once, in key order, each `null`.
pub open spec fn is_batch_values(keys: Seq<String>, values: Seq<(String, Option<String>)>) -> bool {
    &&& strictly_sorted(entry_keys(values))
    &&& forall|k: Seq<char>| #[trigger] entry_keys(values).contains(k) <==> string_views(keys).contains(k)
    &&& forall|i: int| 0 <= i < values.len() ==> (#[trigger] values[i]).1 is None
}

/// The first position in `out` whose key does not come before `key`.
fn lower_bound(out: &Vec<(String, Option<String>)>, key: &str) -> (p: usize)
    ensures
        p <= out@.len(),
        forall|i: int| 0 <= i < p ==> str_lt(#[trigger] entry_keys(out@)[i], key@),
        p < out@.len() ==> !str_lt(entry_keys(out@)[p as int], key@),
{
    let mut p: usize = 0;
    while p < out.len()
        invariant
            p <= out@.len(),
            forall|i: int| 0 <= i < p ==> str_lt(#[trigger] entry_keys(out@)[i], key@),
        decreases out.len() - p,
    {
        assert(entry_keys(out@)[p as int] == out@[p as int].0@);
        if !str_less(out[p].0.as_str(), key) {
            return p;
        }
        p = p + 1;
    }
    p
}

/// Adds `key` with value `null` to sorted entries, unless it is there.
fn insert_null(out: &mut Vec<(String, Option<String>)>, key: &str)
    requires
        strictly_sorted(entry_keys(old(out)@)),
        forall|i: int| 0 <= i < old(out)@.len() ==> (#[trigger] old(out)@[i]).1 is None,
    ensures
        strictly_sorted(entry_keys(final(out)@)),
        forall|i: int| 0 <= i < final(out)@.len() ==> (#[trigger] final(out)@[i]).1 is None,
        forall|k: Seq<char>|
            #[trigger] entry_keys(final(out)@).contains(k) <==> (entry_keys(old(out)@).contains(k)
                || k == key@),
{
    let ghost ks = entry_keys(out@);
    let p = lower_bound(out, key);
    if p < out.len() && str_eq(out[p].0.as_str(), key) {
        assert(ks[p as int] == key@);
        return;
    }
    proof {
        if p < ks.len() {
            assert(ks[p as int] != key@);
            lemma_str_lt_total(ks[p as int], key@);
            assert forall|j: int| p <= j < ks.len() implies str_lt(key@, #[trigger] ks[j]) by {
                if j > p {
                    assert(str_lt(ks[p as int], ks[j]));
                    lemma_str_lt_transitive(key@, ks[p as int], ks[j]);
                }
            }
        }
    }
    out.insert(p, (key.to_string(), None));
    proof {
        let nk = entry_keys(out@);
        assert(nk =~= ks.insert(p as int, key@));
        assert forall|i: int, j: int| 0 <= i < j < nk.len() implies str_lt(
            #[trigger] nk[i],
            #[trigger] nk[j],
        ) by {
            if j < p {
                assert(str_lt(ks[i], ks[j]));
            } else if j == p {
                assert(str_lt(ks[i], key@));
            } else if i < p {
                assert(str_lt(ks[i], key@));
                assert(str_lt(key@, ks[j - 1]));
                lemma_str_lt_transitive(ks[i], key@, ks[j - 1]);
            } else if i == p {
                assert(str_lt(key@, ks[j - 1]));
            } else {
                assert(str_lt(ks[i - 1], ks[j - 1]));
            }
        }
        assert forall|k: Seq<char>| #[trigger] nk.contains(k) <==> (ks.contains(k) || k == key@) by {
            if nk.contains(k) {
                let i = choose|i: int| 0 <= i < nk.len() && nk[i] == k;
                if i < p {
                    assert(ks[i] == k);
                } else if i > p {
                    assert(ks[i - 1] == k);
                }
            }
            if ks.contains(k) {
                let i = choose|i: int| 0 <= i < ks.len() && ks[i] == k;
                if i < p {
                    assert(nk[i] == k);
                } else {
                    assert(nk[i + 1] == k);
                }
            }
            if k == key@ {
                assert(nk[p as int] == k);
            }
        }
    }
}

/// The `values` of a `batch_get` answer: every requested key, `null`.
pub fn batch_values(keys: &Vec<String>) -> (r: Vec<(String, Option<String>)>)
    ensures
        is_batch_values(keys@, r@),
{
    let mut out: Vec<(String, Option<String>)> = Vec::new();
    let mut i: usize = 0;
    while i < keys.len()
        invariant
            i <= keys.len(),
            strictly_sorted(entry_keys(out@)),
            forall|j: int| 0 <= j < out@.len() ==> (#[trigger] out@[j]).1 is None,
            forall|k: Seq<char>|
                #[trigger] entry_keys(out@).contains(k) <==> string_views(keys@.take(i as int)).contains(k),
        decreases keys.len() - i,
    {
        let ghost before = string_views(keys@.take(i as int));
        insert_null(&mut out, keys[i].as_str());
        proof {
            let after = string_views(keys@.take(i + 1));
            assert(after =~= before.push(keys@[i as int]@));
            assert forall|k: Seq<char>| #[trigger] after.contains(k) <==> (before.contains(k) || k
                == keys@[i as int]@) by {
                if after.contains(k) {
                    let j = choose|j: int| 0 <= j < after.len() && after[j] == k;
                    if j < before.len() {
                        assert(before[j] == k);
                    }
                }
                if before.contains(k) {
                    let j = choose|j: int| 0 <= j < before.len() && before[j] == k;
                    assert(after[j] == k);
                }
                if k == keys@[i as int]@ {
                    assert(after[before.len() as int] == k);
                }
            }
        }
        i = i + 1;
    }
    assert(keys@.take(keys.len() as int) =~= keys@);
    out
}

/// The `reflect` schema: the single entry `__bootstrap__` of type string.
pub open spec fn is_bootstrap_schema(secrets: Seq<(String, SecretSchema)>) -> bool {
    &&& secrets.len() == 1
    &&& secrets[0].0@ == "__bootstrap__"@
    &&& secrets[0].1.ty@ == "string"@
}

/// What `set` answers: SOPS files are not written by this plugin.
pub open spec fn set_refusal() -> Seq<char> {
    "set is not supported by the SOPS provider (SOPS files are immutable; rotate via sops --encrypt + commit)"@
}

/// What a `hello` with another protocol version is told.
pub open spec fn version_refusal(v: u32) -> Seq<char> {
    "protocol_version "@ + decimal(v as nat) + " not supported (plugin supports 1)"@
}

// ─────────────────────────── dispatch ───────────────────────────────────

/// What to do with a request.
#[derive(Debug)]
pub enum Action {
    /// Write `response`; then, if `last`, end the session.
    Respond { response: Response, last: bool },
    /// Resolve a `get` as planned, and answer with [`get_response`] (or
    /// [`file_lookup_response`]) of the result.
    Resolve(GetPlan),
}

/// The decision taken on one request.
///
/// - `hello` with protocol version 1 is answered by the v1 `hello`;
///   another version gets `unsupported_version`, and the session ends.
/// - `get` is resolved as [`spec_plan_get`] says; it never fails: a
///   missing key is `value: null`.
/// - `set` is refused with `permission_denied`.
/// - `batch_get` answers `null` for every requested key.
/// - `reflect` answers the single schema entry `__bootstrap__: string`.
/// - `bye` is answered `ok`, and the session ends.
pub fn dispatch(req: Request) -> (r: Action)
    ensures
        match req {
            Request::Hello(h) => if h.protocol_version == 1 {
                r matches Action::Respond { response: Response::Hello(x), last } && !last
                    && is_v1_hello(x)
            } else {
                r matches Action::Respond { response, last } && last && is_error(
                    response,
                    "unsupported_version"@,
                    version_refusal(h.protocol_version),
                )
            },
            Request::Get(g) => r matches Action::Resolve(p) && p@ == spec_plan_get(g.project@, g.key@),
            Request::SetSecret(_) => r matches Action::Respond { response, last } && !last && is_error(
                response,
                "permission_denied"@,
                set_refusal(),
            ),
            Request::BatchGet(b) => r matches Action::Respond { response: Response::BatchGet(x), last }
                && !last && x.ok && is_batch_values(b.keys@, x.values@),
            Request::Reflect(_) => r matches Action::Respond { response: Response::Reflect(x), last }
                && !last && x.ok && is_bootstrap_schema(x.secrets@),
            Request::Bye => r matches Action::Respond { response: Response::Bye(x), last } && last
                && x.ok,
        },
{
    match req {
        Request::Hello(h) => {
            if h.protocol_version == 1 {
                Action::Respond { response: Response::hello(), last: false }
            } else {
                let mut msg = "protocol_version ".to_string();
                let num = decimal_string(h.protocol_version);
                msg.append(num.as_str());
                msg.append(" not supported (plugin supports 1)");
                Action::Respond {
                    response: Response::error(error_kind::UNSUPPORTED_VERSION, msg.as_str()),
                    last: true,
                }
            }
        },
        Request::Get(g) => Action::Resolve(plan_get(&g)),
        Request::SetSecret(_) => Action::Respond {
            response: Response::error(
                error_kind::PERMISSION_DENIED,
                "set is not supported by the SOPS provider (SOPS files are immutable; rotate via sops --encrypt + commit)",
            ),
            last: false,
        },
        Request::BatchGet(b) => Action::Respond {
            response: Response::BatchGet(BatchGetResponse { ok: true, values: batch_values(&b.keys) }),
            last: false,
        },
        Request::Reflect(_) => {
            let secrets = vec![("__bootstrap__".to_string(), SecretSchema { ty: "string".to_string() })];
            Action::Respond {
                response: Response::Reflect(ReflectResponse { ok: true, secrets }),
                last: false,
            }
        },
        Request::Bye => Action::Respond { response: Response::Bye(ByeResponse { ok: true }), last: true },
    }
}

// ─────────────────────────── lines ──────────────────────────────────────

/// The request text of an input line: the line trimmed, or nothing for a
/// blank line, which is skipped.
pub fn request_text(line: &str) -> (r: Option<&str>)
    ensures
        match r {
            Some(t) => t@ == trim(line@) && t@.len() > 0,
            None => trim(line@).len() == 0,
        },
{
    let t = trimmed(line);
    if t.unicode_len() == 0 {
        None
    } else {
        Some(t)
    }
}

/// The answer to a line that is not a valid request: `invalid_request`
/// with the parser's message.
pub fn parse_error_response(message: &str) -> (r: Response)
    ensures
        is_error(r, "invalid_request"@, "parse: "@ + message@),
{
    let mut msg = "parse: ".to_string();
    msg.append(message);
    Response::error(error_kind::INVALID_REQUEST, msg.as_str())
}

} // verus!
