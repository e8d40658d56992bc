//! Key lookup in a decrypted YAML or JSON document.
//!
//! The decrypted text is parsed with `serde_yaml` into a [`YamlValue`]
//! tree: scalars carry their display text, and mappings, sequences and
//! tagged values carry their rendering as YAML. A key is a dot path
//! (`services.openai.org_id`): each piece selects the entry of a mapping
//! whose key is that string.
use vstd::prelude::*;

use crate::text::{
    lemma_split_char_concat, lemma_split_char_whole, split_at_char, split_char, str_eq, trim, trimmed,
};
use crate::{text_result, SopsError, SopsErrorModel};

verus! {

/// A key of a YAML mapping, as the lookup sees it.
#[derive(Debug, Clone)]
pub enum YamlKey {
    /// A plain string key.
    Str(String),
    /// Any other key (a number, a boolean, null, a tagged or compound key);
    /// no dot-path piece selects it.
    Other,
}

/// A parsed YAML (or JSON) value.
#[derive(Debug)]
pub enum YamlValue {
    Null,
    Bool(bool),
    /// A number, by its display text.
    Number(String),
    Str(String),
    /// A mapping (also a tagged one): its entries in document order, and
    /// its rendering as YAML when that succeeded.
    Mapping { entries: Vec<(YamlKey, YamlValue)>, rendered: Option<String> },
    /// A sequence or a tagged non-mapping value, by its rendering as YAML
    /// when that succeeded.
    Other { rendered: Option<String> },
}

/// The value of the first entry whose key is the string `part`.
pub open spec fn mapping_get(entries: Seq<(YamlKey, YamlValue)>, part: Seq<char>) -> Option<YamlValue>
    decreases entries.len(),
{
    if entries.len() == 0 {
        None
    } else if entries[0].0 matches YamlKey::Str(k) && k@ == part {
        Some(entries[0].1)
    } else {
        mapping_get(entries.drop_first(), part)
    }
}

/// The value reached from `v` by selecting, in turn, each of `parts` in a
/// mapping; nothing when a step meets a non-mapping or a missing key.
pub open spec fn walk(v: YamlValue, parts: Seq<Seq<char>>) -> Option<YamlValue>
    decreases parts.len(),
{
    if parts.len() == 0 {
        Some(v)
    } else {
        match v {
            YamlValue::Mapping { entries, .. } => match mapping_get(entries@, parts[0]) {
                Some(next) => walk(next, parts.drop_first()),
                None => None,
            },
            _ => None,
        }
    }
}

/// The text a value resolves to: strings as they are, numbers by their
/// display text, `true`/`false`, the empty string for null, and compound
/// values by their YAML rendering, trimmed (nothing when rendering failed).
pub open spec fn value_text(v: YamlValue) -> Option<Seq<char>> {
    match v {
        YamlValue::Null => Some(Seq::<char>::empty()),
        YamlValue::Bool(b) => Some(if b { "true"@ } else { "false"@ }),
        YamlValue::Number(n) => Some(n@),
        YamlValue::Str(s) => Some(s@),
        YamlValue::Mapping { rendered, .. } => match rendered {
            Some(r) => Some(trim(r@)),
            None => None,
        },
        YamlValue::Other { rendered } => match rendered {
            Some(r) => Some(trim(r@)),
            None => None,
        },
    }
}

/// A YAML value, as `serde_yaml` parses it.
#[verifier::external_type_specification]
#[verifier::external_body]
pub struct ExSerdeYamlValue(serde_yaml::Value);

/// What `serde_yaml::from_str::<serde_yaml::Value>` gives for `text`, as
/// the library's tree, or the parser's message.
pub uninterp spec fn parsed_yaml(text: Seq<char>) -> Result<YamlValue, Seq<char>>;

/// A parse result seen through the view of its message.
pub open spec fn yaml_doc_view(doc: Result<YamlValue, String>) -> Result<YamlValue, Seq<char>> {
    match doc {
        Ok(v) => Ok(v),
        Err(e) => Err(e@),
    }
}

/// The parsed value as the library's tree: each variant of
/// `serde_yaml::Value` to its counterpart, numbers by their display text,
/// mapping keys that are strings kept, others marked `Other`; a mapping
/// (also a tagged one) and any other compound value carry their rendering
/// by `serde_yaml::to_string`, when that succeeds.
#[verifier::external_body]
fn yaml_tree(v: &serde_yaml::Value) -> YamlValue {
    match v {
        serde_yaml::Value::Null => YamlValue::Null,
        serde_yaml::Value::Bool(b) => YamlValue::Bool(*b),
        serde_yaml::Value::Number(n) => YamlValue::Number(n.to_string()),
        serde_yaml::Value::String(t) => YamlValue::Str(t.clone()),
        _ => match v.as_mapping() {
            Some(m) => YamlValue::Mapping {
                entries: m.iter().map(|(k, x)| (match k { serde_yaml::Value::String(t) => YamlKey::Str(t.clone()), _ => YamlKey::Other }, yaml_tree(x))).collect(),
                rendered: serde_yaml::to_string(v).ok(),
            },
            None => YamlValue::Other { rendered: serde_yaml::to_string(v).ok() },
        },
    }
}

/// `serde_yaml::from_str::<serde_yaml::Value>`, as the library's tree. Its
/// result is named `parsed_yaml(text@)`; YAML (and JSON) syntax is not
/// restated here.
#[verifier::external_body]
pub fn parse_yaml(text: &str) -> (r: Result<YamlValue, String>)
    ensures
        yaml_doc_view(r) == parsed_yaml(text@),
{
    match serde_yaml::from_str::<serde_yaml::Value>(text) {
        Ok(v) => Ok(yaml_tree(&v)),
        Err(e) => Err(e.to_string()),
    }
}

/// What `extract_yaml_json` returns: a document that did not parse is a
/// decryption failure; otherwise the text of the value at the dot path
/// `key`, or `KeyNotFound`.
pub open spec fn spec_extract_yaml_json(
    doc: Result<YamlValue, Seq<char>>,
    file: Seq<char>,
    key: Seq<char>,
) -> Result<Seq<char>, SopsErrorModel> {
    match doc {
        Err(e) => Err(SopsErrorModel::DecryptionFailed("yaml parse: "@ + e)),
        Ok(root) => match walk(root, split_char(key, '.')) {
            Some(leaf) => match value_text(leaf) {
                Some(t) => Ok(t),
                None => Err(SopsErrorModel::KeyNotFound { file, key }),
            },
            None => Err(SopsErrorModel::KeyNotFound { file, key }),
        },
    }
}

/// The value of the first entry of `entries` whose key is `part`.
fn mapping_lookup<'a>(entries: &'a Vec<(YamlKey, YamlValue)>, part: &str) -> (r: Option<&'a YamlValue>)
    ensures
        match r {
            Some(x) => mapping_get(entries@, part@) == Some(*x),
            None => mapping_get(entries@, part@) is None,
        },
{
    let mut i: usize = 0;
    assert(entries@.skip(0) =~= entries@);
    while i < entries.len()
        invariant
            i <= entries.len(),
            mapping_get(entries@, part@) == mapping_get(entries@.skip(i as int), part@),
        decreases entries.len() - i,
    {
        let ghost rest = entries@.skip(i as int);
        assert(rest[0] == entries@[i as int]);
        assert(rest.drop_first() =~= entries@.skip(i + 1));
        match &entries[i].0 {
            YamlKey::Str(k) => {
                if str_eq(k.as_str(), part) {
                    return Some(&entries[i].1);
                }
            },
            YamlKey::Other => {},
        }
        i = i + 1;
    }
    None
}

/// The text of a value (see [`value_text`]).
pub fn yaml_value_to_string(v: &YamlValue) -> (r: Option<String>)
    ensures
        r.deep_view() == value_text(*v),
{
    match v {
        YamlValue::Null => Some(String::new()),
        YamlValue::Bool(b) => {
            if *b {
                Some("true".to_string())
            } else {
                Some("false".to_string())
            }
        },
        YamlValue::Number(n) => Some(n.clone()),
        YamlValue::Str(s) => Some(s.clone()),
        YamlValue::Mapping { rendered, .. } => match rendered {
            Some(r) => Some(trimmed(r.as_str()).to_string()),
            None => None,
        },
        YamlValue::Other { rendered } => match rendered {
            Some(r) => Some(trimmed(r.as_str()).to_string()),
            None => None,
        },
    }
}

/// The value reached from `root` along `parts`.
fn walk_path<'a>(root: &'a YamlValue, parts: &Vec<String>) -> (r: Option<&'a YamlValue>)
    ensures
        match r {
            Some(x) => walk(*root, parts.deep_view()) == Some(*x),
            None => walk(*root, parts.deep_view()) is None,
        },
{
    let mut cur: &YamlValue = root;
    let mut i: usize = 0;
    assert(parts.deep_view().skip(0) =~= parts.deep_view());
    while i < parts.len()
        invariant
            i <= parts.len(),
            walk(*root, parts.deep_view()) == walk(*cur, parts.deep_view().skip(i as int)),
        decreases parts.len() - i,
    {
        let ghost rest = parts.deep_view().skip(i as int);
        assert(rest[0] == parts[i as int]@);
        assert(rest.drop_first() =~= parts.deep_view().skip(i + 1));
        match cur {
            YamlValue::Mapping { entries, .. } => match mapping_lookup(entries, parts[i].as_str()) {
                Some(next) => {
                    cur = next;
                },
                None => return None,
            },
            _ => return None,
        }
        i = i + 1;
    }
    Some(cur)
}

/// Looks `key` up in a decrypted YAML/JSON document.
///
/// `doc` is the parsed document, or the parser's message when the text
/// did not parse. `key` is a flat name or a dot path; every piece must
/// select a string key of a mapping. The value found is returned as text:
/// strings as they are, numbers and booleans by their display text, null
/// as the empty string, compound values as trimmed YAML.
pub fn extract_yaml_json(doc: &Result<YamlValue, String>, file: &str, key: &str) -> (r: Result<
    String,
    SopsError,
>)
    ensures
        text_result(r) == spec_extract_yaml_json(yaml_doc_view(*doc), file@, key@),
{
    match doc {
        Err(e) => {
            let mut msg = "yaml parse: ".to_string();
            msg.append(e.as_str());
            proof {
                reveal_strlit("yaml parse: ");
            }
            Err(SopsError::DecryptionFailed(msg))
        },
        Ok(root) => {
            let parts = split_at_char(key, '.');
            assert(parts.deep_view() =~= split_char(key@, '.'));
            match walk_path(root, &parts) {
                Some(leaf) => match yaml_value_to_string(leaf) {
                    Some(t) => Ok(t),
                    None => Err(SopsError::KeyNotFound { file: file.to_string(), key: key.to_string() }),
                },
                None => Err(SopsError::KeyNotFound { file: file.to_string(), key: key.to_string() }),
            }
        },
    }
}

/// Looks `key` up in decrypted YAML/JSON text: the text is parsed, then
/// [`extract_yaml_json`] answers.
pub fn extract_yaml_json_text(plaintext: &str, file: &str, key: &str) -> (r: Result<String, SopsError>)
    ensures
        text_result(r) == spec_extract_yaml_json(parsed_yaml(plaintext@), file@, key@),
{
    let doc = parse_yaml(plaintext);
    extract_yaml_json(&doc, file, key)
}

// ─────────────────────────── laws ───────────────────────────────────────

/// `entries[i]` is the first entry whose key is the string `name`.
pub open spec fn first_entry_named(entries: Seq<(YamlKey, YamlValue)>, name: Seq<char>, i: int) -> bool {
    &&& 0 <= i < entries.len()
    &&& entries[i].0 matches YamlKey::Str(n) && n@ == name
    &&& forall|j: int| 0 <= j < i ==> !(#[trigger] entries[j].0 matches YamlKey::Str(n) && n@ == name)
}

proof fn lemma_mapping_get_first(entries: Seq<(YamlKey, YamlValue)>, name: Seq<char>, i: int)
    requires
        first_entry_named(entries, name, i),
    ensures
        mapping_get(entries, name) == Some(entries[i].1),
    decreases i,
{
    if i > 0 {
        assert(!(entries[0].0 matches YamlKey::Str(n) && n@ == name));
        let d = entries.drop_first();
        assert forall|j: int| 0 <= j < i - 1 implies !(#[trigger] d[j].0 matches YamlKey::Str(n) && n@ == name) by {
            assert(d[j] == entries[j + 1]);
        }
        lemma_mapping_get_first(d, name, i - 1);
    }
}

proof fn lemma_mapping_get_none(entries: Seq<(YamlKey, YamlValue)>, name: Seq<char>)
    requires
        forall|j: int| 0 <= j < entries.len() ==> !(#[trigger] entries[j].0 matches YamlKey::Str(n) && n@ == name),
    ensures
        mapping_get(entries, name) is None,
    decreases entries.len(),
{
    if entries.len() > 0 {
        let d = entries.drop_first();
        assert forall|j: int| 0 <= j < d.len() implies !(#[trigger] d[j].0 matches YamlKey::Str(n) && n@ == name) by {
            assert(d[j] == entries[j + 1]);
        }
        lemma_mapping_get_none(d, name);
    }
}

/// A string is answered as it is: looking up a plain name (no `.`) in a
/// mapping whose first entry with that name holds the string `s` answers
/// `s` with every character kept, newlines included.
pub proof fn lemma_string_value_as_is(
    entries: Vec<(YamlKey, YamlValue)>,
    rendered: Option<String>,
    name: Seq<char>,
    i: int,
    s: String,
    file: Seq<char>,
)
    requires
        forall|j: int| 0 <= j < name.len() ==> name[j] != '.',
        first_entry_named(entries@, name, i),
        entries@[i].1 == YamlValue::Str(s),
    ensures
        spec_extract_yaml_json(Ok(YamlValue::Mapping { entries, rendered }), file, name) == Ok::<
            Seq<char>,
            SopsErrorModel,
        >(s@),
{
    lemma_split_char_whole(name, '.');
    let parts = split_char(name, '.');
    assert(parts.drop_first() =~= Seq::<Seq<char>>::empty());
    lemma_mapping_get_first(entries@, name, i);
    let root = YamlValue::Mapping { entries, rendered };
    assert(walk(YamlValue::Str(s), parts.drop_first()) == Some(YamlValue::Str(s)));
    assert(walk(root, parts) == Some(YamlValue::Str(s)));
    assert(value_text(YamlValue::Str(s)) == Some(s@));
}

/// Looking up a plain name that no entry of a mapping has answers
/// `KeyNotFound` with the file and the key.
pub proof fn lemma_missing_name(
    entries: Vec<(YamlKey, YamlValue)>,
    rendered: Option<String>,
    name: Seq<char>,
    file: Seq<char>,
)
    requires
        forall|j: int| 0 <= j < name.len() ==> name[j] != '.',
        forall|j: int| 0 <= j < entries@.len() ==> !(#[trigger] entries@[j].0 matches YamlKey::Str(n) && n@ == name),
    ensures
        spec_extract_yaml_json(Ok(YamlValue::Mapping { entries, rendered }), file, name) == Err::<
            Seq<char>,
            SopsErrorModel,
        >(SopsErrorModel::KeyNotFound { file, key: name }),
{
    lemma_split_char_whole(name, '.');
    lemma_mapping_get_none(entries@, name);
}

/// A dot path descends one mapping at a time: looking up
/// `<name>.<rest>` (with no `.` in `name`) finds what looking up `<rest>`
/// in the value of the first entry named `name` finds, and fails exactly
/// when that fails, reporting the whole key.
pub proof fn lemma_dot_path_descends(
    entries: Vec<(YamlKey, YamlValue)>,
    rendered: Option<String>,
    name: Seq<char>,
    rest: Seq<char>,
    i: int,
    file: Seq<char>,
)
    requires
        forall|j: int| 0 <= j < name.len() ==> name[j] != '.',
        first_entry_named(entries@, name, i),
    ensures
        spec_extract_yaml_json(Ok(YamlValue::Mapping { entries, rendered }), file, name + seq!['.'] + rest)
            == match spec_extract_yaml_json(Ok(entries@[i].1), file, rest) {
            Ok(t) => Ok::<Seq<char>, SopsErrorModel>(t),
            Err(_) => Err(SopsErrorModel::KeyNotFound { file, key: name + seq!['.'] + rest }),
        },
{
    lemma_split_char_concat(name, rest, '.');
    lemma_split_char_whole(name, '.');
    let parts = seq![name] + split_char(rest, '.');
    assert(parts[0] == name);
    assert(parts.drop_first() =~= split_char(rest, '.'));
    lemma_mapping_get_first(entries@, name, i);
}

} // verus!
