//! The SOPS provider's decisions: which format governs a lookup, how the
//! output of `sops --decrypt` becomes text or an error, how a key is found
//! in decrypted dotenv text, and what the doctor report says.
//!
//! Running `sops`, probing `PATH` and reading the environment are done by
//! the caller, which hands the results to the functions here.
use vstd::prelude::*;

use crate::text::{
    chars_of, find_char, find_in, is_white_space, line_bounds, skip_ws_forward, spec_lines,
    starts_with_at, str_eq, trim, trim_bounds, trim_quote_bounds, trim_quotes, trim_start,
    trimmed, lemma_count_leading, is_quote, lemma_find_char_is, lemma_split_char_concat,
    lemma_split_char_len, lemma_split_char_whole, lemma_trim_by_untouched, lemma_trim_by_within,
    split_char, strip_cr, count_leading,
};
use crate::yaml::{extract_yaml_json_text, parsed_yaml, spec_extract_yaml_json};
use crate::{
    canonical_format, canonical_format_name, infer_format_from_path, spec_infer_format,
    lowercase, text_result, SopsError, SopsErrorModel,
};

verus! {

// ─────────────────────────── the provider ───────────────────────────────

/// SOPS provider: an optional explicit age key file that is handed to the
/// `sops` child process as `SOPS_AGE_KEY_FILE`; without one, `sops` reads
/// the variable from the inherited environment.
#[derive(Debug, Clone, Default)]
pub struct SopsProvider {
    age_keyfile: Option<String>,
}

impl View for SopsProvider {
    type V = Option<Seq<char>>;

    closed spec fn view(&self) -> Option<Seq<char>> {
        self.age_keyfile.deep_view()
    }
}

/// Report on the local environment of the provider.
#[derive(Debug, Clone)]
pub struct DoctorReport {
    pub provider_version: String,
    pub sops_path: Option<String>,
    pub sops_version: Option<String>,
    pub age_path: Option<String>,
    pub age_version: Option<String>,
    /// The explicit key file of the provider, else `SOPS_AGE_KEY_FILE`
    /// from the environment.
    pub sops_age_key_file: Option<String>,
}

impl SopsProvider {
    /// A provider without an explicit key file.
    pub fn new() -> (r: Self)
        ensures
            r@ is None,
    {
        SopsProvider { age_keyfile: None }
    }

    /// A provider that hands `path` to `sops` as its age key file.
    pub fn with_age_keyfile(path: &str) -> (r: Self)
        ensures
            r@ == Some(path@),
    {
        SopsProvider { age_keyfile: Some(path.to_string()) }
    }

    /// The explicit age key file, if any.
    pub fn age_keyfile(&self) -> (r: Option<&str>)
        ensures
            r.deep_view() == self@,
    {
        match &self.age_keyfile {
            Some(p) => Some(p.as_str()),
            None => None,
        }
    }

    /// The doctor report from what was found on the machine: the key file
    /// reported is the provider's explicit one, else the one named by
    /// `SOPS_AGE_KEY_FILE` in the environment (`env_age_key_file`).
    pub fn doctor_report(
        &self,
        provider_version: &str,
        sops_path: Option<String>,
        sops_version: Option<String>,
        age_path: Option<String>,
        age_version: Option<String>,
        env_age_key_file: Option<String>,
    ) -> (r: DoctorReport)
        ensures
            r.provider_version@ == provider_version@,
            r.sops_path == sops_path,
            r.sops_version == sops_version,
            r.age_path == age_path,
            r.age_version == age_version,
            r.sops_age_key_file.deep_view() == (match self@ {
                Some(p) => Some(p),
                None => env_age_key_file.deep_view(),
            }),
    {
        let key_file = match &self.age_keyfile {
            Some(p) => Some(p.clone()),
            None => env_age_key_file,
        };
        DoctorReport {
            provider_version: provider_version.to_string(),
            sops_path,
            sops_version,
            age_path,
            age_version,
            sops_age_key_file: key_file,
        }
    }
}

// ─────────────────────────── format choice ──────────────────────────────

/// Normalize a free-form format hint: lowercase it, then `yml` means `yaml`
/// and `env` means `dotenv`; any other hint is kept (lowercase).
pub fn normalize_format_hint(s: &str) -> (r: String)
    ensures
        r@ == canonical_format(lowercase(s@)),
{
    let lower = s.to_lowercase();
    canonical_format_name(lower.as_str())
}

/// The format that governs a lookup: the normalized hint if there is one,
/// else the format inferred from the file path.
pub open spec fn spec_effective_format(file: Seq<char>, hint: Option<Seq<char>>) -> Option<Seq<char>> {
    match hint {
        Some(h) => Some(canonical_format(lowercase(h))),
        None => spec_infer_format(file),
    }
}

/// The format that governs a lookup of `file` with `format_hint`.
pub fn effective_format(file: &str, format_hint: Option<&str>) -> (r: Option<String>)
    ensures
        r.deep_view() == spec_effective_format(file@, format_hint.deep_view()),
{
    match format_hint {
        Some(h) => Some(normalize_format_hint(h)),
        None => infer_format_from_path(file),
    }
}

/// How the decrypted file is read.
#[derive(Debug, Clone, Copy, PartialEq, Eq)]
pub enum Extraction {
    /// YAML or JSON: parsed, then the key is looked up as a dot path.
    Structured,
    /// Dotenv: the first `KEY=value` line with the key.
    Dotenv,
    /// The whole decrypted file is the secret.
    Bin,
}

/// The format reported when a file has no usable extension.
pub open spec fn unknown_format_text() -> Seq<char> {
    "<unknown extension or no extension>"@
}

/// What `plan_extraction` decides: `sops` must be present; `yaml` and
/// `json` are structured, `dotenv` is dotenv, `bin` is whole-file only for
/// byte lookups; every other format is unsupported.
pub open spec fn spec_plan(fmt: Option<Seq<char>>, sops_found: bool, bytes: bool) -> Result<
    Extraction,
    SopsErrorModel,
> {
    if !sops_found {
        Err(SopsErrorModel::SopsBinaryMissing)
    } else {
        match fmt {
            Some(f) => if f == "yaml"@ || f == "json"@ {
                Ok(Extraction::Structured)
            } else if f == "dotenv"@ {
                Ok(Extraction::Dotenv)
            } else if bytes && f == "bin"@ {
                Ok(Extraction::Bin)
            } else {
                Err(SopsErrorModel::UnsupportedFormat { format: f })
            },
            None => Err(SopsErrorModel::UnsupportedFormat { format: unknown_format_text() }),
        }
    }
}

pub open spec fn plan_view(r: Result<Extraction, SopsError>) -> Result<Extraction, SopsErrorModel> {
    match r {
        Ok(x) => Ok(x),
        Err(e) => Err(e@),
    }
}

/// Decides how a lookup of `file` proceeds, before anything is decrypted.
/// `sops_found` says whether `sops` is on `PATH`; `bytes` is set for byte
/// lookups (`get_bytes`), which also accept `bin`.
pub fn plan_extraction(file: &str, format_hint: Option<&str>, sops_found: bool, bytes: bool) -> (r: Result<
    Extraction,
    SopsError,
>)
    ensures
        plan_view(r) == spec_plan(spec_effective_format(file@, format_hint.deep_view()), sops_found, bytes),
{
    if !sops_found {
        return Err(SopsError::SopsBinaryMissing);
    }
    match effective_format(file, format_hint) {
        Some(f) => {
            if str_eq(f.as_str(), "yaml") || str_eq(f.as_str(), "json") {
                Ok(Extraction::Structured)
            } else if str_eq(f.as_str(), "dotenv") {
                Ok(Extraction::Dotenv)
            } else if bytes && str_eq(f.as_str(), "bin") {
                Ok(Extraction::Bin)
            } else {
                Err(SopsError::UnsupportedFormat { format: f })
            }
        },
        None => Err(SopsError::UnsupportedFormat { format: "<unknown extension or no extension>".to_string() }),
    }
}

// ─────────────────────────── decryption output ──────────────────────────

/// What running `sops --decrypt <file>` gave.
pub enum DecryptOutcome {
    /// The process ran; `success` is its exit status.
    Exited { success: bool, stdout: Vec<u8>, stderr: Vec<u8> },
    /// The process could not be run; the message of the I/O error.
    SpawnFailed(String),
}

/// What `String::from_utf8_lossy` returns: the bytes decoded as UTF-8,
/// with each invalid sequence replaced by U+FFFD.
pub uninterp spec fn utf8_lossy(b: Seq<u8>) -> Seq<char>;

/// `String::from_utf8_lossy`. Its result is named `utf8_lossy(b@)`; for
/// valid UTF-8 it is the decoded text, as the documentation states.
#[verifier::external_body]
fn lossy_text(b: &[u8]) -> (r: String)
    ensures
        r@ == utf8_lossy(b@),
        vstd::utf8::valid_utf8(b@) ==> r@ == vstd::utf8::decode_utf8(b@),
{
    String::from_utf8_lossy(b).into_owned()
}

/// The decrypted text, or the error: a failed run is an I/O error, a
/// failing exit is a decryption failure carrying the trimmed stderr.
pub open spec fn spec_decrypted_text(o: DecryptOutcome) -> Result<Seq<char>, SopsErrorModel> {
    match o {
        DecryptOutcome::SpawnFailed(m) => Err(SopsErrorModel::Io(m@)),
        DecryptOutcome::Exited { success, stdout, stderr } => if success {
            Ok(utf8_lossy(stdout@))
        } else {
            Err(SopsErrorModel::DecryptionFailed(trim(utf8_lossy(stderr@))))
        },
    }
}

fn decryption_error(outcome: &DecryptOutcome) -> (r: SopsError)
    requires
        !(*outcome matches DecryptOutcome::Exited { success, .. } && success),
    ensures
        Err::<Seq<char>, SopsErrorModel>(r@) == spec_decrypted_text(*outcome),
{
    match outcome {
        DecryptOutcome::SpawnFailed(m) => SopsError::Io(m.clone()),
        DecryptOutcome::Exited { stderr, .. } => {
            let text = lossy_text(stderr.as_slice());
            SopsError::DecryptionFailed(trimmed(text.as_str()).to_string())
        },
    }
}

/// The decrypted text of a `sops --decrypt` run (lossy UTF-8), or its error.
pub fn decrypted_text(outcome: &DecryptOutcome) -> (r: Result<String, SopsError>)
    ensures
        text_result(r) == spec_decrypted_text(*outcome),
{
    match outcome {
        DecryptOutcome::Exited { success: true, stdout, .. } => Ok(lossy_text(stdout.as_slice())),
        _ => Err(decryption_error(outcome)),
    }
}

/// The decrypted bytes of a run, untouched, or the same error as
/// [`spec_decrypted_text`].
pub open spec fn spec_decrypted_bytes(o: DecryptOutcome) -> Result<Seq<u8>, SopsErrorModel> {
    match o {
        DecryptOutcome::SpawnFailed(m) => Err(SopsErrorModel::Io(m@)),
        DecryptOutcome::Exited { success, stdout, stderr } => if success {
            Ok(stdout@)
        } else {
            Err(SopsErrorModel::DecryptionFailed(trim(utf8_lossy(stderr@))))
        },
    }
}

/// A byte `Result` seen through the views of its two sides.
pub open spec fn bytes_result(r: Result<Vec<u8>, SopsError>) -> Result<Seq<u8>, SopsErrorModel> {
    match r {
        Ok(b) => Ok(b@),
        Err(e) => Err(e@),
    }
}

/// The decrypted bytes of a `sops --decrypt` run, untouched, or its error.
pub fn decrypted_bytes(outcome: &DecryptOutcome) -> (r: Result<Vec<u8>, SopsError>)
    ensures
        bytes_result(r) == spec_decrypted_bytes(*outcome),
{
    match outcome {
        DecryptOutcome::Exited { success: true, stdout, .. } => Ok(stdout.clone()),
        _ => Err(decryption_error(outcome)),
    }
}

// ─────────────────────────── lookups, step by step ───────────────────────

/// A text answer as UTF-8 bytes.
pub open spec fn encode_result(r: Result<Seq<char>, SopsErrorModel>) -> Result<Seq<u8>, SopsErrorModel> {
    match r {
        Ok(t) => Ok(vstd::utf8::encode_utf8(t)),
        Err(e) => Err(e),
    }
}

/// What a text lookup answers once `sops` has run: its error, or the value
/// of the key in the decrypted text, read as YAML/JSON (parsed by
/// `serde_yaml`) or as dotenv.
pub open spec fn spec_text_after_decrypt(
    plan: Extraction,
    o: DecryptOutcome,
    file: Seq<char>,
    key: Seq<char>,
) -> Result<Seq<char>, SopsErrorModel> {
    match spec_decrypted_text(o) {
        Err(e) => Err(e),
        Ok(t) => if plan == Extraction::Structured {
            spec_extract_yaml_json(parsed_yaml(t), file, key)
        } else {
            spec_extract_dotenv(t, file, key)
        },
    }
}

/// What a byte lookup answers once `sops` has run: for `bin` the decrypted
/// bytes, otherwise the text lookup's answer as UTF-8 bytes.
pub open spec fn spec_bytes_after_decrypt(
    plan: Extraction,
    o: DecryptOutcome,
    file: Seq<char>,
    key: Seq<char>,
) -> Result<Seq<u8>, SopsErrorModel> {
    if plan == Extraction::Bin {
        spec_decrypted_bytes(o)
    } else {
        encode_result(spec_text_after_decrypt(plan, o, file, key))
    }
}

/// The answer of a text lookup planned as `plan` (YAML/JSON or dotenv),
/// once `sops --decrypt` gave `outcome`.
pub fn text_after_decrypt(plan: Extraction, outcome: &DecryptOutcome, file: &str, key: &str) -> (r: Result<
    String,
    SopsError,
>)
    requires
        plan != Extraction::Bin,
    ensures
        text_result(r) == spec_text_after_decrypt(plan, *outcome, file@, key@),
{
    match decrypted_text(outcome) {
        Err(e) => Err(e),
        Ok(t) => match plan {
            Extraction::Structured => extract_yaml_json_text(t.as_str(), file, key),
            _ => extract_dotenv(t.as_str(), file, key),
        },
    }
}

/// A text answer as UTF-8 bytes.
fn text_bytes(r: Result<String, SopsError>) -> (b: Result<Vec<u8>, SopsError>)
    ensures
        bytes_result(b) == encode_result(text_result(r)),
{
    match r {
        Ok(s) => Ok(s.as_str().as_bytes_vec()),
        Err(e) => Err(e),
    }
}

/// The answer of a byte lookup planned as `plan`, once `sops --decrypt`
/// gave `outcome`. For `bin` the key plays no part.
pub fn bytes_after_decrypt(plan: Extraction, outcome: &DecryptOutcome, file: &str, key: &str) -> (r: Result<
    Vec<u8>,
    SopsError,
>)
    ensures
        bytes_result(r) == spec_bytes_after_decrypt(plan, *outcome, file@, key@),
{
    match plan {
        Extraction::Bin => decrypted_bytes(outcome),
        _ => text_bytes(text_after_decrypt(plan, outcome, file, key)),
    }
}

/// A whole text lookup (`get`), from the results of the outside steps:
/// whether `sops` is on `PATH` and the outcome of `sops --decrypt`.
pub open spec fn spec_lookup_text(
    file: Seq<char>,
    key: Seq<char>,
    hint: Option<Seq<char>>,
    sops_found: bool,
    o: DecryptOutcome,
) -> Result<Seq<char>, SopsErrorModel> {
    match spec_plan(spec_effective_format(file, hint), sops_found, false) {
        Err(e) => Err(e),
        Ok(plan) => spec_text_after_decrypt(plan, o, file, key),
    }
}

/// A whole byte lookup (`get_bytes`), from the same outside results.
pub open spec fn spec_lookup_bytes(
    file: Seq<char>,
    key: Seq<char>,
    hint: Option<Seq<char>>,
    sops_found: bool,
    o: DecryptOutcome,
) -> Result<Seq<u8>, SopsErrorModel> {
    match spec_plan(spec_effective_format(file, hint), sops_found, true) {
        Err(e) => Err(e),
        Ok(plan) => spec_bytes_after_decrypt(plan, o, file, key),
    }
}

/// A byte lookup of anything but `bin` answers exactly the UTF-8 bytes of
/// what the text lookup answers, error for error.
pub proof fn lemma_bytes_lookup_is_encoded_text(
    file: Seq<char>,
    key: Seq<char>,
    hint: Option<Seq<char>>,
    sops_found: bool,
    o: DecryptOutcome,
)
    requires
        spec_effective_format(file, hint) != Some("bin"@),
    ensures
        spec_lookup_bytes(file, key, hint, sops_found, o) == encode_result(
            spec_lookup_text(file, key, hint, sops_found, o),
        ),
{
}

/// A byte lookup of a `bin` file ignores the key: any two keys get the
/// same answer.
pub proof fn lemma_bin_lookup_ignores_key(
    file: Seq<char>,
    key1: Seq<char>,
    key2: Seq<char>,
    hint: Option<Seq<char>>,
    sops_found: bool,
    o: DecryptOutcome,
)
    requires
        spec_effective_format(file, hint) == Some("bin"@),
    ensures
        spec_lookup_bytes(file, key1, hint, sops_found, o) == spec_lookup_bytes(file, key2, hint, sops_found, o),
{
    reveal_strlit("bin");
    reveal_strlit("yaml");
    reveal_strlit("json");
    reveal_strlit("dotenv");
    assert("bin"@.len() == 3 && "yaml"@.len() == 4 && "json"@.len() == 4 && "dotenv"@.len() == 6);
}

// ─────────────────────────── dotenv ─────────────────────────────────────

/// Quoting state while scanning a dotenv value.
pub struct QuoteState {
    pub single: bool,
    pub double: bool,
    pub escape: bool,
}

/// One character of the scan: after a backslash inside double quotes the
/// next character is skipped; a `'` outside double quotes and a `"`
/// outside single quotes toggle their quoting.
pub open spec fn quote_step(st: QuoteState, c: char) -> QuoteState {
    if st.escape {
        QuoteState { escape: false, ..st }
    } else if c == '\\' && st.double {
        QuoteState { escape: true, ..st }
    } else if c == '\'' && !st.double {
        QuoteState { single: !st.single, ..st }
    } else if c == '"' && !st.single {
        QuoteState { double: !st.double, ..st }
    } else {
        st
    }
}

/// Quoting state after scanning `s`.
pub open spec fn quote_state(s: Seq<char>) -> QuoteState
    decreases s.len(),
{
    if s.len() == 0 {
        QuoteState { single: false, double: false, escape: false }
    } else {
        quote_step(quote_state(s.drop_last()), s.last())
    }
}

/// Does an inline comment start at `i` (a `#` outside quotes, not escaped)?
pub open spec fn comment_starts_at(s: Seq<char>, i: int) -> bool {
    let st = quote_state(s.take(i));
    s[i] == '#' && !st.escape && !st.single && !st.double
}

/// The first position below `n` where a comment starts, or `n`.
pub open spec fn comment_search(s: Seq<char>, n: nat) -> nat
    decreases n,
{
    if n == 0 {
        0
    } else {
        let c = comment_search(s, (n - 1) as nat);
        if c < n - 1 {
            c
        } else if comment_starts_at(s, n - 1) {
            (n - 1) as nat
        } else {
            n
        }
    }
}

/// `s` up to its inline comment.
pub open spec fn spec_strip_inline_comment(s: Seq<char>) -> Seq<char> {
    s.take(comment_search(s, s.len()) as int)
}

proof fn lemma_comment_search_stable(s: Seq<char>, n: nat, m: nat)
    requires
        n <= m,
        comment_search(s, n) < n,
    ensures
        comment_search(s, m) == comment_search(s, n),
    decreases m - n,
{
    if m > n {
        lemma_comment_search_stable(s, n, (m - 1) as nat);
    }
}

proof fn lemma_comment_search_bound(s: Seq<char>, n: nat)
    ensures
        comment_search(s, n) <= n,
    decreases n,
{
    if n > 0 {
        lemma_comment_search_bound(s, (n - 1) as nat);
    }
}

/// Index (into `v`) where the inline comment of `v[lo..hi]` starts, or `hi`.
fn comment_cut(v: &Vec<char>, lo: usize, hi: usize) -> (r: usize)
    requires
        lo <= hi <= v.len(),
    ensures
        lo <= r <= hi,
        r - lo == comment_search(v@.subrange(lo as int, hi as int), (hi - lo) as nat),
{
    let ghost s = v@.subrange(lo as int, hi as int);
    let mut single = false;
    let mut double = false;
    let mut escape = false;
    let mut i = lo;
    assert(s.take(0) =~= Seq::<char>::empty());
    while i < hi
        invariant
            lo <= i <= hi <= v.len(),
            s == v@.subrange(lo as int, hi as int),
            comment_search(s, (i - lo) as nat) == i - lo,
            quote_state(s.take(i - lo)) == (QuoteState { single, double, escape }),
        decreases hi - i,
    {
        let c = v[i];
        let ghost k = i - lo;
        assert(s[k] == c);
        assert(s.take(k + 1).drop_last() =~= s.take(k));
        assert(s.take(k + 1).last() == c);
        if escape {
            escape = false;
        } else if c == '\\' && double {
            escape = true;
        } else if c == '\'' && !double {
            single = !single;
        } else if c == '"' && !single {
            double = !double;
        } else if c == '#' && !single && !double {
            proof {
                assert(comment_starts_at(s, k));
                lemma_comment_search_stable(s, (k + 1) as nat, s.len());
            }
            return i;
        }
        i = i + 1;
    }
    proof {
        assert(i - lo == s.len());
    }
    i
}

/// Strip an inline `#` comment from a dotenv value, ignoring `#` inside
/// single or double quotes (a backslash inside double quotes escapes the
/// next character).
pub fn strip_inline_comment(s: &str) -> (r: &str)
    ensures
        r@ == spec_strip_inline_comment(s@),
{
    let v = chars_of(s);
    let cut = comment_cut(&v, 0, v.len());
    assert(v@.subrange(0, v.len() as int) == v@);
    assert(v@.subrange(0, cut as int) == v@.take(cut as int));
    s.substring_char(0, cut)
}

pub open spec fn export_prefix() -> Seq<char> {
    "export "@
}

pub open spec fn unset_prefix() -> Seq<char> {
    "unset "@
}

/// `t` without a leading `export ` or, failing that, `unset `.
pub open spec fn strip_keyword(t: Seq<char>) -> Seq<char> {
    if t.len() >= 7 && t.take(7) == export_prefix() {
        t.skip(7)
    } else if t.len() >= 6 && t.take(6) == unset_prefix() {
        t.skip(6)
    } else {
        t
    }
}

/// What `parse_dotenv_line` returns: nothing for blank and comment lines
/// and lines without `=`; otherwise the trimmed key before the first `=`
/// and the value after it, without its inline comment, trimmed, and
/// without surrounding quotes.
pub open spec fn spec_parse_dotenv_line(line: Seq<char>) -> Option<(Seq<char>, Seq<char>)> {
    let t = trim_start(line);
    if t.len() == 0 || t[0] == '#' {
        None
    } else {
        let after = strip_keyword(t);
        match find_char(after, '=') {
            Some(e) => Some(
                (
                    trim(after.take(e)),
                    trim_quotes(trim(spec_strip_inline_comment(after.skip(e + 1)))),
                ),
            ),
            None => None,
        }
    }
}

/// Parse one dotenv line into `(key, value)`.
///
/// Handles `export KEY=value` (and `unset `), inline `#` comments outside
/// quotes, `KEY=` and quoted values; blank lines, comment lines and lines
/// without `=` give `None`.
pub fn parse_dotenv_line(line: &str) -> (r: Option<(&str, &str)>)
    ensures
        r.deep_view() == spec_parse_dotenv_line(line@),
{
    let v = chars_of(line);
    let n = v.len();
    let a = skip_ws_forward(&v, 0, n);
    proof {
        assert(v@.subrange(0, n as int) == v@);
        lemma_count_leading(v@, |c: char| is_white_space(c));
        assert(trim_start(line@) =~= v@.subrange(a as int, n as int));
    }
    let ghost t = v@.subrange(a as int, n as int);
    if a == n {
        return None;
    }
    if v[a] == '#' {
        assert(t[0] == '#');
        return None;
    }
    let export = vec!['e', 'x', 'p', 'o', 'r', 't', ' '];
    let unset = vec!['u', 'n', 's', 'e', 't', ' '];
    proof {
        reveal_strlit("export ");
        reveal_strlit("unset ");
        assert(export@ =~= export_prefix());
        assert(unset@ =~= unset_prefix());
    }
    let b = if starts_with_at(&v, a, n, &export) {
        a + 7
    } else if starts_with_at(&v, a, n, &unset) {
        a + 6
    } else {
        a
    };
    let ghost after = v@.subrange(b as int, n as int);
    assert(strip_keyword(t) =~= after);
    match find_in(&v, b, n, '=') {
        None => None,
        Some(e) => {
            let (k0, k1) = trim_bounds(&v, b, e);
            let cut = comment_cut(&v, e + 1, n);
            let (t0, t1) = trim_bounds(&v, e + 1, cut);
            let (q0, q1) = trim_quote_bounds(&v, t0, t1);
            proof {
                let ei = e - b;
                assert(after.take(ei) =~= v@.subrange(b as int, e as int));
                let rest = after.skip(ei + 1);
                assert(rest =~= v@.subrange(e + 1, n as int));
                assert(spec_strip_inline_comment(rest) =~= v@.subrange(e + 1, cut as int));
            }
            Some((line.substring_char(k0, k1), line.substring_char(q0, q1)))
        },
    }
}

/// The value of the first dotenv line that defines `key`.
pub open spec fn dotenv_find(lines: Seq<Seq<char>>, key: Seq<char>) -> Option<Seq<char>>
    decreases lines.len(),
{
    if lines.len() == 0 {
        None
    } else {
        match spec_parse_dotenv_line(lines[0]) {
            Some((k, v)) => if k == key {
                Some(v)
            } else {
                dotenv_find(lines.drop_first(), key)
            },
            None => dotenv_find(lines.drop_first(), key),
        }
    }
}

/// What `extract_dotenv` returns.
pub open spec fn spec_extract_dotenv(plaintext: Seq<char>, file: Seq<char>, key: Seq<char>) -> Result<
    Seq<char>,
    SopsErrorModel,
> {
    match dotenv_find(spec_lines(plaintext), key) {
        Some(v) => Ok(v),
        None => Err(SopsErrorModel::KeyNotFound { file, key }),
    }
}

/// The value of `key` in decrypted dotenv text: the first line that parses
/// to that key, else `KeyNotFound`.
pub fn extract_dotenv(plaintext: &str, file: &str, key: &str) -> (r: Result<String, SopsError>)
    ensures
        text_result(r) == spec_extract_dotenv(plaintext@, file@, key@),
{
    let v = chars_of(plaintext);
    let bounds = line_bounds(&v);
    let ghost lines = spec_lines(plaintext@);
    let mut k: usize = 0;
    assert(lines.skip(0) =~= lines);
    while k < bounds.len()
        invariant
            v@ == plaintext@,
            lines == spec_lines(v@),
            bounds@.len() == lines.len(),
            forall|j: int| 0 <= j < bounds@.len() ==> (#[trigger] bounds@[j]).0 <= bounds@[j].1 <= v.len(),
            forall|j: int|
                0 <= j < bounds@.len() ==> v@.subrange(bounds@[j].0 as int, bounds@[j].1 as int)
                    == #[trigger] lines[j],
            k <= bounds.len(),
            dotenv_find(lines, key@) == dotenv_find(lines.skip(k as int), key@),
        decreases bounds.len() - k,
    {
        let (lo, hi) = bounds[k];
        assert(bounds@[k as int] == (lo, hi));
        let line = plaintext.substring_char(lo, hi);
        assert(line@ == lines[k as int]);
        let ghost rest = lines.skip(k as int);
        assert(rest[0] == lines[k as int]);
        assert(rest.drop_first() =~= lines.skip(k + 1));
        match parse_dotenv_line(line) {
            Some((name, value)) => {
                if str_eq(name, key) {
                    return Ok(value.to_string());
                }
            },
            None => {},
        }
        k = k + 1;
    }
    Err(SopsError::KeyNotFound { file: file.to_string(), key: key.to_string() })
}

// ─────────────────────────── local probes ───────────────────────────────

/// What was found at one `PATH` candidate for a binary.
pub struct PathProbe {
    pub path: String,
    /// The candidate is a regular file.
    pub is_file: bool,
    /// Its permission bits, when they could be read.
    pub mode: Option<u32>,
}

/// The first candidate that is a file with an execute bit set; a file
/// whose permissions cannot be read ends the search without a result.
pub open spec fn spec_pick_executable(probes: Seq<PathProbe>) -> Option<Seq<char>>
    decreases probes.len(),
{
    if probes.len() == 0 {
        None
    } else {
        let p = probes[0];
        if !p.is_file {
            spec_pick_executable(probes.drop_first())
        } else {
            match p.mode {
                None => None,
                Some(m) => if m & 0o111u32 == 0 {
                    spec_pick_executable(probes.drop_first())
                } else {
                    Some(p.path@)
                },
            }
        }
    }
}

/// Decides the `PATH` lookup of a binary from the probes of the
/// candidates, in `PATH` order.
pub fn pick_executable(probes: &Vec<PathProbe>) -> (r: Option<String>)
    ensures
        r.deep_view() == spec_pick_executable(probes@),
{
    let mut i: usize = 0;
    assert(probes@.skip(0) =~= probes@);
    while i < probes.len()
        invariant
            i <= probes.len(),
            spec_pick_executable(probes@) == spec_pick_executable(probes@.skip(i as int)),
        decreases probes.len() - i,
    {
        let p = &probes[i];
        assert(probes@.skip(i as int)[0] == probes@[i as int]);
        assert(probes@.skip(i as int).drop_first() =~= probes@.skip(i + 1));
        if p.is_file {
            match p.mode {
                None => return None,
                Some(m) => {
                    if m & 0o111u32 != 0 {
                        return Some(p.path.clone());
                    }
                },
            }
        }
        i = i + 1;
    }
    None
}

/// What `which <name>` answered: the trimmed output when it succeeded.
pub open spec fn spec_which_answer(success: bool, stdout: Seq<u8>) -> Option<Seq<char>> {
    if success {
        Some(trim(utf8_lossy(stdout)))
    } else {
        None
    }
}

/// The path reported by `which`, from its exit status and output.
pub fn which_answer(success: bool, stdout: &Vec<u8>) -> (r: Option<String>)
    ensures
        r.deep_view() == spec_which_answer(success, stdout@),
{
    if success {
        let text = lossy_text(stdout.as_slice());
        Some(trimmed(text.as_str()).to_string())
    } else {
        None
    }
}

/// The first line of a binary's output, trimmed.
pub open spec fn spec_first_output_line(stdout: Seq<u8>) -> Option<Seq<char>> {
    let ls = spec_lines(utf8_lossy(stdout));
    if ls.len() == 0 {
        None
    } else {
        Some(trim(ls[0]))
    }
}

/// The first line of `<binary> --version` output, trimmed.
pub fn first_output_line(stdout: &Vec<u8>) -> (r: Option<String>)
    ensures
        r.deep_view() == spec_first_output_line(stdout@),
{
    let text = lossy_text(stdout.as_slice());
    let v = chars_of(text.as_str());
    let bounds = line_bounds(&v);
    if bounds.len() == 0 {
        return None;
    }
    let (lo, hi) = bounds[0];
    assert(bounds@[0] == (lo, hi));
    let line = text.as_str().substring_char(lo, hi);
    Some(trimmed(line).to_string())
}

// ─────────────────────────── laws ───────────────────────────────────────

/// A successful `bin` byte lookup answers exactly the bytes `sops` printed:
/// the same length, the same bytes, in the same order, whatever the key.
pub proof fn lemma_bin_lookup_is_stdout(
    file: Seq<char>,
    key: Seq<char>,
    hint: Option<Seq<char>>,
    stdout: Vec<u8>,
    stderr: Vec<u8>,
)
    requires
        spec_effective_format(file, hint) == Some("bin"@),
    ensures
        spec_bytes_after_decrypt(
            Extraction::Bin,
            DecryptOutcome::Exited { success: true, stdout, stderr },
            file,
            key,
        ) == Ok::<Seq<u8>, SopsErrorModel>(stdout@),
        spec_lookup_bytes(file, key, hint, true, DecryptOutcome::Exited { success: true, stdout, stderr })
            == Ok::<Seq<u8>, SopsErrorModel>(stdout@),
{
    reveal_strlit("bin");
    reveal_strlit("yaml");
    reveal_strlit("json");
    reveal_strlit("dotenv");
    assert("bin"@.len() == 3 && "yaml"@.len() == 4 && "json"@.len() == 4 && "dotenv"@.len() == 6);
}

proof fn lemma_comment_search_none(s: Seq<char>, n: nat)
    requires
        n <= s.len(),
        forall|j: int| 0 <= j < s.len() ==> s[j] != '#',
    ensures
        comment_search(s, n) == n,
    decreases n,
{
    if n > 0 {
        lemma_comment_search_none(s, (n - 1) as nat);
    }
}

/// `KEY=<v>`, with a key free of `=` and white space that does not start a
/// comment, and a value free of `#` and quotes, parses to the key and the
/// whole value with only its surrounding white space trimmed: inner spaces
/// are kept, and a value with no white space at either end comes back as
/// it is.
pub proof fn lemma_dotenv_assignment(k: Seq<char>, v: Seq<char>)
    requires
        k.len() > 0,
        k[0] != '#',
        forall|j: int| 0 <= j < k.len() ==> k[j] != '=' && !is_white_space(#[trigger] k[j]),
        forall|j: int| 0 <= j < v.len() ==> v[j] != '#' && !is_quote(#[trigger] v[j]),
    ensures
        spec_parse_dotenv_line(k + seq!['='] + v) == Some((k, trim(v))),
        v.len() == 0 || (!is_white_space(v[0]) && !is_white_space(v.last())) ==> spec_parse_dotenv_line(
            k + seq!['='] + v,
        ) == Some((k, v)),
{
    let line = k + seq!['='] + v;
    let ws = |c: char| is_white_space(c);
    assert(line[0] == k[0]);
    assert(count_leading(line, ws) == 0);
    assert(line.skip(0) =~= line);
    assert(trim_start(line) == line);
    reveal_strlit("export ");
    reveal_strlit("unset ");
    assert(is_white_space(' '));
    let e = k.len() as int;
    assert(line[e] == '=');
    assert forall|j: int| 0 <= j < e implies line[j] == k[j] by {}
    if line.len() >= 7 && line.take(7) == export_prefix() {
        assert(line.take(7)[6] == ' ');
        if e > 6 {
            assert(line[6] == k[6]);
        } else {
            assert(line.take(7)[e] == line[e]);
        }
    }
    if line.len() >= 6 && line.take(6) == unset_prefix() {
        assert(line.take(6)[5] == ' ');
        if e > 5 {
            assert(line[5] == k[5]);
        } else {
            assert(line.take(6)[e] == line[e]);
        }
    }
    assert(strip_keyword(line) == line);
    lemma_assignment_value(k, v);
    if v.len() == 0 || (!is_white_space(v[0]) && !is_white_space(v.last())) {
        lemma_trim_by_untouched(v, ws);
    }
}

/// What the part after a keyword of `KEY=<v>` parses to.
proof fn lemma_assignment_value(k: Seq<char>, v: Seq<char>)
    requires
        k.len() > 0,
        forall|j: int| 0 <= j < k.len() ==> k[j] != '=' && !is_white_space(#[trigger] k[j]),
        forall|j: int| 0 <= j < v.len() ==> v[j] != '#' && !is_quote(#[trigger] v[j]),
    ensures
        ({
            let after = k + seq!['='] + v;
            match find_char(after, '=') {
                Some(e) => Some(
                    (trim(after.take(e)), trim_quotes(trim(spec_strip_inline_comment(after.skip(e + 1))))),
                ),
                None => None,
            }
        }) == Some((k, trim(v))),
{
    let line = k + seq!['='] + v;
    let ws = |c: char| is_white_space(c);
    let qs = |c: char| is_quote(c);
    let e = k.len() as int;
    assert(line[e] == '=');
    assert forall|j: int| 0 <= j < e implies line[j] != '=' by {
        assert(line[j] == k[j]);
    }
    lemma_find_char_is(line, '=', Some(e));
    assert(line.take(e) =~= k);
    assert(line.skip(e + 1) =~= v);
    lemma_trim_by_untouched(k, ws);
    lemma_comment_search_none(v, v.len());
    assert(v.take(v.len() as int) =~= v);
    assert(spec_strip_inline_comment(v) == v);
    let t = trim(v);
    lemma_trim_by_within(v, ws);
    if t.len() > 0 {
        assert(t.last() == t[t.len() - 1]);
    }
    lemma_trim_by_untouched(t, qs);
}

/// An `export ` prefix changes nothing: `export KEY=<v>` parses as
/// `KEY=<v>` does (for keys and values as in [`lemma_dotenv_assignment`]).
pub proof fn lemma_dotenv_export(k: Seq<char>, v: Seq<char>)
    requires
        k.len() > 0,
        k[0] != '#',
        forall|j: int| 0 <= j < k.len() ==> k[j] != '=' && !is_white_space(#[trigger] k[j]),
        forall|j: int| 0 <= j < v.len() ==> v[j] != '#' && !is_quote(#[trigger] v[j]),
    ensures
        spec_parse_dotenv_line("export "@ + k + seq!['='] + v) == spec_parse_dotenv_line(k + seq!['='] + v),
{
    lemma_dotenv_assignment(k, v);
    reveal_strlit("export ");
    let body = k + seq!['='] + v;
    let line = "export "@ + body;
    assert(line =~= export_prefix() + body);
    let ws = |c: char| is_white_space(c);
    assert(line[0] == 'e');
    assert(!is_white_space('e'));
    assert(count_leading(line, ws) == 0);
    assert(line.skip(0) =~= line);
    assert(line.take(7) =~= export_prefix());
    assert(line.skip(7) =~= body);
    assert("export "@ + k + seq!['='] + v =~= line);
    assert(strip_keyword(line) == body);
    lemma_assignment_value(k, v);
}

/// Quote state after text without quotes or backslashes: unchanged.
proof fn lemma_quote_state_plain(s: Seq<char>)
    requires
        forall|j: int| 0 <= j < s.len() ==> s[j] != '\'' && s[j] != '"' && s[j] != '\\',
    ensures
        quote_state(s) == (QuoteState { single: false, double: false, escape: false }),
    decreases s.len(),
{
    if s.len() > 0 {
        lemma_quote_state_plain(s.drop_last());
    }
}

/// Without quotes or backslashes, an inline comment starts at the first
/// `#`: the value is everything before it, or all of it when there is none.
pub proof fn lemma_comment_at_first_hash(s: Seq<char>)
    requires
        forall|j: int| 0 <= j < s.len() ==> s[j] != '\'' && s[j] != '"' && s[j] != '\\',
    ensures
        spec_strip_inline_comment(s) == match find_char(s, '#') {
            Some(i) => s.take(i),
            None => s,
        },
{
    assert forall|i: int| 0 <= i < s.len() implies #[trigger] comment_starts_at(s, i) == (s[i] == '#') by {
        lemma_quote_state_plain(s.take(i));
    }
    lemma_comment_search_first(s, s.len());
    crate::text::lemma_find_char(s, '#');
    match find_char(s, '#') {
        Some(i) => {
            lemma_comment_search_first(s, (i + 1) as nat);
            lemma_comment_search_stable(s, (i + 1) as nat, s.len());
        },
        None => {
            assert(s.take(s.len() as int) =~= s);
        },
    }
}

/// Where every position below `n` starts a comment exactly at a `#`, the
/// search stops at the first `#` below `n`, or at `n`.
proof fn lemma_comment_search_first(s: Seq<char>, n: nat)
    requires
        n <= s.len(),
        forall|i: int| 0 <= i < s.len() ==> #[trigger] comment_starts_at(s, i) == (s[i] == '#'),
    ensures
        comment_search(s, n) <= n,
        comment_search(s, n) < n ==> s[comment_search(s, n) as int] == '#',
        forall|j: int| 0 <= j < comment_search(s, n) ==> s[j] != '#',
    decreases n,
{
    if n > 0 {
        lemma_comment_search_first(s, (n - 1) as nat);
        assert(comment_starts_at(s, n - 1) == (s[n - 1] == '#'));
    }
}

/// The lines of `line` followed by `\n` and `rest` are `line` and then the
/// lines of `rest`.
proof fn lemma_lines_cons(line: Seq<char>, rest: Seq<char>)
    requires
        forall|j: int| 0 <= j < line.len() ==> line[j] != '\n',
        !(line.len() > 0 && line.last() == '\r'),
    ensures
        spec_lines(line + seq!['\n'] + rest) == seq![line] + spec_lines(rest),
{
    lemma_split_char_concat(line, rest, '\n');
    lemma_split_char_whole(line, '\n');
    lemma_split_char_len(rest, '\n');
    let p = split_char(rest, '\n');
    let parts = seq![line] + p;
    assert(parts.drop_last() =~= seq![line] + p.drop_last());
    assert(parts.last() == p.last());
    assert(strip_cr(line) == line);
    let f = |l: Seq<char>| strip_cr(l);
    assert((seq![line] + p.drop_last()).map_values(f) =~= seq![line] + p.drop_last().map_values(f));
    assert((seq![line] + p.drop_last().map_values(f)).push(p.last()) =~= seq![line] + p.drop_last().map_values(
        f,
    ).push(p.last()));
}

/// Dotenv lookup goes line by line: empty text defines nothing; a first
/// line that defines the key answers its value, and a first line that
/// defines no key, or another key (a blank, comment or malformed line
/// among them), leaves the answer to the lines after it.
pub proof fn lemma_dotenv_lines(line: Seq<char>, rest: Seq<char>, file: Seq<char>, key: Seq<char>)
    requires
        forall|j: int| 0 <= j < line.len() ==> line[j] != '\n',
        !(line.len() > 0 && line.last() == '\r'),
    ensures
        spec_extract_dotenv(Seq::<char>::empty(), file, key) == Err::<Seq<char>, SopsErrorModel>(
            SopsErrorModel::KeyNotFound { file, key },
        ),
        spec_parse_dotenv_line(line) matches Some((k, v)) ==> (k == key ==> spec_extract_dotenv(
            line + seq!['\n'] + rest,
            file,
            key,
        ) == Ok::<Seq<char>, SopsErrorModel>(v)),
        !(spec_parse_dotenv_line(line) matches Some((k, _)) && k == key) ==> spec_extract_dotenv(
            line + seq!['\n'] + rest,
            file,
            key,
        ) == spec_extract_dotenv(rest, file, key),
{
    assert(split_char(Seq::<char>::empty(), '\n') == seq![Seq::<char>::empty()]);
    assert(spec_lines(Seq::<char>::empty()) =~= Seq::<Seq<char>>::empty());
    lemma_lines_cons(line, rest);
    let ls = seq![line] + spec_lines(rest);
    assert(ls[0] == line);
    assert(ls.drop_first() =~= spec_lines(rest));
}

} // verus!
