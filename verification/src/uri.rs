//! Provider URIs (`sops://<file>?<query>` / `sops://<file>#<key>`) and
//! credential field specifications, whose rendered form never shows a
//! sensitive URI.
use vstd::prelude::*;

use crate::text::{concat, debug_repr, debug_str, chars_eq, chars_of, find_char, find_in, lemma_find_char_is, lemma_split_char_len, lemma_split_char_step, split_char, starts_with_at};

verus! {

// ────────────────────────────── models ──────────────────────────────────

/// What a [`SopsUri`] denotes.
pub struct UriModel {
    pub file: Seq<char>,
    pub key: Option<Seq<char>>,
    pub format: Option<Seq<char>>,
    pub extra: Seq<(Seq<char>, Seq<char>)>,
}

/// What a [`UriError`] denotes.
pub enum UriErrorModel {
    WrongScheme(Seq<char>),
    EmptyPath,
    Malformed(Seq<char>),
}

/// Top-level provider URI: `sops://<file>?<query>` or `sops://<file>#<key>`.
///
/// Unknown query parameters are kept, in order, in `extra`.
#[derive(Debug, Clone, PartialEq, Eq, Default)]
pub struct SopsUri {
    /// Path to the SOPS-encrypted file.
    pub file: String,
    /// Key inside the file (from `?key=X` or `#X`).
    pub key: Option<String>,
    /// Format hint (from `?f=X` or `?format=X`).
    pub format: Option<String>,
    /// All other query parameters, in order of appearance.
    pub extra: Vec<(String, String)>,
}

impl View for SopsUri {
    type V = UriModel;

    open spec fn view(&self) -> UriModel {
        UriModel {
            file: self.file@,
            key: self.key.deep_view(),
            format: self.format.deep_view(),
            extra: self.extra.deep_view(),
        }
    }
}

/// Why a string is not a provider URI.
#[derive(Debug, Clone, PartialEq, Eq)]
pub enum UriError {
    /// The string does not start with `sops://`.
    WrongScheme(String),
    /// The file path is empty.
    EmptyPath,
    /// Any other mistake, with a human-readable message.
    Malformed(String),
}

impl View for UriError {
    type V = UriErrorModel;

    open spec fn view(&self) -> UriErrorModel {
        match self {
            UriError::WrongScheme(s) => UriErrorModel::WrongScheme(s@),
            UriError::EmptyPath => UriErrorModel::EmptyPath,
            UriError::Malformed(s) => UriErrorModel::Malformed(s@),
        }
    }
}

pub open spec fn uri_result_view(r: Result<SopsUri, UriError>) -> Result<UriModel, UriErrorModel> {
    match r {
        Ok(u) => Ok(u@),
        Err(e) => Err(e@),
    }
}

// ────────────────────────────── parsing ─────────────────────────────────

pub open spec fn sops_scheme() -> Seq<char> {
    seq!['s', 'o', 'p', 's', ':', '/', '/']
}

pub open spec fn key_name() -> Seq<char> {
    seq!['k', 'e', 'y']
}

pub open spec fn short_format_name() -> Seq<char> {
    seq!['f']
}

pub open spec fn format_name() -> Seq<char> {
    seq!['f', 'o', 'r', 'm', 'a', 't']
}

/// The message of the error for an empty `#` fragment.
pub open spec fn empty_fragment_message() -> Seq<char> {
    "empty fragment; use `?key=X` instead"@
}

/// Key, format and unknown parameters gathered from a query.
pub struct ParamAcc {
    pub key: Option<Seq<char>>,
    pub format: Option<Seq<char>>,
    pub extra: Seq<(Seq<char>, Seq<char>)>,
}

/// Splits `k=v` at its first `=`; a pair without `=` has an empty value.
pub open spec fn split_pair(pair: Seq<char>) -> (Seq<char>, Seq<char>) {
    match find_char(pair, '=') {
        Some(i) => (pair.take(i), pair.skip(i + 1)),
        None => (pair, Seq::<char>::empty()),
    }
}

/// Effect of one `&`-separated query piece: empty pieces are ignored,
/// `key` sets the key, `f` / `format` set the format (the last one wins),
/// anything else is appended to the unknown parameters.
pub open spec fn apply_param(acc: ParamAcc, pair: Seq<char>) -> ParamAcc {
    if pair.len() == 0 {
        acc
    } else {
        let (k, v) = split_pair(pair);
        if k == key_name() {
            ParamAcc { key: Some(v), ..acc }
        } else if k == short_format_name() || k == format_name() {
            ParamAcc { format: Some(v), ..acc }
        } else {
            ParamAcc { extra: acc.extra.push((k, v)), ..acc }
        }
    }
}

/// Applies the query pieces from left to right.
pub open spec fn fold_params(pairs: Seq<Seq<char>>, acc: ParamAcc) -> ParamAcc
    decreases pairs.len(),
{
    if pairs.len() == 0 {
        acc
    } else {
        apply_param(fold_params(pairs.drop_last(), acc), pairs.last())
    }
}

/// What `SopsUri::parse` returns for `s`.
pub open spec fn spec_parse(s: Seq<char>) -> Result<UriModel, UriErrorModel> {
    if s.len() < 7 || s.take(7) != sops_scheme() {
        Err(UriErrorModel::WrongScheme(s))
    } else {
        let rest = s.skip(7);
        if rest.len() == 0 {
            Err(UriErrorModel::EmptyPath)
        } else {
            let (no_fragment, fragment) = match find_char(rest, '#') {
                Some(i) => (rest.take(i), Some(rest.skip(i + 1))),
                None => (rest, None),
            };
            if fragment == Some(Seq::<char>::empty()) {
                Err(UriErrorModel::Malformed(empty_fragment_message()))
            } else {
                let (path, query) = match find_char(no_fragment, '?') {
                    Some(i) => (no_fragment.take(i), no_fragment.skip(i + 1)),
                    None => (no_fragment, Seq::<char>::empty()),
                };
                if path.len() == 0 {
                    Err(UriErrorModel::EmptyPath)
                } else {
                    let acc = fold_params(
                        split_char(query, '&'),
                        ParamAcc { key: fragment, format: None, extra: Seq::empty() },
                    );
                    Ok(UriModel { file: path, key: acc.key, format: acc.format, extra: acc.extra })
                }
            }
        }
    }
}

// ────────────────────────────── rendering ───────────────────────────────

/// `k=v`.
pub open spec fn pair_text(k: Seq<char>, v: Seq<char>) -> Seq<char> {
    k + seq!['='] + v
}

/// The query parameters of `u`, in rendering order: key, format, extras.
pub open spec fn public_params(u: UriModel) -> Seq<Seq<char>> {
    let key_part = match u.key {
        Some(k) => seq![pair_text(key_name(), k)],
        None => Seq::<Seq<char>>::empty(),
    };
    let format_part = match u.format {
        Some(f) => seq![pair_text(short_format_name(), f)],
        None => Seq::<Seq<char>>::empty(),
    };
    key_part + format_part + u.extra.map_values(|p: (Seq<char>, Seq<char>)| pair_text(p.0, p.1))
}

/// The pieces joined by `sep`.
pub open spec fn join_sep(ps: Seq<Seq<char>>, sep: char) -> Seq<char>
    decreases ps.len(),
{
    if ps.len() == 0 {
        Seq::<char>::empty()
    } else if ps.len() == 1 {
        ps[0]
    } else {
        join_sep(ps.drop_last(), sep) + seq![sep] + ps.last()
    }
}

/// `?p1&p2&…`, or nothing when there are no parameters.
pub open spec fn query_text(ps: Seq<Seq<char>>) -> Seq<char> {
    if ps.len() == 0 {
        Seq::<char>::empty()
    } else {
        seq!['?'] + join_sep(ps, '&')
    }
}

/// What `SopsUri::to_public_string` returns.
pub open spec fn spec_public_string(u: UriModel) -> Seq<char> {
    sops_scheme() + u.file + query_text(public_params(u))
}

/// Gathers one query piece `v[lo..hi]` into the key, format and extras.
fn apply_param_exec(
    s: &str,
    v: &Vec<char>,
    lo: usize,
    hi: usize,
    key: &mut Option<String>,
    format: &mut Option<String>,
    extra: &mut Vec<(String, String)>,
)
    requires
        v@ == s@,
        lo <= hi <= v.len(),
    ensures
        (ParamAcc { key: final(key).deep_view(), format: final(format).deep_view(), extra: final(extra).deep_view() })
            == apply_param(
            ParamAcc { key: old(key).deep_view(), format: old(format).deep_view(), extra: old(extra).deep_view() },
            v@.subrange(lo as int, hi as int),
        ),
{
    let ghost pair = v@.subrange(lo as int, hi as int);
    if lo == hi {
        return ;
    }
    let (klo, khi, vlo, vhi) = match find_in(v, lo, hi, '=') {
        Some(e) => (lo, e, e + 1, hi),
        None => (lo, hi, hi, hi),
    };
    assert(v@.subrange(klo as int, khi as int) == split_pair(pair).0);
    assert(v@.subrange(vlo as int, vhi as int) == split_pair(pair).1);
    let kname = s.substring_char(klo, khi).to_string();
    let value = s.substring_char(vlo, vhi).to_string();
    let key_lit = vec!['k', 'e', 'y'];
    let f_lit = vec!['f'];
    let format_lit = vec!['f', 'o', 'r', 'm', 'a', 't'];
    assert(key_lit@ == key_name());
    assert(f_lit@ == short_format_name());
    assert(format_lit@ == format_name());
    assert(kname@ == split_pair(pair).0);
    assert(value@ == split_pair(pair).1);
    if chars_eq(v, klo, khi, &key_lit) {
        *key = Some(value);
    } else if chars_eq(v, klo, khi, &f_lit) || chars_eq(v, klo, khi, &format_lit) {
        *format = Some(value);
    } else {
        let ghost old_extra = extra.deep_view();
        extra.push((kname, value));
        assert(extra.deep_view() =~= old_extra.push((split_pair(pair).0, split_pair(pair).1)));
    }
}

impl SopsUri {
    /// Parse a `sops://…` URI.
    ///
    /// The fragment (`#X`) gives the key; the query (`?a=b&c=d`) is split at
    /// `&`, empty pieces are skipped, `key=` sets the key, `f=` / `format=`
    /// set the format hint, and all other parameters are kept in `extra`.
    pub fn parse(s: &str) -> (r: Result<SopsUri, UriError>)
        ensures
            uri_result_view(r) == spec_parse(s@),
    {
        let v = chars_of(s);
        let n = v.len();
        let scheme = vec!['s', 'o', 'p', 's', ':', '/', '/'];
        if !starts_with_at(&v, 0, n, &scheme) {
            assert(v@.subrange(0, n as int) == v@);
            return Err(UriError::WrongScheme(s.to_string()));
        }
        assert(v@.subrange(0, n as int) == v@);
        let ghost rest = v@.skip(7);
        assert(rest == v@.subrange(7, n as int));
        if n == 7 {
            return Err(UriError::EmptyPath);
        }
        let (nf_end, fragment): (usize, Option<(usize, usize)>) = match find_in(&v, 7, n, '#') {
            Some(h) => (h, Some((h + 1, n))),
            None => (n, None),
        };
        proof {
            match find_char(rest, '#') {
                Some(i) => {
                    assert(rest.take(i) == v@.subrange(7, nf_end as int));
                    assert(rest.skip(i + 1) == v@.subrange(nf_end + 1, n as int));
                },
                None => {},
            }
        }
        if let Some((flo, fhi)) = fragment {
            if flo == fhi {
                assert(rest.skip(nf_end - 7 + 1) =~= Seq::<char>::empty());
                return Err(UriError::Malformed("empty fragment; use `?key=X` instead".to_string()));
            }
        }
        let ghost no_fragment = v@.subrange(7, nf_end as int);
        let (path_end, qlo, qhi): (usize, usize, usize) = match find_in(&v, 7, nf_end, '?') {
            Some(q) => (q, q + 1, nf_end),
            None => (nf_end, nf_end, nf_end),
        };
        proof {
            match find_char(no_fragment, '?') {
                Some(i) => {
                    assert(no_fragment.take(i) == v@.subrange(7, path_end as int));
                    assert(no_fragment.skip(i + 1) == v@.subrange(qlo as int, qhi as int));
                },
                None => {
                    assert(v@.subrange(qlo as int, qhi as int) =~= Seq::<char>::empty());
                },
            }
        }
        if path_end == 7 {
            return Err(UriError::EmptyPath);
        }
        let mut key: Option<String> = match fragment {
            Some((flo, fhi)) => Some(s.substring_char(flo, fhi).to_string()),
            None => None,
        };
        let mut format: Option<String> = None;
        let mut extra: Vec<(String, String)> = Vec::new();
        let ghost query = v@.subrange(qlo as int, qhi as int);
        let ghost acc0 = ParamAcc { key: key.deep_view(), format: None, extra: Seq::empty() };
        assert(extra.deep_view() =~= Seq::<(Seq<char>, Seq<char>)>::empty());
        let mut start = qlo;
        let mut i = qlo;
        assert(query.take(0) =~= Seq::<char>::empty());
        while i < qhi
            invariant
                v@ == s@,
                qlo <= start <= i <= qhi <= n == v.len(),
                query == v@.subrange(qlo as int, qhi as int),
                split_char(query.take(i - qlo), '&').last() == v@.subrange(start as int, i as int),
                (ParamAcc { key: key.deep_view(), format: format.deep_view(), extra: extra.deep_view() })
                    == fold_params(split_char(query.take(i - qlo), '&').drop_last(), acc0),
            decreases qhi - i,
        {
            proof {
                assert(v@.subrange(start as int, i as int) == query.subrange(start - qlo, i - qlo));
                lemma_split_char_step(query, i - qlo, start - qlo, '&');
                assert(query[i - qlo] == v@[i as int]);
            }
            if v[i] == '&' {
                let ghost pieces = split_char(query.take(i - qlo), '&');
                apply_param_exec(s, &v, start, i, &mut key, &mut format, &mut extra);
                proof {
                    let np = pieces.push(Seq::<char>::empty());
                    assert(np.drop_last() == pieces);
                    lemma_split_char_len(query.take(i - qlo), '&');
                    assert(pieces == pieces.drop_last().push(pieces.last()));
                }
                start = i + 1;
                assert(v@.subrange(start as int, (i + 1) as int) =~= Seq::<char>::empty());
            } else {
                proof {
                    let pieces = split_char(query.take(i - qlo), '&');
                    lemma_split_char_len(query.take(i - qlo), '&');
                    let np = pieces.update(pieces.len() - 1, query.subrange(start - qlo, i - qlo + 1));
                    assert(np.drop_last() =~= pieces.drop_last());
                    assert(query.subrange(start - qlo, i - qlo + 1) == v@.subrange(start as int, i + 1));
                }
            }
            i = i + 1;
        }
        apply_param_exec(s, &v, start, qhi, &mut key, &mut format, &mut extra);
        proof {
            assert(query.take(qhi - qlo) == query);
            let pieces = split_char(query, '&');
            lemma_split_char_len(query, '&');
            assert(pieces == pieces.drop_last().push(pieces.last()));
        }
        Ok(SopsUri { file: s.substring_char(7, path_end).to_string(), key, format, extra })
    }

    /// The URI as a string: `sops://<file>` followed by `?key=…`, `f=…` and
    /// the unknown parameters, joined by `&`. A `#` fragment is rendered as
    /// `key=`. This is the form that goes to logs.
    pub fn to_public_string(&self) -> (r: String)
        ensures
            r@ == spec_public_string(self@),
    {
        let mut out = String::new();
        out.append("sops://");
        out.append(self.file.as_str());
        proof {
            reveal_strlit("sops://");
            assert(out@ == sops_scheme() + self.file@ + query_text(Seq::<Seq<char>>::empty()));
        }
        let ghost head = sops_scheme() + self.file@;
        let ghost all = public_params(self@);
        let ghost key_part = match self@.key {
            Some(k) => seq![pair_text(key_name(), k)],
            None => Seq::<Seq<char>>::empty(),
        };
        let ghost format_part = match self@.format {
            Some(f) => seq![pair_text(short_format_name(), f)],
            None => Seq::<Seq<char>>::empty(),
        };
        let mut first = true;
        if let Some(k) = &self.key {
            push_param(&mut out, Ghost(head), Ghost(Seq::<Seq<char>>::empty()), first, "key", k.as_str());
            proof {
                reveal_strlit("key");
                assert(key_part =~= Seq::<Seq<char>>::empty().push(pair_text(key_name(), k@)));
            }
            first = false;
        }
        assert(out@ == head + query_text(key_part));
        if let Some(f) = &self.format {
            push_param(&mut out, Ghost(head), Ghost(key_part), first, "f", f.as_str());
            proof {
                reveal_strlit("f");
                assert("f"@ == short_format_name());
                assert(format_part == seq![pair_text(short_format_name(), f@)]);
                assert(key_part + format_part =~= key_part.push(pair_text(short_format_name(), f@)));
            }
            first = false;
        } else {
            assert(key_part + format_part =~= key_part);
        }
        assert(out@ == head + query_text(key_part + format_part));
        let ghost fixed = key_part + format_part;
        let mut i: usize = 0;
        while i < self.extra.len()
            invariant
                first == (fixed.len() + i == 0),
                i <= self.extra.len(),
                out@ == head + query_text(fixed + self@.extra.take(i as int).map_values(|p: (Seq<char>, Seq<char>)| pair_text(p.0, p.1))),
            decreases self.extra.len() - i,
        {
            let ghost done = fixed + self@.extra.take(i as int).map_values(|p: (Seq<char>, Seq<char>)| pair_text(p.0, p.1));
            push_param(&mut out, Ghost(head), Ghost(done), first, self.extra[i].0.as_str(), self.extra[i].1.as_str());
            proof {
                let m = |p: (Seq<char>, Seq<char>)| pair_text(p.0, p.1);
                assert(self@.extra[i as int] == (self.extra[i as int].0@, self.extra[i as int].1@));
                assert(self@.extra.take(i + 1).map_values(m) =~= self@.extra.take(i as int).map_values(m).push(m(self@.extra[i as int])));
                assert(fixed + self@.extra.take(i + 1).map_values(m) =~= done.push(m(self@.extra[i as int])));
            }
            first = false;
            i = i + 1;
        }
        proof {
            assert(self@.extra.take(self.extra.len() as int) == self@.extra);
        }
        out
    }
}

/// Appends the parameter `k=v` to a rendered URI that already carries the
/// parameters `done` (`first` when there are none).
fn push_param(out: &mut String, Ghost(head): Ghost<Seq<char>>, Ghost(done): Ghost<Seq<Seq<char>>>, first: bool, k: &str, v: &str)
    requires
        old(out)@ == head + query_text(done),
        first == (done.len() == 0),
    ensures
        final(out)@ == head + query_text(done.push(pair_text(k@, v@))),
{
    proof {
        reveal_strlit("?");
        reveal_strlit("&");
        reveal_strlit("=");
    }
    if first {
        out.append("?");
    } else {
        out.append("&");
    }
    out.append(k);
    out.append("=");
    out.append(v);
    let ghost np = done.push(pair_text(k@, v@));
    assert(np.drop_last() == done);
    if first {
        assert(query_text(np) =~= seq!['?'] + pair_text(k@, v@));
        assert(final(out)@ =~= head + query_text(np));
    } else {
        assert(query_text(np) =~= query_text(done) + seq!['&'] + pair_text(k@, v@));
        assert(final(out)@ =~= head + query_text(np));
    }
}

impl std::str::FromStr for SopsUri {
    type Err = UriError;

    /// The same as [`SopsUri::parse`].
    fn from_str(s: &str) -> (r: Result<Self, Self::Err>)
        ensures
            uri_result_view(r) == spec_parse(s@),
    {
        Self::parse(s)
    }
}

/// The file and format that `get <file> <key> [--format F]` works on: a
/// `sops://` URI gives its file and format, the flag taking precedence over
/// the URI's `f=`; any other argument is a plain path.
pub open spec fn spec_cli_target(arg: Seq<char>, flag: Option<Seq<char>>) -> (Seq<char>, Option<Seq<char>>) {
    match spec_parse(arg) {
        Ok(u) => (
            u.file,
            match flag {
                Some(f) => Some(f),
                None => u.format,
            },
        ),
        Err(_) => (arg, flag),
    }
}

/// The file and format hint for the command line's `get` (see
/// [`spec_cli_target`]).
pub fn cli_target(file_arg: &str, format_flag: Option<&str>) -> (r: (String, Option<String>))
    ensures
        (r.0@, r.1.deep_view()) == spec_cli_target(file_arg@, format_flag.deep_view()),
{
    match SopsUri::parse(file_arg) {
        Ok(u) => {
            let fmt = match format_flag {
                Some(f) => Some(f.to_string()),
                None => u.format,
            };
            (u.file, fmt)
        },
        Err(_) => (
            file_arg.to_string(),
            match format_flag {
                Some(f) => Some(f.to_string()),
                None => None,
            },
        ),
    }
}

/// What `UriError::message` returns.
pub open spec fn spec_uri_error_message(e: UriErrorModel) -> Seq<char> {
    match e {
        UriErrorModel::WrongScheme(s) => "URI does not start with `sops://`: "@ + debug_repr(s),
        UriErrorModel::EmptyPath => "URI is missing the file path"@,
        UriErrorModel::Malformed(m) => "URI malformed: "@ + m,
    }
}

impl UriError {
    /// Human-readable message (the error's display form).
    pub fn message(&self) -> (r: String)
        ensures
            r@ == spec_uri_error_message(self@),
    {
        match self {
            UriError::WrongScheme(s) => concat("URI does not start with `sops://`: ", debug_str(s.as_str()).as_str()),
            UriError::EmptyPath => "URI is missing the file path".to_string(),
            UriError::Malformed(m) => concat("URI malformed: ", m.as_str()),
        }
    }
}

// ────────────────────────────── FieldSpec ───────────────────────────────

/// What a [`FieldSpec`] denotes.
pub struct FieldModel {
    pub name: Seq<char>,
    pub uri: Seq<char>,
    pub sensitive: bool,
}

/// One credential entry in a provider's `credentials = { … }` block.
///
/// A sensitive field (the default) renders its URI as `***`; a public one
/// renders it verbatim.
#[derive(Debug, Clone, PartialEq, Eq)]
pub struct FieldSpec {
    /// Logical name (e.g. `"age_key"`).
    pub name: String,
    /// The provider URI that resolves this credential.
    pub uri: String,
    /// True iff this credential is secret.
    pub sensitive: bool,
}

impl View for FieldSpec {
    type V = FieldModel;

    open spec fn view(&self) -> FieldModel {
        FieldModel { name: self.name@, uri: self.uri@, sensitive: self.sensitive }
    }
}

/// The mask that stands for a sensitive value.
pub open spec fn mask() -> Seq<char> {
    "***"@
}

/// What `FieldSpec::display_string` returns: `name=***` for a sensitive
/// field, `name=<uri>` for a public one.
pub open spec fn spec_field_display(f: FieldModel) -> Seq<char> {
    f.name + "="@ + (if f.sensitive { mask() } else { f.uri })
}

impl FieldSpec {
    /// A new, sensitive field.
    pub fn new(name: &str, uri: &str) -> (r: Self)
        ensures
            r@ == (FieldModel { name: name@, uri: uri@, sensitive: true }),
    {
        FieldSpec { name: name.to_string(), uri: uri.to_string(), sensitive: true }
    }

    /// The same field, marked public (not redacted when rendered).
    pub fn public(self) -> (r: Self)
        ensures
            r@ == (FieldModel { sensitive: false, ..self@ }),
    {
        FieldSpec { sensitive: false, ..self }
    }

    /// The raw URI, bypassing redaction. Not for logs.
    pub fn uri_redacted(&self) -> (r: &str)
        ensures
            r@ == self.uri@,
    {
        self.uri.as_str()
    }

    /// The form for logs and messages: `name=***`, or `name=<uri>` for a
    /// public field.
    pub fn display_string(&self) -> (r: String)
        ensures
            r@ == spec_field_display(self@),
    {
        let head = concat(self.name.as_str(), "=");
        if self.sensitive {
            concat(head.as_str(), "***")
        } else {
            concat(head.as_str(), self.uri.as_str())
        }
    }
}

// ────────────────────────────── round trip ──────────────────────────────

/// `c` does not occur in `s`.
pub open spec fn lacks(s: Seq<char>, c: char) -> bool {
    forall|j: int| 0 <= j < s.len() ==> s[j] != c
}

/// A name that the parser files under the unknown parameters and that
/// holds no `=`.
pub open spec fn plain_extra_name(k: Seq<char>) -> bool {
    &&& lacks(k, '=')
    &&& k != key_name()
    &&& k != short_format_name()
    &&& k != format_name()
}

/// The URIs whose public string parses back to them: a non-empty file
/// without `?` or `#`, key and format values and unknown parameters
/// without `&` or `#`, unknown parameter names without `=` that are not
/// `key`, `f` or `format`.
pub open spec fn uri_well_formed(u: UriModel) -> bool {
    &&& u.file.len() > 0
    &&& lacks(u.file, '?')
    &&& lacks(u.file, '#')
    &&& (u.key matches Some(k) ==> lacks(k, '&') && lacks(k, '#'))
    &&& (u.format matches Some(f) ==> lacks(f, '&') && lacks(f, '#'))
    &&& forall|i: int|
        0 <= i < u.extra.len() ==> {
            let (k, v) = #[trigger] u.extra[i];
            &&& plain_extra_name(k)
            &&& lacks(k, '&')
            &&& lacks(k, '#')
            &&& lacks(v, '&')
            &&& lacks(v, '#')
        }
}

proof fn lemma_split_char_single(s: Seq<char>, c: char)
    requires
        lacks(s, c),
    ensures
        split_char(s, c) == seq![s],
    decreases s.len(),
{
    if s.len() > 0 {
        lemma_split_char_single(s.drop_last(), c);
        assert(s.drop_last().push(s.last()) =~= s);
        assert(seq![s.drop_last()].update(0, s.drop_last().push(s.last())) =~= seq![s]);
    } else {
        assert(s =~= Seq::<char>::empty());
    }
}

proof fn lemma_split_char_sep(x: Seq<char>, l: Seq<char>, c: char)
    requires
        lacks(l, c),
    ensures
        split_char(x + seq![c] + l, c) == split_char(x, c).push(l),
    decreases l.len(),
{
    if l.len() == 0 {
        assert(x + seq![c] + l =~= x.push(c));
        assert((x.push(c)).drop_last() =~= x);
        assert(l =~= Seq::<char>::empty());
    } else {
        let lp = l.drop_last();
        lemma_split_char_sep(x, lp, c);
        let t = x + seq![c] + l;
        assert(t.drop_last() =~= x + seq![c] + lp);
        assert(t.last() == l.last());
        let p = split_char(x, c).push(lp);
        assert(lp.push(l.last()) =~= l);
        assert(p.update(p.len() - 1, lp.push(l.last())) =~= split_char(x, c).push(l));
        assert(lp.push(l.last()) =~= l);
    }
}

proof fn lemma_join_lacks(ps: Seq<Seq<char>>, sep: char, c: char)
    requires
        sep != c,
        forall|i: int| 0 <= i < ps.len() ==> lacks(#[trigger] ps[i], c),
    ensures
        lacks(join_sep(ps, sep), c),
    decreases ps.len(),
{
    if ps.len() > 1 {
        lemma_join_lacks(ps.drop_last(), sep, c);
        let a = join_sep(ps.drop_last(), sep);
        let l = ps.last();
        assert(lacks(l, c));
        assert forall|j: int| 0 <= j < join_sep(ps, sep).len() implies join_sep(ps, sep)[j] != c by {
            if j < a.len() {
                assert(join_sep(ps, sep)[j] == a[j]);
            } else if j == a.len() {
            } else {
                assert(join_sep(ps, sep)[j] == l[j - a.len() - 1]);
            }
        }
    } else if ps.len() == 1 {
        assert(lacks(ps[0], c));
    }
}

proof fn lemma_split_join(ps: Seq<Seq<char>>, c: char)
    requires
        ps.len() > 0,
        forall|i: int| 0 <= i < ps.len() ==> lacks(#[trigger] ps[i], c),
    ensures
        split_char(join_sep(ps, c), c) == ps,
    decreases ps.len(),
{
    if ps.len() == 1 {
        assert(lacks(ps[0], c));
        lemma_split_char_single(ps[0], c);
        assert(ps =~= seq![ps[0]]);
    } else {
        lemma_split_join(ps.drop_last(), c);
        assert(lacks(ps.last(), c));
        lemma_split_char_sep(join_sep(ps.drop_last(), c), ps.last(), c);
        assert(ps.drop_last().push(ps.last()) =~= ps);
    }
}

proof fn lemma_fold_concat(a: Seq<Seq<char>>, b: Seq<Seq<char>>, acc: ParamAcc)
    ensures
        fold_params(a + b, acc) == fold_params(b, fold_params(a, acc)),
    decreases b.len(),
{
    if b.len() == 0 {
        assert(a + b =~= a);
    } else {
        lemma_fold_concat(a, b.drop_last(), acc);
        assert((a + b).drop_last() =~= a + b.drop_last());
        assert((a + b).last() == b.last());
    }
}

proof fn lemma_fold_single(pair: Seq<char>, acc: ParamAcc)
    ensures
        fold_params(seq![pair], acc) == apply_param(acc, pair),
{
    assert(seq![pair].drop_last() =~= Seq::<Seq<char>>::empty());
    assert(fold_params(Seq::<Seq<char>>::empty(), acc) == acc);
    assert(seq![pair].last() == pair);
}

proof fn lemma_split_pair_text(k: Seq<char>, v: Seq<char>)
    requires
        lacks(k, '='),
    ensures
        split_pair(pair_text(k, v)) == (k, v),
        pair_text(k, v).len() > 0,
{
    let t = pair_text(k, v);
    assert(t[k.len() as int] == '=');
    assert forall|j: int| 0 <= j < k.len() implies t[j] != '=' by {
        assert(t[j] == k[j]);
    }
    lemma_find_char_is(t, '=', Some(k.len() as int));
    assert(t.take(k.len() as int) =~= k);
    assert(t.skip(k.len() as int + 1) =~= v);
}

proof fn lemma_fold_extra(
    extra: Seq<(Seq<char>, Seq<char>)>,
    acc: ParamAcc,
)
    requires
        forall|i: int| 0 <= i < extra.len() ==> plain_extra_name(#[trigger] extra[i].0),
    ensures
        fold_params(extra.map_values(|p: (Seq<char>, Seq<char>)| pair_text(p.0, p.1)), acc) == (ParamAcc {
            extra: acc.extra + extra,
            ..acc
        }),
    decreases extra.len(),
{
    let m = |p: (Seq<char>, Seq<char>)| pair_text(p.0, p.1);
    if extra.len() == 0 {
        assert(acc.extra + extra =~= acc.extra);
        assert(extra.map_values(m) =~= Seq::<Seq<char>>::empty());
    } else {
        let e = extra.drop_last();
        assert forall|i: int| 0 <= i < e.len() implies plain_extra_name(#[trigger] e[i].0) by {
            assert(e[i] == extra[i]);
        }
        lemma_fold_extra(e, acc);
        assert(extra.map_values(m).drop_last() =~= e.map_values(m));
        let (k, v) = extra.last();
        assert(extra[extra.len() - 1] == extra.last());
        lemma_split_pair_text(k, v);
        assert(acc.extra + e.push((k, v)) =~= acc.extra + extra);
        assert(e.push((k, v)) =~= extra);
        assert((acc.extra + e).push((k, v)) =~= acc.extra + extra);
    }
}

/// The key a query leaves, starting from `acc`: a `key=` piece sets it; the
/// format and the unknown parameters do not depend on the starting key.
proof fn lemma_fold_params_start_key(pairs: Seq<Seq<char>>, acc: ParamAcc)
    ensures
        fold_params(pairs, acc).format == fold_params(pairs, ParamAcc { key: None, ..acc }).format,
        fold_params(pairs, acc).extra == fold_params(pairs, ParamAcc { key: None, ..acc }).extra,
        fold_params(pairs, acc).key == (match fold_params(pairs, ParamAcc { key: None, ..acc }).key {
            Some(x) => Some(x),
            None => acc.key,
        }),
    decreases pairs.len(),
{
    if pairs.len() > 0 {
        lemma_fold_params_start_key(pairs.drop_last(), acc);
    }
}

/// The fragment is what follows the first `#`, wherever a `?` stands before
/// it: `sops://<file>?<query>#<k>` has the file, the format and the unknown
/// parameters of `sops://<file>?<query>`, read from `<query>` alone, and as
/// key the query's `key=` value if it has one, else `<k>`.
pub proof fn lemma_fragment_after_query(file: Seq<char>, query: Seq<char>, k: Seq<char>)
    requires
        file.len() > 0,
        lacks(file, '?'),
        lacks(file, '#'),
        lacks(query, '#'),
        k.len() > 0,
    ensures
        spec_parse("sops://"@ + file + seq!['?'] + query + seq!['#'] + k) is Ok,
        spec_parse("sops://"@ + file + seq!['?'] + query) is Ok,
        spec_parse("sops://"@ + file + seq!['?'] + query + seq!['#'] + k)->Ok_0.file == file,
        spec_parse("sops://"@ + file + seq!['?'] + query + seq!['#'] + k)->Ok_0.format == spec_parse(
            "sops://"@ + file + seq!['?'] + query,
        )->Ok_0.format,
        spec_parse("sops://"@ + file + seq!['?'] + query + seq!['#'] + k)->Ok_0.extra == spec_parse(
            "sops://"@ + file + seq!['?'] + query,
        )->Ok_0.extra,
        spec_parse("sops://"@ + file + seq!['?'] + query + seq!['#'] + k)->Ok_0.key == (match spec_parse(
            "sops://"@ + file + seq!['?'] + query,
        )->Ok_0.key {
            Some(x) => Some(x),
            None => Some(k),
        }),
{
    reveal_strlit("sops://");
    let head = file + seq!['?'] + query;
    let rest1 = head + seq!['#'] + k;
    let s1 = "sops://"@ + rest1;
    let s2 = "sops://"@ + head;
    assert("sops://"@ + file + seq!['?'] + query + seq!['#'] + k =~= s1);
    assert("sops://"@ + file + seq!['?'] + query =~= s2);
    assert(s1.take(7) =~= sops_scheme());
    assert(s2.take(7) =~= sops_scheme());
    assert(s1.skip(7) =~= rest1);
    assert(s2.skip(7) =~= head);
    let i = head.len() as int;
    assert forall|j: int| 0 <= j < i implies rest1[j] != '#' by {
        assert(rest1[j] == head[j]);
        if j < file.len() {
            assert(head[j] == file[j]);
        } else if j > file.len() {
            assert(head[j] == query[j - file.len() - 1]);
        }
    }
    lemma_find_char_is(rest1, '#', Some(i));
    assert(rest1.take(i) =~= head);
    assert(rest1.skip(i + 1) =~= k);
    assert forall|j: int| 0 <= j < head.len() implies head[j] != '#' by {
        assert(rest1[j] == head[j]);
    }
    lemma_find_char_is(head, '#', None);
    let f = file.len() as int;
    assert forall|j: int| 0 <= j < f implies head[j] != '?' by {
        assert(head[j] == file[j]);
    }
    lemma_find_char_is(head, '?', Some(f));
    assert(head.take(f) =~= file);
    assert(head.skip(f + 1) =~= query);
    lemma_fold_params_start_key(
        split_char(query, '&'),
        ParamAcc { key: Some(k), format: None, extra: Seq::empty() },
    );
}

/// Parsing the public string of a well-formed URI gives the URI back
/// (`SopsUri::parse` inverts `SopsUri::to_public_string`).
pub proof fn lemma_parse_public_string(u: UriModel)
    requires
        uri_well_formed(u),
    ensures
        spec_parse(spec_public_string(u)) == Ok::<UriModel, UriErrorModel>(u),
{
    let ps = public_params(u);
    let t = spec_public_string(u);
    let q = query_text(ps);
    assert(t.take(7) =~= sops_scheme());
    let rest = t.skip(7);
    assert(rest =~= u.file + q);
    let key_part = match u.key {
        Some(k) => seq![pair_text(key_name(), k)],
        None => Seq::<Seq<char>>::empty(),
    };
    let format_part = match u.format {
        Some(f) => seq![pair_text(short_format_name(), f)],
        None => Seq::<Seq<char>>::empty(),
    };
    let m = |p: (Seq<char>, Seq<char>)| pair_text(p.0, p.1);
    let extra_part = u.extra.map_values(m);
    assert(ps == key_part + format_part + extra_part);
    // every parameter lacks `&` and `#`
    assert forall|i: int| 0 <= i < ps.len() implies lacks(#[trigger] ps[i], '&') && lacks(ps[i], '#') by {
        let kl = key_part.len() as int;
        let fl = format_part.len() as int;
        if i < kl {
            let k = u.key->0;
            assert(ps[i] == pair_text(key_name(), k));
            assert forall|j: int| 0 <= j < ps[i].len() implies ps[i][j] != '&' && ps[i][j] != '#' by {
                if j >= 4 {
                    assert(ps[i][j] == k[j - 4]);
                }
            }
        } else if i < kl + fl {
            let f = u.format->0;
            assert(ps[i] == pair_text(short_format_name(), f));
            assert forall|j: int| 0 <= j < ps[i].len() implies ps[i][j] != '&' && ps[i][j] != '#' by {
                if j >= 2 {
                    assert(ps[i][j] == f[j - 2]);
                }
            }
        } else {
            let x = i - kl - fl;
            assert(ps[i] == extra_part[x]);
            let (k, v) = u.extra[x];
            assert(extra_part[x] == pair_text(k, v));
            assert forall|j: int| 0 <= j < ps[i].len() implies ps[i][j] != '&' && ps[i][j] != '#' by {
                if j < k.len() {
                    assert(ps[i][j] == k[j]);
                } else if j > k.len() {
                    assert(ps[i][j] == v[j - k.len() - 1]);
                }
            }
        }
    }
    // no `#` anywhere after the scheme
    if ps.len() > 0 {
        lemma_join_lacks(ps, '&', '#');
    }
    assert forall|j: int| 0 <= j < rest.len() implies rest[j] != '#' by {
        if j < u.file.len() {
            assert(rest[j] == u.file[j]);
        } else if j > u.file.len() {
            assert(rest[j] == join_sep(ps, '&')[j - u.file.len() - 1]);
        }
    }
    lemma_find_char_is(rest, '#', None);
    // the first `?` ends the file
    let acc0 = ParamAcc { key: None, format: None, extra: Seq::empty() };
    let query = if ps.len() == 0 {
        Seq::<char>::empty()
    } else {
        join_sep(ps, '&')
    };
    if ps.len() == 0 {
        assert(rest =~= u.file);
        lemma_find_char_is(rest, '?', None);
        assert(split_char(query, '&') =~= seq![Seq::<char>::empty()]);
        assert(seq![Seq::<char>::empty()].drop_last() =~= Seq::<Seq<char>>::empty());
        assert(u.key is None);
        assert(u.format is None);
        assert(u.extra.len() == 0);
        assert(u.extra =~= Seq::<(Seq<char>, Seq<char>)>::empty());
    } else {
        assert(rest[u.file.len() as int] == '?');
        lemma_find_char_is(rest, '?', Some(u.file.len() as int));
        assert(rest.take(u.file.len() as int) =~= u.file);
        assert(rest.skip(u.file.len() as int + 1) =~= query);
        lemma_split_join(ps, '&');
        lemma_fold_concat(key_part + format_part, extra_part, acc0);
        lemma_fold_concat(key_part, format_part, acc0);
        let acc1 = fold_params(key_part, acc0);
        match u.key {
            Some(k) => {
                lemma_split_pair_text(key_name(), k);
                lemma_fold_single(pair_text(key_name(), k), acc0);
                assert(acc1 == ParamAcc { key: Some(k), ..acc0 });
            },
            None => {
                assert(acc1 == acc0);
            },
        }
        let acc2 = fold_params(format_part, acc1);
        match u.format {
            Some(f) => {
                lemma_split_pair_text(short_format_name(), f);
                assert(short_format_name().len() != key_name().len());
                lemma_fold_single(pair_text(short_format_name(), f), acc1);
                assert(acc2 == ParamAcc { format: Some(f), ..acc1 });
            },
            None => {
                assert(acc2 == acc1);
            },
        }
        lemma_fold_extra(u.extra, acc2);
        assert(acc2.extra + u.extra =~= u.extra);
    }
}

} // verus!
