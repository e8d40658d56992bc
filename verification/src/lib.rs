//! SOPS provider for SecretSpec: provider URIs, credential chains, the
//! rules that pick a file format and extract a key from decrypted YAML,
//! JSON or dotenv text, and the decisions of the line-delimited JSON
//! provider protocol.
//!
//! Running `sops`, reading files and speaking over stdio happen outside
//! this library; it is handed what they produce.

pub mod credentials;
pub mod paths;
pub mod protocol;
pub mod provider;
pub mod search;
pub mod secretspec;
pub mod text;
pub mod uri;
pub mod yaml;

pub use credentials::{CredentialValue, CredentialsChain, CredentialsError};
pub use provider::{parse_dotenv_line, strip_inline_comment, DoctorReport, SopsProvider};
pub use secretspec::SopsFileProvider;
pub use uri::{FieldSpec, SopsUri, UriError};

use vstd::prelude::*;

use crate::paths::{extension_bounds, file_name, file_name_bounds, name_extension};
use crate::text::{chars_eq, chars_of, concat, str_eq};

verus! {

/// What a [`SopsError`] denotes.
pub enum SopsErrorModel {
    SopsBinaryMissing,
    KeyNotFound { file: Seq<char>, key: Seq<char> },
    UnsupportedFormat { format: Seq<char> },
    DecryptionFailed(Seq<char>),
    Io(Seq<char>),
}

/// Errors returned by the provider.
#[derive(Debug, Clone, PartialEq, Eq)]
pub enum SopsError {
    /// `sops` is not on `PATH`.
    SopsBinaryMissing,
    /// The key is not in the file.
    KeyNotFound { file: String, key: String },
    /// The format is not one of yaml, json, dotenv (and bin for bytes).
    UnsupportedFormat { format: String },
    /// `sops --decrypt` failed, or its output could not be parsed.
    DecryptionFailed(String),
    /// Running `sops` failed; the message of the I/O error.
    Io(String),
}

impl View for SopsError {
    type V = SopsErrorModel;

    open spec fn view(&self) -> SopsErrorModel {
        match self {
            SopsError::SopsBinaryMissing => SopsErrorModel::SopsBinaryMissing,
            SopsError::KeyNotFound { file, key } => SopsErrorModel::KeyNotFound {
                file: file@,
                key: key@,
            },
            SopsError::UnsupportedFormat { format } => SopsErrorModel::UnsupportedFormat {
                format: format@,
            },
            SopsError::DecryptionFailed(m) => SopsErrorModel::DecryptionFailed(m@),
            SopsError::Io(m) => SopsErrorModel::Io(m@),
        }
    }
}

/// A `Result` seen through the views of its two sides.
pub open spec fn text_result(r: Result<String, SopsError>) -> Result<Seq<char>, SopsErrorModel> {
    match r {
        Ok(s) => Ok(s@),
        Err(e) => Err(e@),
    }
}

/// What `SopsError::message` returns.
pub open spec fn spec_sops_error_message(e: SopsErrorModel) -> Seq<char> {
    match e {
        SopsErrorModel::SopsBinaryMissing => "`sops` binary not found in PATH; install with `nix profile install nixpkgs#sops`"@,
        SopsErrorModel::KeyNotFound { file, key } => "key `"@ + key + "` not found in `"@ + file + "`"@,
        SopsErrorModel::UnsupportedFormat { format } => "format `"@ + format
            + "` not supported by the crate (closed set: yaml, json, dotenv, bin)"@,
        SopsErrorModel::DecryptionFailed(m) => "sops decryption failed: "@ + m,
        SopsErrorModel::Io(m) => "I/O error: "@ + m,
    }
}

impl SopsError {
    /// Human-readable message (the error's display form).
    pub fn message(&self) -> (r: String)
        ensures
            r@ == spec_sops_error_message(self@),
    {
        match self {
            SopsError::SopsBinaryMissing => "`sops` binary not found in PATH; install with `nix profile install nixpkgs#sops`".to_string(),
            SopsError::KeyNotFound { file, key } => {
                let mut out = concat("key `", key.as_str());
                out = concat(out.as_str(), "` not found in `");
                out = concat(out.as_str(), file.as_str());
                concat(out.as_str(), "`")
            },
            SopsError::UnsupportedFormat { format } => {
                let out = concat("format `", format.as_str());
                concat(out.as_str(), "` not supported by the crate (closed set: yaml, json, dotenv, bin)")
            },
            SopsError::DecryptionFailed(m) => concat("sops decryption failed: ", m.as_str()),
            SopsError::Io(m) => concat("I/O error: ", m.as_str()),
        }
    }
}

/// What `str::to_lowercase` returns: the Unicode lowercase mapping of the
/// string.
pub uninterp spec fn str_lowercase(s: Seq<char>) -> Seq<char>;

/// Is every character of `s` ASCII?
pub open spec fn all_ascii(s: Seq<char>) -> bool {
    forall|i: int| 0 <= i < s.len() ==> (#[trigger] s[i] as int) < 128
}

/// The Unicode lowercase mapping of an ASCII character: `A`–`Z` become
/// `a`–`z`, every other ASCII character stays.
pub open spec fn ascii_lower(c: char) -> char {
    if 65 <= (c as int) <= 90 {
        ((c as int) + 32) as char
    } else {
        c
    }
}

/// The lowercase form of `s` as `str::to_lowercase` gives it: spelled out
/// for ASCII text, named otherwise.
pub open spec fn lowercase(s: Seq<char>) -> Seq<char> {
    if all_ascii(s) {
        s.map_values(|c: char| ascii_lower(c))
    } else {
        str_lowercase(s)
    }
}

/// `str::to_lowercase`. Its result is named `str_lowercase(s@)`; the
/// Unicode case tables are not restated here, except for ASCII text, whose
/// lowercase mapping changes only the letters `A`–`Z`, one for one.
pub assume_specification[ str::to_lowercase ](s: &str) -> (r: String)
    ensures
        r@ == str_lowercase(s@),
        all_ascii(s@) ==> r@ == s@.map_values(|c: char| ascii_lower(c)),
;

/// The format name that a lowercase extension or hint stands for: `yml`
/// means `yaml`, `env` means `dotenv`, and any other name stands for itself.
pub open spec fn canonical_format(lower: Seq<char>) -> Seq<char> {
    if lower == "yaml"@ || lower == "yml"@ {
        "yaml"@
    } else if lower == "json"@ {
        "json"@
    } else if lower == "env"@ || lower == "dotenv"@ {
        "dotenv"@
    } else {
        lower
    }
}

/// Normalizing a format name twice is normalizing it once: every name that
/// `infer_format_from_path` or `normalize_format_hint` produces is left as
/// it is by normalization.
pub proof fn lemma_canonical_format_idempotent(s: Seq<char>)
    ensures
        canonical_format(canonical_format(s)) == canonical_format(s),
{
    reveal_strlit("yaml");
    reveal_strlit("yml");
    reveal_strlit("json");
    reveal_strlit("env");
    reveal_strlit("dotenv");
    assert("yaml"@.len() == 4 && "yml"@.len() == 3 && "json"@.len() == 4);
    assert("env"@.len() == 3 && "dotenv"@.len() == 6);
}

/// The format name that an already lowercase extension or hint stands for.
pub fn canonical_format_name(lower: &str) -> (r: String)
    ensures
        r@ == canonical_format(lower@),
{
    if str_eq(lower, "yaml") || str_eq(lower, "yml") {
        "yaml".to_string()
    } else if str_eq(lower, "json") {
        "json".to_string()
    } else if str_eq(lower, "env") || str_eq(lower, "dotenv") {
        "dotenv".to_string()
    } else {
        lower.to_string()
    }
}

/// Is `name` a dotenv dotfile (`.env`, `.env.local`, `.env.production`, …)?
pub open spec fn is_dotenv_name(name: Seq<char>) -> bool {
    name == ".env"@ || (name.len() >= 5 && name.take(5) == ".env."@)
}

/// What `infer_format_from_path` returns: `dotenv` for dotenv dotfiles,
/// otherwise the canonical name of the lowercased extension, or nothing
/// when the path has no extension.
pub open spec fn spec_infer_format(file: Seq<char>) -> Option<Seq<char>> {
    match file_name(file) {
        Some(name) => if is_dotenv_name(name) {
            Some("dotenv"@)
        } else {
            match name_extension(name) {
                Some(ext) => Some(canonical_format(lowercase(ext))),
                None => None,
            }
        },
        None => None,
    }
}

/// Format inferred from a file path: `.yaml`/`.yml` give `yaml`, `.json`
/// gives `json`, `.env` and the dotfiles `.env`, `.env.<suffix>` give
/// `dotenv`, any other extension is returned lowercase, and a path
/// without an extension gives `None`.
pub fn infer_format_from_path(file: &str) -> (r: Option<String>)
    ensures
        r.deep_view() == spec_infer_format(file@),
{
    let v = chars_of(file);
    match file_name_bounds(&v) {
        None => None,
        Some((a, b)) => {
            let env = vec!['.', 'e', 'n', 'v'];
            let env_dot = vec!['.', 'e', 'n', 'v', '.'];
            proof {
                reveal_strlit(".env");
                reveal_strlit(".env.");
                assert(env@ =~= ".env"@);
                assert(env_dot@ =~= ".env."@);
            }
            let is_env = chars_eq(&v, a, b, &env);
            let starts_env = b - a >= 5 && chars_eq(&v, a, a + 5, &env_dot);
            proof {
                let name = v@.subrange(a as int, b as int);
                if b - a >= 5 {
                    assert(name.take(5) =~= v@.subrange(a as int, a + 5));
                }
            }
            if is_env || starts_env {
                return Some("dotenv".to_string());
            }
            match extension_bounds(&v, a, b) {
                None => None,
                Some((x, y)) => {
                    let ext = file.substring_char(x, y);
                    let lower = ext.to_lowercase();
                    Some(canonical_format_name(lower.as_str()))
                },
            }
        },
    }
}

} // verus!
