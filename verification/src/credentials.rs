//! Provider credentials: an ordered chain of [`FieldSpec`]s resolved through
//! a caller-supplied resolver, and the resolved values, whose rendered forms
//! mask sensitive plaintext.
use vstd::prelude::*;

use crate::text::{concat, debug_repr, debug_str};
use crate::uri::{FieldModel, FieldSpec};

verus! {

/// What a [`CredentialValue`] denotes.
pub struct CredentialModel {
    pub name: Seq<char>,
    pub value: Seq<char>,
    pub sensitive: bool,
    pub source_uri: Seq<char>,
}

/// One resolved credential entry.
#[derive(Clone)]
pub struct CredentialValue {
    pub name: String,
    pub value: String,
    pub sensitive: bool,
    pub source_uri: String,
}

impl View for CredentialValue {
    type V = CredentialModel;

    open spec fn view(&self) -> CredentialModel {
        CredentialModel {
            name: self.name@,
            value: self.value@,
            sensitive: self.sensitive,
            source_uri: self.source_uri@,
        }
    }
}

/// `true` / `false`, as `Debug` renders a `bool`.
pub open spec fn bool_text(b: bool) -> Seq<char> {
    if b {
        "true"@
    } else {
        "false"@
    }
}

/// What `CredentialValue::debug_string` returns: the `Debug` form of the
/// struct, with the value replaced by `***` when the entry is sensitive.
pub open spec fn spec_credential_debug(c: CredentialModel) -> Seq<char> {
    "CredentialValue { name: "@ + debug_repr(c.name) + ", value: "@ + debug_repr(
        if c.sensitive {
            "***"@
        } else {
            c.value
        },
    ) + ", sensitive: "@ + bool_text(c.sensitive) + ", source_uri: "@ + debug_repr(c.source_uri)
        + " }"@
}

/// What `CredentialValue::display_string` returns: `name=***`, always.
pub open spec fn spec_credential_display(c: CredentialModel) -> Seq<char> {
    c.name + "=***"@
}

fn bool_string(b: bool) -> (r: String)
    ensures
        r@ == bool_text(b),
{
    if b {
        "true".to_string()
    } else {
        "false".to_string()
    }
}

impl CredentialValue {
    /// The plaintext value. Not for logs.
    pub fn value_plaintext(&self) -> (r: &str)
        ensures
            r@ == self.value@,
    {
        self.value.as_str()
    }

    /// The debug form: like the derived `Debug`, but a sensitive value is
    /// shown as `***`.
    pub fn debug_string(&self) -> (r: String)
        ensures
            r@ == spec_credential_debug(self@),
    {
        let shown = if self.sensitive {
            "***".to_string()
        } else {
            self.value.clone()
        };
        let mut out = concat("CredentialValue { name: ", debug_str(self.name.as_str()).as_str());
        out = concat(out.as_str(), ", value: ");
        out = concat(out.as_str(), debug_str(shown.as_str()).as_str());
        out = concat(out.as_str(), ", sensitive: ");
        out = concat(out.as_str(), bool_string(self.sensitive).as_str());
        out = concat(out.as_str(), ", source_uri: ");
        out = concat(out.as_str(), debug_str(self.source_uri.as_str()).as_str());
        concat(out.as_str(), " }")
    }

    /// The display form for log lines: `name=***`, whether or not the entry
    /// is sensitive.
    pub fn display_string(&self) -> (r: String)
        ensures
            r@ == spec_credential_display(self@),
    {
        concat(self.name.as_str(), "=***")
    }
}

/// What a [`CredentialsError`] denotes.
pub enum CredentialsErrorModel {
    ResolveFailed { name: Seq<char>, source_uri: Seq<char>, cause: Seq<char> },
    EmptyChain,
}

/// Errors raised while resolving credentials.
#[derive(Debug, Clone)]
pub enum CredentialsError {
    /// A field URI could not be resolved.
    ResolveFailed { name: String, source_uri: String, cause: String },
    /// The chain holds no field.
    EmptyChain,
}

impl View for CredentialsError {
    type V = CredentialsErrorModel;

    open spec fn view(&self) -> CredentialsErrorModel {
        match self {
            CredentialsError::ResolveFailed { name, source_uri, cause } => {
                CredentialsErrorModel::ResolveFailed {
                    name: name@,
                    source_uri: source_uri@,
                    cause: cause@,
                }
            },
            CredentialsError::EmptyChain => CredentialsErrorModel::EmptyChain,
        }
    }
}

/// What `CredentialsError::message` returns.
pub open spec fn spec_credentials_error_message(e: CredentialsErrorModel) -> Seq<char> {
    match e {
        CredentialsErrorModel::ResolveFailed { name, source_uri, cause } => "credential `"@ + name
            + "` (uri=`"@ + source_uri + "`) failed: "@ + cause,
        CredentialsErrorModel::EmptyChain => "credentials chain is empty"@,
    }
}

impl CredentialsError {
    /// Human-readable message (the error's display form).
    pub fn message(&self) -> (r: String)
        ensures
            r@ == spec_credentials_error_message(self@),
    {
        match self {
            CredentialsError::ResolveFailed { name, source_uri, cause } => {
                let mut out = concat("credential `", name.as_str());
                out = concat(out.as_str(), "` (uri=`");
                out = concat(out.as_str(), source_uri.as_str());
                out = concat(out.as_str(), "`) failed: ");
                concat(out.as_str(), cause.as_str())
            },
            CredentialsError::EmptyChain => "credentials chain is empty".to_string(),
        }
    }
}

/// An ordered list of credential fields.
#[derive(Clone, Default)]
pub struct CredentialsChain {
    fields: Vec<FieldSpec>,
}

impl View for CredentialsChain {
    type V = Seq<FieldModel>;

    closed spec fn view(&self) -> Seq<FieldModel> {
        self.fields@.map_values(|f: FieldSpec| f@)
    }
}

/// The resolver accepted `uri` and answered `out`.
pub open spec fn answered<F: Fn(&str) -> Result<String, String>>(
    resolver: F,
    uri: Seq<char>,
    out: Result<String, String>,
) -> bool {
    exists|s: &str| s@ == uri && resolver.ensures((s,), out)
}

/// The resolver accepted `uri` and answered with some value.
pub open spec fn resolves_ok<F: Fn(&str) -> Result<String, String>>(resolver: F, uri: Seq<char>) -> bool {
    exists|v: String| answered(resolver, uri, Ok(v))
}

impl CredentialsChain {
    /// An empty chain.
    pub fn new() -> (r: Self)
        ensures
            r@ == Seq::<FieldModel>::empty(),
    {
        let r = CredentialsChain { fields: Vec::new() };
        assert(r@ =~= Seq::<FieldModel>::empty());
        r
    }

    /// The chain with `field` appended.
    pub fn with(self, field: FieldSpec) -> (r: Self)
        ensures
            r@ == self@.push(field@),
    {
        let mut fields = self.fields;
        let ghost before = fields@;
        fields.push(field);
        let r = CredentialsChain { fields };
        assert(r@ =~= before.map_values(|f: FieldSpec| f@).push(field@));
        r
    }

    /// Number of fields.
    pub fn len(&self) -> (r: usize)
        ensures
            r == self@.len(),
    {
        self.fields.len()
    }

    /// Does the chain hold no field?
    pub fn is_empty(&self) -> (r: bool)
        ensures
            r == (self@.len() == 0),
    {
        self.fields.len() == 0
    }

    /// The fields, in order.
    pub fn fields(&self) -> (r: &[FieldSpec])
        ensures
            r@.map_values(|f: FieldSpec| f@) == self@,
    {
        self.fields.as_slice()
    }

    /// Resolves every field through `resolver`, in order.
    ///
    /// An empty chain is an error. Every field is handed to the resolver;
    /// if all of them resolve, the values come back in the order of the
    /// fields, each with its field's name, sensitivity and URI; otherwise
    /// the first failure is reported.
    pub fn resolve_all<F: Fn(&str) -> Result<String, String>>(&self, resolver: &F) -> (r: Result<
        Vec<CredentialValue>,
        CredentialsError,
    >)
        requires
            forall|s: &str| resolver.requires((s,)),
        ensures
            (r matches Err(CredentialsError::EmptyChain)) <==> self@.len() == 0,
            r matches Ok(vals) ==> {
                &&& self@.len() > 0
                &&& vals@.len() == self@.len()
                &&& forall|i: int|
                    0 <= i < self@.len() ==> {
                        &&& (#[trigger] vals@[i])@.name == self@[i].name
                        &&& vals@[i]@.sensitive == self@[i].sensitive
                        &&& vals@[i]@.source_uri == self@[i].uri
                        &&& answered(*resolver, self@[i].uri, Ok(vals@[i].value))
                    }
            },
            r matches Err(CredentialsError::ResolveFailed { name, source_uri, cause }) ==> exists|
                i: int,
            |
                0 <= i < self@.len() && name@ == (#[trigger] self@[i]).name && source_uri@
                    == self@[i].uri && answered(*resolver, self@[i].uri, Err(cause)) && forall|
                    j: int,
                |
                    0 <= j < i ==> resolves_ok(*resolver, (#[trigger] self@[j]).uri),
    {
        if self.fields.len() == 0 {
            return Err(CredentialsError::EmptyChain);
        }
        let mut out: Vec<CredentialValue> = Vec::new();
        let mut first_err: Option<CredentialsError> = None;
        let mut i: usize = 0;
        let ghost mut err_at: int = 0;
        while i < self.fields.len()
            invariant
                i <= self.fields.len(),
                self@.len() == self.fields.len(),
                forall|s: &str| resolver.requires((s,)),
                first_err is None ==> out@.len() == i && forall|k: int|
                    0 <= k < i ==> {
                        &&& (#[trigger] out@[k])@.name == self@[k].name
                        &&& out@[k]@.sensitive == self@[k].sensitive
                        &&& out@[k]@.source_uri == self@[k].uri
                        &&& answered(*resolver, self@[k].uri, Ok(out@[k].value))
                    },
                first_err matches Some(CredentialsError::ResolveFailed { name, source_uri, cause })
                    ==> {
                    &&& 0 <= err_at < i
                    &&& name@ == self@[err_at].name
                    &&& source_uri@ == self@[err_at].uri
                    &&& answered(*resolver, self@[err_at].uri, Err(cause))
                    &&& forall|j: int|
                        0 <= j < err_at ==> resolves_ok(*resolver, (#[trigger] self@[j]).uri)
                },
                !(first_err matches Some(CredentialsError::EmptyChain)),
            decreases self.fields.len() - i,
        {
            let f = &self.fields[i];
            assert(self@[i as int] == f@);
            let uri = f.uri.as_str();
            let res = resolver(uri);
            assert(answered(*resolver, self@[i as int].uri, res));
            match res {
                Ok(value) => {
                    if first_err.is_none() {
                        out.push(
                            CredentialValue {
                                name: f.name.clone(),
                                value,
                                sensitive: f.sensitive,
                                source_uri: f.uri.clone(),
                            },
                        );
                    }
                },
                Err(cause) => {
                    if first_err.is_none() {
                        assert forall|j: int| 0 <= j < i implies resolves_ok(*resolver, (#[trigger] self@[j]).uri) by {
                            assert(answered(*resolver, self@[j].uri, Ok(out@[j].value)));
                        }
                        let ghost c = cause;
                        let name = f.name.clone();
                        let source_uri = f.uri.clone();
                        assert(answered(*resolver, self@[i as int].uri, Err(c)));
                        first_err = Some(CredentialsError::ResolveFailed { name, source_uri, cause });
                        proof {
                            err_at = i as int;
                        }
                        assert(name@ == self@[i as int].name && source_uri@ == self@[i as int].uri);
                    }
                },
            }
            i = i + 1;
        }
        match first_err {
            Some(e) => {
                if let CredentialsError::ResolveFailed { name, source_uri, cause } = &e {
                    assert(0 <= err_at < self@.len() && name@ == self@[err_at].name);
                }
                Err(e)
            },
            None => Ok(out),
        }
    }
}

} // verus!
