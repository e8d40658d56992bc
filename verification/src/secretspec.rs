//! The SecretSpec-facing provider: one instance per SOPS-encrypted file.
//!
//! A text lookup through it is a lookup of its file with the given key; a
//! byte lookup is a lookup of its file with the empty key, which `bin`
//! files ignore (the whole file is the secret).
use vstd::prelude::*;

verus! {

/// A provider anchored on a single SOPS-encrypted file. The file is
/// decrypted anew on each lookup; nothing is cached.
#[derive(Debug, Clone)]
pub struct SopsFileProvider {
    file: String,
}

impl View for SopsFileProvider {
    type V = Seq<char>;

    closed spec fn view(&self) -> Seq<char> {
        self.file@
    }
}

impl SopsFileProvider {
    /// A provider anchored on `file`.
    pub fn new(file: &str) -> (r: Self)
        ensures
            r@ == file@,
    {
        SopsFileProvider { file: file.to_string() }
    }

    /// The encrypted file this provider is anchored on.
    pub fn file(&self) -> (r: &str)
        ensures
            r@ == self@,
    {
        self.file.as_str()
    }
}

} // verus!
