//! Strings that are never shown.

use vstd::prelude::*;
use vstd::string::*;
use zeroize::Zeroize;

verus! {

/// `Zeroize::zeroize` of a string: overwrites its bytes and leaves it empty.
#[verifier::external_body]
pub(crate) fn wipe(text: &mut String)
    ensures
        final(text)@.len() == 0,
    opens_invariants none
    no_unwind
{
    text.zeroize();
}

/// `Zeroize::zeroize` of a byte vector: overwrites its bytes and leaves it
/// empty.
#[verifier::external_body]
pub(crate) fn wipe_bytes(bytes: &mut Vec<u8>)
    ensures
        final(bytes)@.len() == 0,
{
    bytes.zeroize();
}

/// A secret string that never exposes its value through formatting.
pub struct Secret(String);

impl View for Secret {
    type V = Seq<char>;

    closed spec fn view(&self) -> Seq<char> {
        self.0@
    }
}

impl Secret {
    /// Creates a secret from its in-memory value.
    pub fn new(value: String) -> (secret: Self)
        ensures
            secret@ == value@,
    {
        Self(value)
    }

    /// Borrows the secret for an operation that must use its value.
    pub fn as_str(&self) -> (value: &str)
        ensures
            value@ == self@,
    {
        self.0.as_str()
    }

    /// The text that stands for a secret wherever it is formatted.
    pub fn to_string(&self) -> (text: String)
        ensures
            text@ == "***"@,
    {
        "***".to_owned()
    }
}

impl Drop for Secret {
    fn drop(&mut self)
        opens_invariants none
        no_unwind
    {
        wipe(&mut self.0);
    }
}

} // verus!
