//! A text that does not show itself.
use vstd::prelude::*;

verus! {

/// A secret text. What is printed of it is a mask that does not depend on it.
#[derive(Clone)]
pub struct SecretString(String);

impl View for SecretString {
    type V = Seq<char>;

    closed spec fn view(&self) -> Seq<char> {
        self.0@
    }
}

impl SecretString {
    /// Keeps a text secret.
    pub fn new(value: String) -> (r: SecretString)
        ensures
            r@ == value@,
    {
        SecretString(value)
    }

    /// The text itself, for a database driver and nothing else.
    pub fn expose(&self) -> (r: &str)
        ensures
            r@ == self@,
    {
        self.0.as_str()
    }

    /// What is shown to people: the same for every secret.
    pub fn shown(&self) -> (r: &'static str)
        ensures
            r@ == "***"@,
    {
        "***"
    }

    /// What is shown to developers: the same for every secret.
    pub fn debugged(&self) -> (r: &'static str)
        ensures
            r@ == "SecretString(***)"@,
    {
        "SecretString(***)"
    }
}

} // verus!
