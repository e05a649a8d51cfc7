//! Session tokens identifying a seated player across reconnects.

use vstd::prelude::*;

verus! {

/// Opaque session token identifying a seated player inside a room.
#[derive(Debug, Clone, PartialEq, Eq, Hash)]
pub struct SessionToken(String);

impl View for SessionToken {
    type V = Seq<char>;

    closed spec fn view(&self) -> Seq<char> {
        self.0@
    }
}

/// `uuid::Uuid::new_v4().to_string()`: a fresh random UUID in hyphenated
/// lowercase form. Claimed: the text is 36 characters long, as the
/// hyphenated format is. Its characters are random and left open.
#[verifier::external_body]
fn random_uuid_text() -> (r: String)
    ensures
        r@.len() == 36,
{
    uuid::Uuid::new_v4().to_string()
}

impl SessionToken {
    /// A fresh random token.
    pub fn new() -> (r: Self)
        ensures
            r@.len() == 36,
    {
        SessionToken(random_uuid_text())
    }

    pub fn as_str(&self) -> (r: &str)
        ensures
            r@ == self@,
    {
        self.0.as_str()
    }
}

impl Default for SessionToken {
    /// A fresh random token.
    fn default() -> (r: Self)
        ensures
            r@.len() == 36,
    {
        SessionToken::new()
    }
}

impl From<String> for SessionToken {
    fn from(s: String) -> (r: Self) {
        SessionToken(s)
    }
}

impl vstd::std_specs::convert::FromSpecImpl<String> for SessionToken {
    open spec fn obeys_from_spec() -> bool {
        true
    }

    closed spec fn from_spec(v: String) -> Self {
        SessionToken(v)
    }
}

} // verus!
