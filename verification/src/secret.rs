//! Text that is wiped from memory when it is dropped.
use vstd::prelude::*;

verus! {

/// The characters of a secret, kept in a `zeroize::Zeroizing`, which overwrites
/// them when it is dropped.
#[verifier::external_body]
pub struct Secret {
    held: zeroize::Zeroizing<String>,
}

/// The characters that `secret` keeps.
pub uninterp spec fn secret_text(secret: Secret) -> Seq<char>;

/// `zeroize::Zeroizing::new`: takes the characters over unchanged.
#[verifier::external_body]
fn guard(text: String) -> (r: Secret)
    ensures
        secret_text(r) == text@,
{
    Secret { held: zeroize::Zeroizing::new(text) }
}

/// `zeroize::Zeroizing` through `Deref`: lends the characters unchanged.
#[verifier::external_body]
fn expose(secret: &Secret) -> (r: &str)
    ensures
        r@ == secret_text(*secret),
{
    secret.held.as_str()
}

impl Secret {
    /// A secret that keeps `text`.
    pub fn new(text: String) -> (r: Self)
        ensures
            secret_text(r) == text@,
    {
        guard(text)
    }

    /// The characters of the secret.
    pub fn text(&self) -> (r: &str)
        ensures
            r@ == secret_text(*self),
    {
        expose(self)
    }
}

} // verus!
