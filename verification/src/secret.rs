use vstd::prelude::*;
use vstd::string::StrSliceExecFns;

verus! {

/// The minimum number of characters a secret must have before the registry
/// will forward it to the wallet library.
pub const MIN_SECRET_LEN: usize = 10;

/// An opaque container for a user-supplied passphrase.
///
/// The registry never inspects the passphrase: it only measures its length
/// for the weakness check and forwards the container to the host, which hands
/// it to the wallet library. The type deliberately offers no equality
/// operator, so no code in this crate can compare two secrets.
pub struct Secret {
    value: String,
}

impl View for Secret {
    type V = Seq<char>;

    closed spec fn view(&self) -> Seq<char> {
        self.value@
    }
}

/// Whether a passphrase is too short to be accepted.
pub open spec fn secret_is_weak(s: Seq<char>) -> bool {
    s.len() < MIN_SECRET_LEN
}

impl Secret {
    /// Wrap a passphrase. The string is moved in, never copied out except to
    /// the host through `into_value`.
    pub fn new(value: String) -> (r: Secret)
        ensures
            r@ == value@,
    {
        Secret { value }
    }

    /// The passphrase length in characters.
    pub fn len(&self) -> (r: usize)
        ensures
            r == self@.len(),
    {
        self.value.as_str().unicode_len()
    }

    /// True when the passphrase fails the minimum-length rule.
    pub fn is_weak(&self) -> (r: bool)
        ensures
            r == secret_is_weak(self@),
    {
        self.len() < MIN_SECRET_LEN
    }

    /// Surrender the passphrase to the host, consuming the container; the
    /// host forwards it to the wallet library and drops it.
    pub fn into_value(self) -> (r: String)
        ensures
            r@ == self@,
    {
        self.value
    }
}

} // verus!
