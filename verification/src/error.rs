//! The ways in which an operation on a vault can fail.

use vstd::prelude::*;

verus! {

/// Why an operation on a vault was refused.
#[derive(Debug, Clone, Copy, PartialEq, Eq, Structural)]
pub enum VaultError {
    /// The master password is empty.
    InvalidInput,
    /// No key can be derived: the salt is shorter than 8 bytes, or the salt
    /// or the password is 4 GiB long or longer.
    DerivationFailure,
    /// The collection is too large for the cipher to seal, or the salt or
    /// the envelope too large for the container to hold.
    SerializationFailure,
    /// The envelope is shorter than a nonce.
    MalformedBlob,
    /// The authentication tag does not match: the password is wrong or the
    /// envelope was altered. The two are deliberately not told apart.
    AuthenticationFailure,
    /// The envelope was authentic, but its plaintext is not the canonical
    /// form of any collection.
    CorruptPlaintext,
    /// A text field of the container is not valid base64.
    InvalidEncoding,
    /// The container carries a format version that this crate does not read.
    UnsupportedVersion,
}

} // verus!
