//! Where keys come from: one key per namespace and purpose.

use super::CryptoError;
use vstd::prelude::*;

verus! {

/// Derives and erases the keys of a namespace.
pub trait KeyManagementService {
    /// The key material of `subject` in `namespace`.
    fn derive_subject_key(&self, namespace: &str, subject: &str) -> Result<Vec<u8>, CryptoError>;

    /// Makes the key of `subject` in `namespace` impossible to derive again.
    fn erase_subject_key(&self, namespace: &str, subject: &str) -> Result<(), CryptoError>;
}

} // verus!
