//! An AEAD backend that does nothing: for an embedder that stores plaintext
//! only. No key of it can be constructed, so what is built on it cannot encrypt.

use vstd::prelude::*;
use vstd::string::*;

verus! {

/// Why an AEAD operation did not happen: the backend has no cipher.
#[derive(Debug, Clone, Copy, PartialEq, Eq, Structural)]
pub struct Unavailable;

impl Unavailable {
    /// The message of the error.
    pub fn message(&self) -> (message: &'static str)
        ensures
            message@ == "encryption is not compiled in (feature `encryption` is off)"@,
    {
        "encryption is not compiled in (feature `encryption` is off)"
    }
}

/// Stand-in for the AES-256-GCM key. It cannot be constructed; the methods
/// exist so that callers read the same with either backend.
pub struct AesGcmKey(());

impl AesGcmKey {
    /// Refuses every key.
    pub fn new(_key_bytes: &[u8; 32]) -> (key: Result<Self, Unavailable>)
        ensures
            key == Err::<Self, Unavailable>(Unavailable),
    {
        Err(Unavailable)
    }

    /// Length of the nonce that sealing and opening take.
    pub fn nonce_len(&self) -> (len: usize)
        ensures
            len == 12,
    {
        12
    }

    /// Seals nothing and leaves the buffers as they are.
    pub fn seal_detached(
        &self,
        _nonce: &[u8],
        _aad: &[u8],
        _plaintext: &[u8],
        _ciphertext_out: &mut [u8],
        _tag_out: &mut [u8],
    ) -> (sealed: Result<(), Unavailable>)
        ensures
            sealed == Err::<(), Unavailable>(Unavailable),
            final(_ciphertext_out)@ == old(_ciphertext_out)@,
            final(_tag_out)@ == old(_tag_out)@,
    {
        Err(Unavailable)
    }

    /// Opens nothing and leaves the buffer as it is.
    pub fn open_detached(
        &self,
        _nonce: &[u8],
        _aad: &[u8],
        _ciphertext: &[u8],
        _tag: &[u8],
        _plaintext_out: &mut [u8],
    ) -> (opened: Result<(), Unavailable>)
        ensures
            opened == Err::<(), Unavailable>(Unavailable),
            final(_plaintext_out)@ == old(_plaintext_out)@,
    {
        Err(Unavailable)
    }
}

} // verus!
