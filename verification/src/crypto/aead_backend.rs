//! The AEAD behind blob and table encryption: AES-256-GCM with a 12-byte
//! nonce and a detached 16-byte tag.

use aes_gcm::{AeadInPlace, Aes256Gcm, KeyInit};
use vstd::prelude::*;

verus! {

/// Longest plaintext that one nonce can seal: the counter holds 2^32 - 2 blocks.
pub const MAX_SEALED_LEN: u64 = 68_719_476_704;

/// Longest associated data that one sealing can bind.
pub const MAX_AAD_LEN: u64 = 68_719_476_736;

/// Length of a nonce in bytes.
pub const NONCE_LEN: usize = 12;

/// Length of an authentication tag in bytes.
pub const TAG_LEN: usize = 16;

/// What sealing `plaintext` yields under the key, the nonce and the
/// associated data: the ciphertext and its tag.
pub uninterp spec fn aes256gcm_seal(
    key: Seq<u8>,
    nonce: Seq<u8>,
    aad: Seq<u8>,
    plaintext: Seq<u8>,
) -> (Seq<u8>, Seq<u8>);

/// What opening `ciphertext` and `tag` yields: the plaintext, or nothing
/// where the tag does not authenticate.
pub uninterp spec fn aes256gcm_open(
    key: Seq<u8>,
    nonce: Seq<u8>,
    aad: Seq<u8>,
    ciphertext: Seq<u8>,
    tag: Seq<u8>,
) -> Option<Seq<u8>>;

/// The tag is the only one of its length that authenticates the ciphertext under
/// the key, the nonce and the associated data.
pub open spec fn only_tag(
    key: Seq<u8>,
    nonce: Seq<u8>,
    aad: Seq<u8>,
    ciphertext: Seq<u8>,
    tag: Seq<u8>,
) -> bool {
    forall|t: Seq<u8>|
        t.len() == TAG_LEN && t != tag ==> #[trigger] aes256gcm_open(
            key,
            nonce,
            aad,
            ciphertext,
            t,
        ) is None
}

/// Calls `Aes256Gcm::encrypt_in_place_detached` on a copy of the plaintext.
///
/// Trusted: the call succeeds on every input within the limits, is a function
/// of its arguments, keeps the length, and opening what it returned under the
/// same key, nonce and associated data gives the plaintext back, with the
/// returned tag and no other.
#[verifier::external_body]
fn gcm_encrypt(key: &[u8; 32], nonce: &[u8; 12], aad: &[u8], plaintext: &[u8]) -> (sealed: Option<
    (Vec<u8>, [u8; 16]),
>)
    requires
        plaintext@.len() <= MAX_SEALED_LEN,
    ensures
        sealed is Some <==> aad@.len() <= MAX_AAD_LEN,
        sealed matches Some((ciphertext, tag)) ==> {
            &&& (ciphertext@, tag@) == aes256gcm_seal(key@, nonce@, aad@, plaintext@)
            &&& ciphertext@.len() == plaintext@.len()
            &&& aes256gcm_open(key@, nonce@, aad@, ciphertext@, tag@) == Some(plaintext@)
            &&& only_tag(key@, nonce@, aad@, ciphertext@, tag@)
        },
{
    let mut buffer = plaintext.to_vec();
    let cipher = Aes256Gcm::new(key.into());
    match cipher.encrypt_in_place_detached(nonce.into(), aad, &mut buffer) {
        Ok(tag) => Some((buffer, tag.into())),
        Err(_) => None,
    }
}

/// Calls `Aes256Gcm::decrypt_in_place_detached` on a copy of the ciphertext.
///
/// Trusted: the result is a function of the arguments and keeps the length,
/// what opens is exactly what sealing the returned plaintext yields, and it opens
/// with no other tag: the tag is held against the one that the ciphertext has.
#[verifier::external_body]
fn gcm_decrypt(
    key: &[u8; 32],
    nonce: &[u8; 12],
    aad: &[u8],
    ciphertext: &[u8],
    tag: &[u8; 16],
) -> (opened: Option<Vec<u8>>)
    requires
        ciphertext@.len() <= MAX_SEALED_LEN,
    ensures
        aad@.len() > MAX_AAD_LEN ==> opened is None,
        aad@.len() <= MAX_AAD_LEN ==> (opened matches Some(p) ==> aes256gcm_open(
            key@,
            nonce@,
            aad@,
            ciphertext@,
            tag@,
        ) == Some(p@)),
        aad@.len() <= MAX_AAD_LEN ==> (opened is None ==> aes256gcm_open(
            key@,
            nonce@,
            aad@,
            ciphertext@,
            tag@,
        ) is None),
        opened matches Some(p) ==> {
            &&& p@.len() == ciphertext@.len()
            &&& aes256gcm_seal(key@, nonce@, aad@, p@) == (ciphertext@, tag@)
            &&& only_tag(key@, nonce@, aad@, ciphertext@, tag@)
        },
{
    let mut buffer = ciphertext.to_vec();
    let cipher = Aes256Gcm::new(key.into());
    match cipher.decrypt_in_place_detached(nonce.into(), aad, &mut buffer, tag.into()) {
        Ok(()) => Some(buffer),
        Err(_) => None,
    }
}

/// Why an AEAD operation did not happen.
#[derive(Debug, Clone, Copy, PartialEq, Eq, Structural)]
pub enum AeadError {
    /// A nonce, tag or output buffer has the wrong length.
    InvalidLength,
    /// The plaintext, ciphertext or associated data is longer than AES-GCM takes.
    TooLong,
    /// The tag does not authenticate the ciphertext.
    AuthFailed,
}

impl AeadError {
    /// The message of the error.
    pub open spec fn text(self) -> Seq<char> {
        match self {
            AeadError::InvalidLength => "invalid length"@,
            AeadError::TooLong => "input too long"@,
            AeadError::AuthFailed => "authentication failed"@,
        }
    }

    /// The message of the error.
    pub fn message(&self) -> (message: &'static str)
        ensures
            message@ == self.text(),
    {
        match self {
            AeadError::InvalidLength => "invalid length",
            AeadError::TooLong => "input too long",
            AeadError::AuthFailed => "authentication failed",
        }
    }
}

/// The outcome of sealing, as a function of everything that goes in.
pub open spec fn seal_outcome(
    key: Seq<u8>,
    nonce: Seq<u8>,
    aad: Seq<u8>,
    plaintext: Seq<u8>,
) -> Result<(Seq<u8>, Seq<u8>), AeadError> {
    if nonce.len() != NONCE_LEN {
        Err(AeadError::InvalidLength)
    } else if plaintext.len() > MAX_SEALED_LEN || aad.len() > MAX_AAD_LEN {
        Err(AeadError::TooLong)
    } else {
        Ok(aes256gcm_seal(key, nonce, aad, plaintext))
    }
}

/// The outcome of opening, as a function of everything that goes in.
pub open spec fn open_outcome(
    key: Seq<u8>,
    nonce: Seq<u8>,
    aad: Seq<u8>,
    ciphertext: Seq<u8>,
    tag: Seq<u8>,
) -> Result<Seq<u8>, AeadError> {
    if nonce.len() != NONCE_LEN || tag.len() != TAG_LEN {
        Err(AeadError::InvalidLength)
    } else if ciphertext.len() > MAX_SEALED_LEN || aad.len() > MAX_AAD_LEN {
        Err(AeadError::TooLong)
    } else {
        match aes256gcm_open(key, nonce, aad, ciphertext, tag) {
            Some(plaintext) => Ok(plaintext),
            None => Err(AeadError::AuthFailed),
        }
    }
}

/// An AES-256-GCM key.
pub struct AesGcmKey {
    bytes: [u8; 32],
}

impl View for AesGcmKey {
    type V = Seq<u8>;

    closed spec fn view(&self) -> Seq<u8> {
        self.bytes@
    }
}

/// The first twelve bytes of `nonce` as an array.
fn nonce_array(nonce: &[u8]) -> (array: [u8; 12])
    requires
        nonce@.len() == NONCE_LEN,
    ensures
        array@ == nonce@,
{
    let array = [
        nonce[0], nonce[1], nonce[2], nonce[3], nonce[4], nonce[5],
        nonce[6], nonce[7], nonce[8], nonce[9], nonce[10], nonce[11],
    ];
    assert(array@ =~= nonce@);
    array
}

/// The sixteen bytes of `tag` as an array.
fn tag_array(tag: &[u8]) -> (array: [u8; 16])
    requires
        tag@.len() == TAG_LEN,
    ensures
        array@ == tag@,
{
    let array = [
        tag[0], tag[1], tag[2], tag[3], tag[4], tag[5], tag[6], tag[7],
        tag[8], tag[9], tag[10], tag[11], tag[12], tag[13], tag[14], tag[15],
    ];
    assert(array@ =~= tag@);
    array
}

/// The 32 bytes of a key as an array, or nothing where there are not 32.
pub(crate) fn key_array(bytes: &[u8]) -> (array: Option<[u8; 32]>)
    ensures
        match array {
            Some(a) => a@ == bytes@,
            None => bytes@.len() != 32,
        },
{
    if bytes.len() != 32 {
        return None;
    }
    let mut array: [u8; 32] = [0u8; 32];
    let mut i: usize = 0;
    while i < 32
        invariant
            i <= 32,
            bytes@.len() == 32,
            forall|j: int| 0 <= j < i ==> array@[j] == bytes@[j],
        decreases 32 - i,
    {
        array[i] = bytes[i];
        i = i + 1;
    }
    assert(array@ =~= bytes@);
    Some(array)
}

/// Overwrites `out` with `bytes`.
fn overwrite(out: &mut [u8], bytes: &[u8])
    requires
        old(out)@.len() == bytes@.len(),
    ensures
        final(out)@ == bytes@,
{
    let n: usize = bytes.len();
    let mut i: usize = 0;
    while i < n
        invariant
            n == bytes@.len(),
            i <= n,
            out@.len() == n,
            forall|j: int| 0 <= j < i ==> out@[j] == bytes@[j],
        decreases n - i,
    {
        out[i] = bytes[i];
        i = i + 1;
    }
    assert(out@ =~= bytes@);
}

impl AesGcmKey {
    /// Takes the 32 bytes of the key.
    pub fn new(key_bytes: &[u8; 32]) -> (key: Result<Self, AeadError>)
        ensures
            key matches Ok(k) && k@ == key_bytes@,
    {
        Ok(AesGcmKey { bytes: *key_bytes })
    }

    /// Length of the nonce that sealing and opening take.
    pub fn nonce_len(&self) -> (len: usize)
        ensures
            len == NONCE_LEN,
    {
        NONCE_LEN
    }

    /// Seals `plaintext`, writing the ciphertext and the tag to the two
    /// buffers. On an error the buffers keep what they held.
    pub fn seal_detached(
        &self,
        nonce: &[u8],
        aad: &[u8],
        plaintext: &[u8],
        ciphertext_out: &mut [u8],
        tag_out: &mut [u8],
    ) -> (sealed: Result<(), AeadError>)
        ensures
            sealed == (if old(ciphertext_out)@.len() != plaintext@.len() || old(tag_out)@.len()
                != TAG_LEN {
                Err::<(), AeadError>(AeadError::InvalidLength)
            } else {
                match seal_outcome(self@, nonce@, aad@, plaintext@) {
                    Ok(_) => Ok(()),
                    Err(e) => Err(e),
                }
            }),
            sealed is Ok <==> {
                &&& old(ciphertext_out)@.len() == plaintext@.len()
                &&& old(tag_out)@.len() == 16
                &&& nonce@.len() == 12
                &&& plaintext@.len() <= 68_719_476_704
                &&& aad@.len() <= 68_719_476_736
            },
            sealed is Ok ==> {
                &&& (final(ciphertext_out)@, final(tag_out)@) == aes256gcm_seal(
                    self@,
                    nonce@,
                    aad@,
                    plaintext@,
                )
                &&& final(ciphertext_out)@.len() == plaintext@.len()
                &&& final(tag_out)@.len() == TAG_LEN
                &&& open_outcome(
                    self@,
                    nonce@,
                    aad@,
                    final(ciphertext_out)@,
                    final(tag_out)@,
                ) == Ok::<Seq<u8>, AeadError>(plaintext@)
                &&& only_tag(
                    self@,
                    nonce@,
                    aad@,
                    final(ciphertext_out)@,
                    final(tag_out)@,
                )
            },
            sealed is Err ==> final(ciphertext_out)@ == old(ciphertext_out)@ && final(tag_out)@
                == old(tag_out)@,
    {
        if ciphertext_out.len() != plaintext.len() || tag_out.len() != TAG_LEN {
            return Err(AeadError::InvalidLength);
        }
        if nonce.len() != NONCE_LEN {
            return Err(AeadError::InvalidLength);
        }
        if plaintext.len() as u64 > MAX_SEALED_LEN {
            return Err(AeadError::TooLong);
        }
        let nonce_bytes = nonce_array(nonce);
        match gcm_encrypt(&self.bytes, &nonce_bytes, aad, plaintext) {
            Some((ciphertext, tag)) => {
                overwrite(ciphertext_out, ciphertext.as_slice());
                overwrite(tag_out, tag.as_slice());
                Ok(())
            },
            None => Err(AeadError::TooLong),
        }
    }

    /// Opens `ciphertext`, writing the plaintext to the buffer. On an error
    /// the buffer keeps what it held.
    pub fn open_detached(
        &self,
        nonce: &[u8],
        aad: &[u8],
        ciphertext: &[u8],
        tag: &[u8],
        plaintext_out: &mut [u8],
    ) -> (opened: Result<(), AeadError>)
        ensures
            opened == (if old(plaintext_out)@.len() != ciphertext@.len() {
                Err::<(), AeadError>(AeadError::InvalidLength)
            } else {
                match open_outcome(self@, nonce@, aad@, ciphertext@, tag@) {
                    Ok(_) => Ok(()),
                    Err(e) => Err(e),
                }
            }),
            opened is Ok <==> {
                &&& old(plaintext_out)@.len() == ciphertext@.len()
                &&& nonce@.len() == 12
                &&& tag@.len() == 16
                &&& ciphertext@.len() <= 68_719_476_704
                &&& aad@.len() <= 68_719_476_736
                &&& aes256gcm_open(self@, nonce@, aad@, ciphertext@, tag@) is Some
            },
            opened is Ok ==> aes256gcm_open(self@, nonce@, aad@, ciphertext@, tag@) == Some(
                final(plaintext_out)@,
            ),
            opened is Ok ==> {
                &&& open_outcome(self@, nonce@, aad@, ciphertext@, tag@) == Ok::<
                    Seq<u8>,
                    AeadError,
                >(final(plaintext_out)@)
                &&& final(plaintext_out)@.len() == ciphertext@.len()
                &&& aes256gcm_seal(self@, nonce@, aad@, final(plaintext_out)@) == (
                    ciphertext@,
                    tag@,
                )
                &&& only_tag(self@, nonce@, aad@, ciphertext@, tag@)
            },
            opened is Err ==> final(plaintext_out)@ == old(plaintext_out)@,
    {
        if plaintext_out.len() != ciphertext.len() {
            return Err(AeadError::InvalidLength);
        }
        if nonce.len() != NONCE_LEN || tag.len() != TAG_LEN {
            return Err(AeadError::InvalidLength);
        }
        if ciphertext.len() as u64 > MAX_SEALED_LEN || aad.len() as u64 > MAX_AAD_LEN {
            return Err(AeadError::TooLong);
        }
        let nonce_bytes = nonce_array(nonce);
        let tag_bytes = tag_array(tag);
        match gcm_decrypt(&self.bytes, &nonce_bytes, aad, ciphertext, &tag_bytes) {
            Some(plaintext) => {
                overwrite(plaintext_out, plaintext.as_slice());
                Ok(())
            },
            None => Err(AeadError::AuthFailed),
        }
    }
}

/// Sealing is refused for a nonce that has not twelve bytes, then for input past the
/// limits, and else gives what the cipher gives.
pub proof fn law_sealing_outcome(
    key: Seq<u8>,
    nonce: Seq<u8>,
    aad: Seq<u8>,
    plaintext: Seq<u8>,
)
    ensures
        nonce.len() != 12 <==> seal_outcome(key, nonce, aad, plaintext) == Err::<
            (Seq<u8>, Seq<u8>),
            AeadError,
        >(AeadError::InvalidLength),
        nonce.len() == 12 && (plaintext.len() > 68_719_476_704 || aad.len() > 68_719_476_736)
            <==> seal_outcome(key, nonce, aad, plaintext) == Err::<(Seq<u8>, Seq<u8>), AeadError>(
            AeadError::TooLong,
        ),
        seal_outcome(key, nonce, aad, plaintext) matches Ok(sealed) ==> sealed == aes256gcm_seal(
            key,
            nonce,
            aad,
            plaintext,
        ),
{
}

/// Opening is refused for a nonce that has not twelve bytes or a tag that has not
/// sixteen, then for input past the limits, then where the cipher opens nothing, and
/// else gives what the cipher gives.
pub proof fn law_opening_outcome(
    key: Seq<u8>,
    nonce: Seq<u8>,
    aad: Seq<u8>,
    ciphertext: Seq<u8>,
    tag: Seq<u8>,
)
    ensures
        nonce.len() != 12 || tag.len() != 16 <==> open_outcome(key, nonce, aad, ciphertext, tag)
            == Err::<Seq<u8>, AeadError>(AeadError::InvalidLength),
        nonce.len() == 12 && tag.len() == 16 && (ciphertext.len() > 68_719_476_704 || aad.len()
            > 68_719_476_736) <==> open_outcome(key, nonce, aad, ciphertext, tag) == Err::<
            Seq<u8>,
            AeadError,
        >(AeadError::TooLong),
        open_outcome(key, nonce, aad, ciphertext, tag) matches Ok(opened) ==> aes256gcm_open(
            key,
            nonce,
            aad,
            ciphertext,
            tag,
        ) == Some(opened),
        open_outcome(key, nonce, aad, ciphertext, tag) == Err::<Seq<u8>, AeadError>(
            AeadError::AuthFailed,
        ) ==> aes256gcm_open(key, nonce, aad, ciphertext, tag) is None,
{
}

/// A key holds the very bytes that it was made of, and none is refused.
pub proof fn law_key_holds_its_bytes(bytes: &[u8; 32], key: Result<AesGcmKey, AeadError>)
    requires
        call_ensures(AesGcmKey::new, (bytes,), key),
    ensures
        key matches Ok(k) && k@ == bytes@,
{
}

/// The message of an error says what was wrong.
pub proof fn law_aead_message(error: &AeadError, message: &'static str)
    requires
        call_ensures(AeadError::message, (error,), message),
    ensures
        message@ == match error {
            AeadError::InvalidLength => "invalid length"@,
            AeadError::TooLong => "input too long"@,
            AeadError::AuthFailed => "authentication failed"@,
        },
{
}

/// Sealing writes what the cipher seals. Where it is refused, for lengths that do not fit
/// or for input past the limits, the buffers keep what they held.
pub proof fn law_sealing_call(
    key: &AesGcmKey,
    nonce: &[u8],
    aad: &[u8],
    plaintext: &[u8],
    ciphertext_out: &mut [u8],
    tag_out: &mut [u8],
    sealed: Result<(), AeadError>,
)
    requires
        call_ensures(
            AesGcmKey::seal_detached,
            (key, nonce, aad, plaintext, ciphertext_out, tag_out),
            sealed,
        ),
    ensures
        sealed is Ok <==> {
            &&& old(ciphertext_out)@.len() == plaintext@.len()
            &&& old(tag_out)@.len() == 16
            &&& nonce@.len() == 12
            &&& plaintext@.len() <= 68_719_476_704
            &&& aad@.len() <= 68_719_476_736
        },
        sealed is Ok ==> (final(ciphertext_out)@, final(tag_out)@) == aes256gcm_seal(
            key@,
            nonce@,
            aad@,
            plaintext@,
        ),
        sealed is Err ==> final(ciphertext_out)@ == old(ciphertext_out)@ && final(tag_out)@
            == old(tag_out)@,
{
}

/// Opening writes exactly what the cipher opens, and only where it opens something;
/// otherwise the buffer keeps what it held.
pub proof fn law_opening_call(
    key: &AesGcmKey,
    nonce: &[u8],
    aad: &[u8],
    ciphertext: &[u8],
    tag: &[u8],
    plaintext_out: &mut [u8],
    opened: Result<(), AeadError>,
)
    requires
        call_ensures(
            AesGcmKey::open_detached,
            (key, nonce, aad, ciphertext, tag, plaintext_out),
            opened,
        ),
    ensures
        opened is Ok <==> {
            &&& old(plaintext_out)@.len() == ciphertext@.len()
            &&& nonce@.len() == 12
            &&& tag@.len() == 16
            &&& ciphertext@.len() <= 68_719_476_704
            &&& aad@.len() <= 68_719_476_736
            &&& aes256gcm_open(key@, nonce@, aad@, ciphertext@, tag@) is Some
        },
        opened is Ok ==> aes256gcm_open(key@, nonce@, aad@, ciphertext@, tag@) == Some(
            final(plaintext_out)@,
        ),
        opened is Err ==> final(plaintext_out)@ == old(plaintext_out)@,
{
}

} // verus!
