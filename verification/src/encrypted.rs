//! Encrypted table keys and values.
//!
//! A table key is stored as its keyed hash, in hexadecimal. A table value is
//! stored as a 16-byte tag followed by the ciphertext, sealed under a nonce
//! derived from its key and bound to that key as associated data: a value that
//! is moved to another key does not open there.

use crate::crypto::aead_backend::{AesGcmKey, MAX_AAD_LEN, MAX_SEALED_LEN, NONCE_LEN, TAG_LEN};
use crate::text::hex_text;
use vstd::prelude::*;
use vstd::slice::{slice_subrange, slice_to_vec};
use vstd::string::*;

verus! {

/// The 32-byte BLAKE3 hash of the input under the key.
pub uninterp spec fn blake3_keyed(key: Seq<u8>, input: Seq<u8>) -> Seq<u8>;

/// Calls `blake3::keyed_hash`, trusted to be a function of the key and the
/// input whose result has 32 bytes.
#[verifier::external_body]
fn keyed_hash(key: &[u8; 32], input: &[u8]) -> (hash: [u8; 32])
    ensures
        hash@ == blake3_keyed(key@, input@),
{
    *blake3::keyed_hash(key, input).as_bytes()
}

/// Errors from table encryption operations.
#[derive(Debug, Clone, Copy, PartialEq, Eq, Structural)]
pub enum EncryptionError {
    /// AES-256-GCM key initialization failed.
    KeyInit,
    /// AEAD seal operation failed.
    SealFailed,
    /// AEAD authentication failed (tampered data or wrong key).
    AuthFailed,
    /// Stored value too short to contain a 16-byte tag.
    TruncatedValue,
}

impl EncryptionError {
    /// The message of the error.
    pub open spec fn text(self) -> Seq<char> {
        match self {
            EncryptionError::KeyInit => "AEAD key initialization failed"@,
            EncryptionError::SealFailed => "AEAD seal failed"@,
            EncryptionError::AuthFailed => "AEAD authentication failed"@,
            EncryptionError::TruncatedValue => "stored value too short for tag"@,
        }
    }

    /// The message of the error.
    pub fn message(&self) -> (message: &'static str)
        ensures
            message@ == self.text(),
    {
        match self {
            EncryptionError::KeyInit => "AEAD key initialization failed",
            EncryptionError::SealFailed => "AEAD seal failed",
            EncryptionError::AuthFailed => "AEAD authentication failed",
            EncryptionError::TruncatedValue => "stored value too short for tag",
        }
    }
}

/// Bytes by their view, or an error.
pub open spec fn value_outcome(result: Result<Vec<u8>, EncryptionError>) -> Result<
    Seq<u8>,
    EncryptionError,
> {
    match result {
        Ok(bytes) => Ok(bytes@),
        Err(e) => Err(e),
    }
}

/// The nonce of a table key: the first twelve bytes of its keyed hash.
pub open spec fn table_nonce(ns_key: Seq<u8>, table_key: Seq<char>) -> Seq<u8> {
    blake3_keyed(ns_key, vstd::utf8::encode_utf8(table_key)).subrange(0, NONCE_LEN as int)
}

/// What a value is stored as under a table key: the tag, then the ciphertext.
pub open spec fn sealed_value(ns_key: Seq<u8>, table_key: Seq<char>, value: Seq<u8>) -> Seq<u8> {
    let (ciphertext, tag) = crate::crypto::aead_backend::aes256gcm_seal(
        ns_key,
        table_nonce(ns_key, table_key),
        vstd::utf8::encode_utf8(table_key),
        value,
    );
    tag + ciphertext
}

/// The outcome of storing a value under a table key.
pub open spec fn value_encrypted(ns_key: Seq<u8>, table_key: Seq<char>, value: Seq<u8>) -> Result<
    Seq<u8>,
    EncryptionError,
> {
    if value.len() > MAX_SEALED_LEN || vstd::utf8::encode_utf8(table_key).len() > MAX_AAD_LEN {
        Err(EncryptionError::SealFailed)
    } else {
        Ok(sealed_value(ns_key, table_key, value))
    }
}

/// The outcome of reading back what is stored under a table key.
pub open spec fn value_decrypted(ns_key: Seq<u8>, table_key: Seq<char>, stored: Seq<u8>) -> Result<
    Seq<u8>,
    EncryptionError,
> {
    if stored.len() < TAG_LEN {
        Err(EncryptionError::TruncatedValue)
    } else {
        let tag = stored.subrange(0, TAG_LEN as int);
        let ciphertext = stored.subrange(TAG_LEN as int, stored.len() as int);
        match crate::crypto::aead_backend::open_outcome(
            ns_key,
            table_nonce(ns_key, table_key),
            vstd::utf8::encode_utf8(table_key),
            ciphertext,
            tag,
        ) {
            Ok(value) => Ok(value),
            Err(_) => Err(EncryptionError::AuthFailed),
        }
    }
}

/// What is stored under the table key reads back as the value, and with no other
/// tag in front of its ciphertext would it be read.
pub open spec fn value_holds(
    ns_key: Seq<u8>,
    table_key: Seq<char>,
    stored: Seq<u8>,
    value: Seq<u8>,
) -> bool {
    &&& stored.len() == TAG_LEN + value.len()
    &&& value_decrypted(ns_key, table_key, stored) == Ok::<Seq<u8>, EncryptionError>(value)
    &&& crate::crypto::aead_backend::only_tag(
        ns_key,
        table_nonce(ns_key, table_key),
        vstd::utf8::encode_utf8(table_key),
        stored.subrange(TAG_LEN as int, stored.len() as int),
        stored.subrange(0, TAG_LEN as int),
    )
}

/// A stored value of which the tag was altered, in one byte or more, is refused.
pub proof fn law_altered_value_tag_is_refused(
    ns_key: Seq<u8>,
    table_key: Seq<char>,
    stored: Seq<u8>,
    value: Seq<u8>,
    other: Seq<u8>,
)
    requires
        value_holds(ns_key, table_key, stored, value),
        other.len() == stored.len(),
        other != stored,
        other.subrange(TAG_LEN as int, other.len() as int) == stored.subrange(
            TAG_LEN as int,
            stored.len() as int,
        ),
    ensures
        value_decrypted(ns_key, table_key, other) == Err::<Seq<u8>, EncryptionError>(
            EncryptionError::AuthFailed,
        ),
{
    let tag = stored.subrange(0, TAG_LEN as int);
    let changed = other.subrange(0, TAG_LEN as int);
    let ciphertext = stored.subrange(TAG_LEN as int, stored.len() as int);
    if changed == tag {
        assert(stored =~= tag + ciphertext);
        assert(other =~= changed + ciphertext);
    }
}

/// Encrypted table key/value operations of one namespace.
pub struct TableEncryptor {
    key: AesGcmKey,
    ns_key_bytes: [u8; 32],
}

impl View for TableEncryptor {
    type V = Seq<u8>;

    /// The namespace key.
    closed spec fn view(&self) -> Seq<u8> {
        self.ns_key_bytes@
    }
}

impl TableEncryptor {
    #[verifier::type_invariant]
    spec fn keyed(self) -> bool {
        self.key@ == self.ns_key_bytes@
    }

    /// Create from a 32-byte namespace key.
    pub fn new(ns_key: &[u8; 32]) -> (encryptor: Result<Self, EncryptionError>)
        ensures
            encryptor matches Ok(e) && e@ == ns_key@,
    {
        match AesGcmKey::new(ns_key) {
            Ok(key) => Ok(TableEncryptor { key, ns_key_bytes: *ns_key }),
            Err(_) => Err(EncryptionError::KeyInit),
        }
    }

    /// Hash a table key for storage: the keyed hash in hexadecimal.
    pub fn hmac_key(&self, plaintext_key: &str) -> (stored_key: String)
        ensures
            stored_key@ == crate::text::hex_lower(blake3_keyed(self@, plaintext_key.spec_bytes())),
            stored_key@.len() == 64,
    {
        let hash = keyed_hash(&self.ns_key_bytes, plaintext_key.as_bytes());
        hex_text(hash.as_slice())
    }

    /// Derive the 12-byte nonce of a table key from its keyed hash.
    fn nonce_for_key(&self, plaintext_key: &str) -> (nonce: Vec<u8>)
        ensures
            nonce@ == table_nonce(self@, plaintext_key@),
            nonce@.len() == 12,
    {
        let hash = keyed_hash(&self.ns_key_bytes, plaintext_key.as_bytes());
        slice_to_vec(slice_subrange(hash.as_slice(), 0, self.key.nonce_len()))
    }

    /// Encrypt a value for storage. The table key is bound as associated data.
    pub fn encrypt_value(&self, plaintext_key: &str, value: &[u8]) -> (stored: Result<
        Vec<u8>,
        EncryptionError,
    >)
        ensures
            value_outcome(stored) == value_encrypted(self@, plaintext_key@, value@),
            stored matches Ok(s) ==> {
                &&& s@.len() == TAG_LEN + value@.len()
                &&& (
                    s@.subrange(TAG_LEN as int, s@.len() as int),
                    s@.subrange(0, TAG_LEN as int),
                ) == crate::crypto::aead_backend::aes256gcm_seal(
                    self@,
                    table_nonce(self@, plaintext_key@),
                    plaintext_key.spec_bytes(),
                    value@,
                )
                &&& value_holds(self@, plaintext_key@, s@, value@)
            },
    {
        proof {
            use_type_invariant(self);
        }
        let nonce = self.nonce_for_key(plaintext_key);
        let mut ciphertext: Vec<u8> = vec![0u8; value.len()];
        let mut tag: Vec<u8> = vec![0u8; TAG_LEN];
        match self.key.seal_detached(
            nonce.as_slice(),
            plaintext_key.as_bytes(),
            value,
            ciphertext.as_mut_slice(),
            tag.as_mut_slice(),
        ) {
            Err(_) => Err(EncryptionError::SealFailed),
            Ok(()) => {
                let mut stored = tag;
                let ghost tag_bytes = stored@;
                stored.extend_from_slice(ciphertext.as_slice());
                assert(stored@ =~= tag_bytes + ciphertext@);
                assert(stored@.subrange(0, TAG_LEN as int) =~= tag_bytes);
                assert(stored@.subrange(TAG_LEN as int, stored@.len() as int) =~= ciphertext@);
                Ok(stored)
            },
        }
    }

    /// Decrypt a stored value: the tag, then the ciphertext.
    pub fn decrypt_value(&self, plaintext_key: &str, stored: &[u8]) -> (value: Result<
        Vec<u8>,
        EncryptionError,
    >)
        ensures
            value_outcome(value) == value_decrypted(self@, plaintext_key@, stored@),
            value matches Ok(v) ==> {
                &&& value_holds(self@, plaintext_key@, stored@, v@)
                &&& stored@ == sealed_value(self@, plaintext_key@, v@)
            },
    {
        proof {
            use_type_invariant(self);
        }
        if stored.len() < TAG_LEN {
            return Err(EncryptionError::TruncatedValue);
        }
        let tag = slice_subrange(stored, 0, TAG_LEN);
        let ciphertext = slice_subrange(stored, TAG_LEN, stored.len());
        let nonce = self.nonce_for_key(plaintext_key);
        let mut plaintext: Vec<u8> = vec![0u8; ciphertext.len()];
        match self.key.open_detached(
            nonce.as_slice(),
            plaintext_key.as_bytes(),
            ciphertext,
            tag,
            plaintext.as_mut_slice(),
        ) {
            Err(_) => Err(EncryptionError::AuthFailed),
            Ok(()) => {
                assert(stored@ =~= tag@ + ciphertext@);
                Ok(plaintext)
            },
        }
    }
}

/// A table key is stored as 64 hexadecimal digits that read back as its keyed hash.
pub proof fn law_stored_key_reads_back(
    encryptor: &TableEncryptor,
    plaintext_key: &str,
    stored_key: String,
)
    requires
        call_ensures(TableEncryptor::hmac_key, (encryptor, plaintext_key), stored_key),
    ensures
        stored_key@.len() == 64,
        crate::text::hex_reads_as(
            stored_key@,
            blake3_keyed(encryptor@, plaintext_key.spec_bytes()),
        ),
{
    crate::text::law_hex_reads_back(blake3_keyed(encryptor@, plaintext_key.spec_bytes()));
}

/// A value is stored as its tag and its ciphertext: what the cipher seals under the
/// namespace key, with the first twelve bytes of the keyed hash of the table key as
/// the nonce and all bytes of the table key bound. Only input past the limits of the
/// cipher is refused.
pub proof fn law_value_is_sealed_by_cipher(
    encryptor: &TableEncryptor,
    plaintext_key: &str,
    value: &[u8],
    stored: Result<Vec<u8>, EncryptionError>,
)
    requires
        call_ensures(TableEncryptor::encrypt_value, (encryptor, plaintext_key, value), stored),
    ensures
        stored is Ok <==> value@.len() <= 68_719_476_704 && plaintext_key.spec_bytes().len()
            <= 68_719_476_736,
        stored matches Ok(s) ==> {
            &&& s@.len() == 16 + value@.len()
            &&& (s@.skip(16), s@.take(16)) == crate::crypto::aead_backend::aes256gcm_seal(
                encryptor@,
                blake3_keyed(encryptor@, plaintext_key.spec_bytes()).take(12),
                plaintext_key.spec_bytes(),
                value@,
            )
        },
        stored matches Err(e) ==> e is SealFailed,
{
    let hash = blake3_keyed(encryptor@, plaintext_key.spec_bytes());
    assert(hash.take(12) =~= hash.subrange(0, 12));
    if let Ok(s) = stored {
        assert(s@.skip(16) =~= s@.subrange(16, s@.len() as int));
        assert(s@.take(16) =~= s@.subrange(0, 16));
    }
}

/// A stored value is read exactly where the cipher opens it, under the nonce and with
/// the bound bytes of the table key that is asked for, and then as what the cipher
/// gives; what is shorter than a tag is refused as such.
pub proof fn law_value_is_opened_by_cipher(
    encryptor: &TableEncryptor,
    plaintext_key: &str,
    stored: &[u8],
    value: Result<Vec<u8>, EncryptionError>,
)
    requires
        call_ensures(TableEncryptor::decrypt_value, (encryptor, plaintext_key, stored), value),
    ensures
        stored@.len() < 16 <==> (value matches Err(e) && e is TruncatedValue),
        value is Ok <==> {
            &&& 16 <= stored@.len() <= 68_719_476_720
            &&& plaintext_key.spec_bytes().len() <= 68_719_476_736
            &&& blake3_keyed(encryptor@, plaintext_key.spec_bytes()).take(12).len() == 12
            &&& crate::crypto::aead_backend::aes256gcm_open(
                encryptor@,
                blake3_keyed(encryptor@, plaintext_key.spec_bytes()).take(12),
                plaintext_key.spec_bytes(),
                stored@.skip(16),
                stored@.take(16),
            ) is Some
        },
        value matches Ok(v) ==> crate::crypto::aead_backend::aes256gcm_open(
            encryptor@,
            blake3_keyed(encryptor@, plaintext_key.spec_bytes()).take(12),
            plaintext_key.spec_bytes(),
            stored@.skip(16),
            stored@.take(16),
        ) == Some(v@),
        value is Err && stored@.len() >= 16 ==> value->Err_0 is AuthFailed,
{
    let hash = blake3_keyed(encryptor@, plaintext_key.spec_bytes());
    assert(hash.take(12) =~= hash.subrange(0, 12));
    if stored@.len() >= 16 {
        assert(stored@.skip(16) =~= stored@.subrange(16, stored@.len() as int));
        assert(stored@.take(16) =~= stored@.subrange(0, 16));
    }
}

/// A value that was stored under a table key reads back as itself under that key, by
/// whichever encryptor has the namespace key.
pub proof fn law_stored_value_reads_back(
    encryptor: &TableEncryptor,
    reader: &TableEncryptor,
    plaintext_key: &str,
    value: &[u8],
    stored: Vec<u8>,
    bytes: &[u8],
    read: Result<Vec<u8>, EncryptionError>,
)
    requires
        call_ensures(
            TableEncryptor::encrypt_value,
            (encryptor, plaintext_key, value),
            Ok::<Vec<u8>, EncryptionError>(stored),
        ),
        reader@ == encryptor@,
        bytes@ == stored@,
        call_ensures(TableEncryptor::decrypt_value, (reader, plaintext_key, bytes), read),
    ensures
        read matches Ok(v) && v@ == value@,
{
}

/// A table encryptor has the namespace key that it was made of, and none is refused.
pub proof fn law_table_encryptor_key(
    ns_key: &[u8; 32],
    encryptor: Result<TableEncryptor, EncryptionError>,
)
    requires
        call_ensures(TableEncryptor::new, (ns_key,), encryptor),
    ensures
        encryptor matches Ok(e) && e@ == ns_key@,
{
}

/// The message of an error says what failed.
pub proof fn law_encryption_message(error: &EncryptionError, message: &'static str)
    requires
        call_ensures(EncryptionError::message, (error,), message),
    ensures
        message@ == match error {
            EncryptionError::KeyInit => "AEAD key initialization failed"@,
            EncryptionError::SealFailed => "AEAD seal failed"@,
            EncryptionError::AuthFailed => "AEAD authentication failed"@,
            EncryptionError::TruncatedValue => "stored value too short for tag"@,
        },
{
}

} // verus!
