//! Cryptographic signing, verification and encryption at rest.

use crate::text::{joined, same_text};
use vstd::prelude::*;
use vstd::string::*;

pub mod aead;
pub mod aead_backend;
pub mod aead_laws;
pub mod disabled;
pub mod kms;

verus! {

/// Why a cryptographic operation failed.
#[derive(Debug)]
pub enum CryptoError {
    /// No implementation goes by this algorithm name.
    UnsupportedAlgorithm(String),
    /// The key material does not form a key.
    InvalidKey,
    /// The signature does not have the form of one.
    InvalidSignature,
    /// Sealing, opening or signing failed.
    SigningFailed(String),
    /// A value could not be written out.
    Serialization(String),
    /// A value could not be read back.
    Deserialization(String),
    /// Random key material could not be drawn.
    KeyGeneration(String),
    /// Stored data is not what it should be.
    IntegrityFailure(String),
    /// Reading or writing failed.
    Io(String),
}

/// A [`CryptoError`] with its texts as sequences of characters.
#[verifier::ext_equal]
pub enum CryptoErrorView {
    UnsupportedAlgorithm(Seq<char>),
    InvalidKey,
    InvalidSignature,
    SigningFailed(Seq<char>),
    Serialization(Seq<char>),
    Deserialization(Seq<char>),
    KeyGeneration(Seq<char>),
    IntegrityFailure(Seq<char>),
    Io(Seq<char>),
}

impl View for CryptoError {
    type V = CryptoErrorView;

    open spec fn view(&self) -> CryptoErrorView {
        match self {
            CryptoError::UnsupportedAlgorithm(s) => CryptoErrorView::UnsupportedAlgorithm(s@),
            CryptoError::InvalidKey => CryptoErrorView::InvalidKey,
            CryptoError::InvalidSignature => CryptoErrorView::InvalidSignature,
            CryptoError::SigningFailed(s) => CryptoErrorView::SigningFailed(s@),
            CryptoError::Serialization(s) => CryptoErrorView::Serialization(s@),
            CryptoError::Deserialization(s) => CryptoErrorView::Deserialization(s@),
            CryptoError::KeyGeneration(s) => CryptoErrorView::KeyGeneration(s@),
            CryptoError::IntegrityFailure(s) => CryptoErrorView::IntegrityFailure(s@),
            CryptoError::Io(s) => CryptoErrorView::Io(s@),
        }
    }
}

impl CryptoErrorView {
    /// The message of the error.
    pub open spec fn text(self) -> Seq<char> {
        match self {
            CryptoErrorView::UnsupportedAlgorithm(s) => "unsupported algorithm: "@ + s,
            CryptoErrorView::InvalidKey => "invalid key"@,
            CryptoErrorView::InvalidSignature => "invalid signature"@,
            CryptoErrorView::SigningFailed(s) => "signing failed: "@ + s,
            CryptoErrorView::Serialization(s) => "serialization failed: "@ + s,
            CryptoErrorView::Deserialization(s) => "deserialization failed: "@ + s,
            CryptoErrorView::KeyGeneration(s) => "key generation failed: "@ + s,
            CryptoErrorView::IntegrityFailure(s) => "integrity check failed: "@ + s,
            CryptoErrorView::Io(s) => "io error: "@ + s,
        }
    }
}

impl CryptoError {
    /// The message of the error.
    pub fn message(&self) -> (message: String)
        ensures
            message@ == self@.text(),
    {
        match self {
            CryptoError::UnsupportedAlgorithm(s) => joined("unsupported algorithm: ", s.as_str()),
            CryptoError::InvalidKey => "invalid key".to_owned(),
            CryptoError::InvalidSignature => "invalid signature".to_owned(),
            CryptoError::SigningFailed(s) => joined("signing failed: ", s.as_str()),
            CryptoError::Serialization(s) => joined("serialization failed: ", s.as_str()),
            CryptoError::Deserialization(s) => joined("deserialization failed: ", s.as_str()),
            CryptoError::KeyGeneration(s) => joined("key generation failed: ", s.as_str()),
            CryptoError::IntegrityFailure(s) => joined("integrity check failed: ", s.as_str()),
            CryptoError::Io(s) => joined("io error: ", s.as_str()),
        }
    }
}

/// Bytes or an error, each by its view.
pub open spec fn bytes_outcome(result: Result<Vec<u8>, CryptoError>) -> Result<
    Seq<u8>,
    CryptoErrorView,
> {
    match result {
        Ok(bytes) => Ok(bytes@),
        Err(e) => Err(e@),
    }
}

/// Single-key signer. The public key bytes are held from construction on, so
/// that `public_key` is a borrow.
pub trait Signer: Send + Sync {
    fn algorithm(&self) -> &'static str;

    fn public_key(&self) -> &[u8];

    fn sign(&self, message: &[u8]) -> Result<Vec<u8>, CryptoError>;
}

/// Opaque precomputation state of the first FROST round.
///
/// Holds serialized nonces (secret) and commitments (public). Consumed by
/// `sign_share`: each state serves one signature and is then gone.
pub struct Round1State {
    pub nonces: Vec<u8>,
    pub commitments: Vec<u8>,
}

/// A participant's commitment from the first FROST round.
pub struct Commitment {
    pub signer_id: Vec<u8>,
    pub data: Vec<u8>,
}

/// A participant's signature share from the second FROST round.
pub struct SignatureShare {
    pub signer_id: Vec<u8>,
    pub data: Vec<u8>,
}

/// Per-signer threshold signing operations (FROST, t of n).
pub trait ThresholdSigner: Send + Sync {
    fn algorithm(&self) -> &'static str;

    fn group_public_key(&self) -> &[u8];

    fn precompute_round1(&mut self) -> Result<Round1State, CryptoError>;

    fn sign_share(
        &mut self,
        round1: Round1State,
        message: &[u8],
        commitments: &[Commitment],
    ) -> Result<SignatureShare, CryptoError>;
}

/// Signature verifier. [`verifier_for`] says which one an algorithm calls for.
pub trait Verifier: Send + Sync {
    fn verify(&self, public_key: &[u8], message: &[u8], signature: &[u8]) -> Result<
        bool,
        CryptoError,
    >;
}

/// The signature schemes that a verifier exists for.
#[derive(Debug, Clone, Copy, PartialEq, Eq, Structural)]
pub enum VerifierKind {
    Ed25519,
    P256Ecdsa,
    K256Ecdsa,
    P256Schnorr,
    K256Schnorr,
}

/// The scheme that an algorithm name stands for.
pub open spec fn verifier_kind(algorithm: Seq<char>) -> Option<VerifierKind> {
    if algorithm == "ed25519"@ || algorithm == "frost-ed25519"@ {
        Some(VerifierKind::Ed25519)
    } else if algorithm == "p256"@ {
        Some(VerifierKind::P256Ecdsa)
    } else if algorithm == "k256"@ {
        Some(VerifierKind::K256Ecdsa)
    } else if algorithm == "frost-p256"@ {
        Some(VerifierKind::P256Schnorr)
    } else if algorithm == "frost-secp256k1"@ {
        Some(VerifierKind::K256Schnorr)
    } else {
        None
    }
}

/// Get the verifier for the given algorithm.
pub fn verifier_for(algorithm: &str) -> (verifier: Result<VerifierKind, CryptoError>)
    ensures
        match verifier {
            Ok(kind) => verifier_kind(algorithm@) == Some(kind),
            Err(e) => verifier_kind(algorithm@) is None && e@
                == CryptoErrorView::UnsupportedAlgorithm(algorithm@),
        },
{
    if same_text(algorithm, "ed25519") || same_text(algorithm, "frost-ed25519") {
        Ok(VerifierKind::Ed25519)
    } else if same_text(algorithm, "p256") {
        Ok(VerifierKind::P256Ecdsa)
    } else if same_text(algorithm, "k256") {
        Ok(VerifierKind::K256Ecdsa)
    } else if same_text(algorithm, "frost-p256") {
        Ok(VerifierKind::P256Schnorr)
    } else if same_text(algorithm, "frost-secp256k1") {
        Ok(VerifierKind::K256Schnorr)
    } else {
        Err(CryptoError::UnsupportedAlgorithm(algorithm.to_owned()))
    }
}

/// An algorithm name calls for the verifier of its scheme: Ed25519 verifies the
/// threshold signatures of its curve too, while the other curves have a scheme of
/// their own for them. Every other name is refused and named in the error.
pub proof fn law_verifier_dispatch(
    algorithm: &str,
    verifier: Result<VerifierKind, CryptoError>,
)
    requires
        call_ensures(verifier_for, (algorithm,), verifier),
    ensures
        (verifier matches Ok(VerifierKind::Ed25519)) <==> algorithm@ == "ed25519"@ || algorithm@
            == "frost-ed25519"@,
        (verifier matches Ok(VerifierKind::P256Ecdsa)) <==> algorithm@ == "p256"@,
        (verifier matches Ok(VerifierKind::K256Ecdsa)) <==> algorithm@ == "k256"@,
        (verifier matches Ok(VerifierKind::P256Schnorr)) <==> algorithm@ == "frost-p256"@,
        (verifier matches Ok(VerifierKind::K256Schnorr)) <==> algorithm@ == "frost-secp256k1"@,
        verifier matches Err(e) ==> (e matches CryptoError::UnsupportedAlgorithm(name) && name@
            == algorithm@),
{
    reveal_strlit("ed25519");
    reveal_strlit("frost-ed25519");
    reveal_strlit("p256");
    reveal_strlit("k256");
    reveal_strlit("frost-p256");
    reveal_strlit("frost-secp256k1");
    assert("ed25519"@[0] == 'e' && "frost-ed25519"@[0] == 'f' && "p256"@[0] == 'p');
    assert("k256"@[0] == 'k' && "frost-p256"@[0] == 'f' && "frost-secp256k1"@[0] == 'f');
    assert("frost-ed25519"@[6] == 'e' && "frost-p256"@[6] == 'p' && "frost-secp256k1"@[6] == 's');
}

/// The message of an error says what kind it is, then what it carries.
pub proof fn law_error_message(error: &CryptoError, message: String)
    requires
        call_ensures(CryptoError::message, (error,), message),
    ensures
        message@ == match error {
            CryptoError::UnsupportedAlgorithm(s) => "unsupported algorithm: "@ + s@,
            CryptoError::InvalidKey => "invalid key"@,
            CryptoError::InvalidSignature => "invalid signature"@,
            CryptoError::SigningFailed(s) => "signing failed: "@ + s@,
            CryptoError::Serialization(s) => "serialization failed: "@ + s@,
            CryptoError::Deserialization(s) => "deserialization failed: "@ + s@,
            CryptoError::KeyGeneration(s) => "key generation failed: "@ + s@,
            CryptoError::IntegrityFailure(s) => "integrity check failed: "@ + s@,
            CryptoError::Io(s) => "io error: "@ + s@,
        },
{
}

} // verus!
