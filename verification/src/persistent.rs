//! The persistent store: how it is configured, which keys it holds and what it
//! keeps of uploads in progress. Database and files are the caller's.

use crate::crypto::aead::BlobEncryptor;
use crate::crypto::kms::KeyManagementService;
use crate::crypto::{CryptoError, CryptoErrorView};
use crate::encrypted::TableEncryptor;
use crate::index::successor;
use crate::types::{StoreError, StoreErrorView};
use crate::upload::UploadSessions;
use std::path::PathBuf;
use vstd::prelude::*;
use vstd::string::*;

verus! {

/// `std::path::PathBuf`, which is only carried.
#[verifier::external_type_specification]
#[verifier::external_body]
pub struct ExPathBuf(PathBuf);

/// Configuration of a persistent store.
///
/// `PersistentStoreConfig::new` gives sensible defaults; fields may be
/// overridden before the store is made.
#[non_exhaustive]
pub struct PersistentStoreConfig {
    pub blob_root: PathBuf,
    pub db_path: PathBuf,
    /// Flush files before they are given the name of a blob.
    pub fsync: bool,
    /// The key that blobs and table values are encrypted under, if they are.
    pub encryption_key: Option<[u8; 32]>,
    /// Age in seconds past which an upload is refused.
    pub upload_timeout_secs: Option<u64>,
    /// Keep staging files found at open, so that interrupted uploads can be
    /// resumed. By default they are removed.
    pub preserve_staging: bool,
}

impl PersistentStoreConfig {
    /// The default configuration for the given places: files are flushed,
    /// nothing is encrypted, uploads do not expire, staging is wiped at open.
    pub fn new(blob_root: PathBuf, db_path: PathBuf) -> (config: Self)
        ensures
            config == (PersistentStoreConfig {
                blob_root,
                db_path,
                fsync: true,
                encryption_key: None,
                upload_timeout_secs: None,
                preserve_staging: false,
            }),
    {
        PersistentStoreConfig {
            blob_root,
            db_path,
            fsync: true,
            encryption_key: None,
            upload_timeout_secs: None,
            preserve_staging: false,
        }
    }

    /// Whether an entry found in the staging directory at open is removed.
    pub fn wipes_at_open(&self, is_file: bool) -> (wipe: bool)
        ensures
            wipe == (is_file && !self.preserve_staging),
    {
        is_file && !self.preserve_staging
    }
}

/// The state of a persistent store beside its database and its files.
pub struct PersistentStore {
    /// Whether files are flushed before they become blobs.
    pub fsync: bool,
    /// The encryptor of blobs, where they are encrypted.
    pub blob_encryptor: Option<BlobEncryptor>,
    /// The encryptor of table keys and values, where they are encrypted.
    pub table_encryptor: Option<TableEncryptor>,
    /// The uploads in progress.
    pub uploads: UploadSessions,
}

/// What a store is made of, as a mathematical value.
#[verifier::ext_equal]
pub struct StoreView {
    /// Whether files are flushed before they become blobs.
    pub fsync: bool,
    /// The key that blobs are encrypted under.
    pub blob_key: Option<Seq<u8>>,
    /// The key that table values are encrypted under.
    pub table_key: Option<Seq<u8>>,
}

impl View for PersistentStore {
    type V = StoreView;

    open spec fn view(&self) -> StoreView {
        StoreView {
            fsync: self.fsync,
            blob_key: match self.blob_encryptor {
                Some(enc) => Some(enc@),
                None => None,
            },
            table_key: match self.table_encryptor {
                Some(enc) => Some(enc@),
                None => None,
            },
        }
    }
}

/// The store that a configuration and, where it has a key, what was derived from
/// it make, or the error.
pub open spec fn store_made(
    config: PersistentStoreConfig,
    derived: Result<Vec<u8>, CryptoError>,
) -> Result<StoreView, StoreErrorView> {
    match config.encryption_key {
        None => Ok(StoreView { fsync: config.fsync, blob_key: None, table_key: None }),
        Some(key) => match crate::crypto::aead::encryptor_key(derived) {
            Ok(blob_key) => Ok(
                StoreView {
                    fsync: config.fsync,
                    blob_key: Some(blob_key),
                    table_key: Some(key@),
                },
            ),
            Err(e) => Err(StoreErrorView::Io(e.text())),
        },
    }
}

/// A store with no uploads and the configured timeout, or an error, is what the
/// configuration and the derivation make.
pub open spec fn opened(
    config: PersistentStoreConfig,
    derived: Result<Vec<u8>, CryptoError>,
    store: Result<PersistentStore, StoreError>,
) -> bool {
    match store {
        Ok(s) => {
            &&& store_made(config, derived) == Ok::<StoreView, StoreErrorView>(s@)
            &&& s.uploads.wf()
            &&& s.uploads@ == Map::<Seq<char>, crate::upload::SessionView>::empty()
            &&& s.uploads.timeout() == config.upload_timeout_secs
        },
        Err(e) => store_made(config, derived) == Err::<StoreView, StoreErrorView>(e@),
    }
}

impl PersistentStore {
    /// Make the store. Where the configuration has a key, the blob key is what
    /// the key management service derives for the default namespace, and a
    /// derivation that fails is the error.
    pub fn new<K: KeyManagementService + ?Sized>(config: PersistentStoreConfig, kms: &K) -> (store:
        Result<Self, StoreError>)
        ensures
            config.encryption_key is None ==> store is Ok,
            exists|derived: Result<Vec<u8>, CryptoError>|
                (config.encryption_key is Some ==> call_ensures(
                    K::derive_subject_key,
                    (kms, "_default", "_blob_encryption"),
                    derived,
                )) && #[trigger] opened(config, derived, store),
    {
        let derived = if config.encryption_key.is_some() {
            kms.derive_subject_key("_default", "_blob_encryption")
        } else {
            Err(CryptoError::InvalidKey)
        };
        let store = Self::from_derived(config, derived);
        assert(opened(config, derived, store));
        store
    }

    /// Make the store from what a key derivation returned, which counts only
    /// where the configuration has a key.
    pub fn from_derived(
        config: PersistentStoreConfig,
        derived: Result<Vec<u8>, CryptoError>,
    ) -> (store: Result<Self, StoreError>)
        ensures
            opened(config, derived, store),
    {
        let uploads = UploadSessions::new(config.upload_timeout_secs);
        match config.encryption_key {
            None => Ok(
                PersistentStore {
                    fsync: config.fsync,
                    blob_encryptor: None,
                    table_encryptor: None,
                    uploads,
                },
            ),
            Some(key) => {
                let blob_encryptor = match BlobEncryptor::from_derived(derived) {
                    Ok(enc) => enc,
                    Err(e) => {
                        return Err(StoreError::Io(e.message()));
                    },
                };
                match TableEncryptor::new(&key) {
                    Ok(table_encryptor) => Ok(
                        PersistentStore {
                            fsync: config.fsync,
                            blob_encryptor: Some(blob_encryptor),
                            table_encryptor: Some(table_encryptor),
                            uploads,
                        },
                    ),
                    Err(e) => Err(StoreError::Io(e.message().to_owned())),
                }
            },
        }
    }

    /// Whether an additional address of stored content becomes a link to it. Where
    /// blobs are encrypted it is stored again instead, as its own ciphertext.
    pub fn links_additional(&self) -> (links: bool)
        ensures
            links == (self@.blob_key is None),
    {
        self.blob_encryptor.is_none()
    }

    /// Compute the successor key for prefix range scans: the rightmost byte
    /// below 0xFF is raised by one and everything after it goes. None where
    /// every byte is 0xFF: the range extends to the end of the keys.
    pub fn prefix_successor(prefix: &[u8]) -> (next: Option<Vec<u8>>)
        ensures
            match next {
                Some(s) => crate::index::is_successor(prefix@, s@),
                None => crate::index::all_ff(prefix@),
            },
    {
        successor(prefix)
    }
}

/// A new configuration keeps the two places apart, flushes files, encrypts nothing,
/// lets no upload expire and wipes staging at open: every file in it, and nothing
/// where staging is preserved.
pub proof fn law_default_configuration(
    blob_root: PathBuf,
    db_path: PathBuf,
    config: PersistentStoreConfig,
    any: &PersistentStoreConfig,
    is_file: bool,
    wipe: bool,
)
    requires
        call_ensures(PersistentStoreConfig::new, (blob_root, db_path), config),
        call_ensures(PersistentStoreConfig::wipes_at_open, (any, is_file), wipe),
    ensures
        config.blob_root == blob_root,
        config.db_path == db_path,
        config.fsync,
        config.encryption_key is None,
        config.upload_timeout_secs is None,
        !config.preserve_staging,
        !is_file ==> !wipe,
        any.preserve_staging ==> !wipe,
        is_file && !any.preserve_staging ==> wipe,
{
}

/// A store without a key is made whatever was derived and encrypts nothing. A store
/// with a key is made exactly where 32 bytes were derived: those encrypt blobs, and the
/// key itself encrypts tables; otherwise the error of the derivation is told. Either
/// store flushes as it was configured to and begins without uploads, under the timeout
/// configured.
pub proof fn law_store_is_made(
    config: PersistentStoreConfig,
    derived: Result<Vec<u8>, CryptoError>,
    store: Result<PersistentStore, StoreError>,
)
    requires
        call_ensures(PersistentStore::from_derived, (config, derived), store),
    ensures
        store is Ok <==> config.encryption_key is None || (derived matches Ok(bytes) && bytes@.len()
            == 32),
        store matches Ok(s) ==> {
            &&& s.fsync == config.fsync
            &&& forall|id: Seq<char>| !#[trigger] s.uploads@.contains_key(id)
            &&& s.uploads.timeout() == config.upload_timeout_secs
            &&& config.encryption_key is None ==> s.blob_encryptor is None && s.table_encryptor
                is None
            &&& config.encryption_key matches Some(key) ==> {
                &&& s.blob_encryptor matches Some(enc) && enc@ == derived->Ok_0@
                &&& s.table_encryptor matches Some(enc) && enc@ == key@
            }
        },
        store matches Err(e) ==> {
            &&& e is Io
            &&& derived is Ok ==> e->Io_0@ == "invalid key"@
            &&& derived matches Err(d) ==> e->Io_0@ == d@.text()
        },
{
}

/// The key that a store encrypts blobs under is the one that the key management service
/// derived for the default namespace.
pub proof fn law_store_key_is_derived<K: KeyManagementService + ?Sized>(
    config: PersistentStoreConfig,
    kms: &K,
    store: Result<PersistentStore, StoreError>,
)
    requires
        call_ensures(PersistentStore::new::<K>, (config, kms), store),
        config.encryption_key is Some,
    ensures
        store matches Ok(s) ==> exists|bytes: Vec<u8>|
            {
                &&& bytes@.len() == 32
                &&& s.blob_encryptor matches Some(enc) && enc@ == bytes@
                &&& #[trigger] call_ensures(
                    K::derive_subject_key,
                    (kms, "_default", "_blob_encryption"),
                    Ok::<Vec<u8>, CryptoError>(bytes),
                )
            },
        store matches Ok(s) ==> (s.table_encryptor matches Some(enc) && enc@
            == config.encryption_key->0@),
        store matches Ok(s) ==> s.fsync == config.fsync && s.uploads.timeout()
            == config.upload_timeout_secs,
{
    if let Ok(s) = store {
        let derived = choose|derived: Result<Vec<u8>, CryptoError>|
            call_ensures(
                K::derive_subject_key,
                (kms, "_default", "_blob_encryption"),
                derived,
            ) && #[trigger] opened(config, derived, store);
        assert(derived == Ok::<Vec<u8>, CryptoError>(derived->Ok_0));
    }
}

/// An additional address becomes a link exactly where blobs are not encrypted.
pub proof fn law_links_where_plain(store: &PersistentStore, links: bool)
    requires
        call_ensures(PersistentStore::links_additional, (store,), links),
    ensures
        links <==> store.blob_encryptor is None,
{
}

/// The keys from a prefix on, up to its successor where it has one, are exactly those
/// that begin with the prefix.
pub proof fn law_prefix_range(prefix: &[u8], next: Option<Vec<u8>>, key: Seq<u8>)
    requires
        call_ensures(PersistentStore::prefix_successor, (prefix,), next),
    ensures
        prefix@.is_prefix_of(key) <==> !crate::index::bytes_less(key, prefix@) && (
        next matches Some(end) ==> crate::index::bytes_less(key, end@)),
{
    match next {
        Some(end) => crate::index::law_successor_bounds_prefix(prefix@, end@, key),
        None => crate::index::law_no_successor_bounds_prefix(prefix@, key),
    }
}

} // verus!
