//! Upload sessions and their completion, over files kept in memory.

use kappa_store::complete::{
    check_digest, decide_completion, digest_algorithm, part_manifest, upload_axes, CompletionStep,
};
use kappa_store::crypto::kms::KeyManagementService;
use kappa_store::crypto::CryptoError;
use kappa_store::parts::{combined_crc, compute_composite_etag, etag_text, Crc, PartDigests};
use kappa_store::persistent::{PersistentStore, PersistentStoreConfig};
use kappa_store::store::IngestResult;
use kappa_store::types::{Axis, StoreError};
use kappa_store::upload::{is_valid_upload_id, new_upload_id, Lookup, Refusal, UploadSessions};
use sha2::{Digest, Sha256};
use std::collections::HashMap;
use std::path::PathBuf;

const SECOND: u128 = 1_000_000_000;
const MILLI: u128 = 1_000_000;

fn kappa_from_bytes(content: &[u8]) -> String {
    format!("sha256:{}", hex::encode(Sha256::digest(content)))
}

/// Addresses under SHA-256 and BLAKE3.
fn hash_all(axes: &[String], content: &[u8]) -> Result<Vec<String>, String> {
    let address = |axis: &String| match axis.as_str() {
        "sha256" => Ok(kappa_from_bytes(content)),
        "blake3" => Ok(format!("blake3:{}", blake3::hash(content).to_hex())),
        other => Err(format!("unsupported algorithm: {other}")),
    };
    axes.iter().map(address).collect()
}

struct FixedKms;

impl KeyManagementService for FixedKms {
    fn derive_subject_key(&self, namespace: &str, subject: &str) -> Result<Vec<u8>, CryptoError> {
        Ok(Sha256::digest(format!("{namespace}/{subject}")).to_vec())
    }

    fn erase_subject_key(&self, _namespace: &str, _subject: &str) -> Result<(), CryptoError> {
        Ok(())
    }
}

/// A store whose files are maps and whose clock is a number.
struct TestStore {
    core: PersistentStore,
    now: u128,
    staging: HashMap<String, Vec<u8>>,
    blobs: HashMap<String, Vec<u8>>,
    bindings: HashMap<String, (String, [u8; 8], u64)>,
    meta: HashMap<(String, String), Vec<u8>>,
    trace: Vec<String>,
    manifests: usize,
}

fn config() -> PersistentStoreConfig {
    let mut config = PersistentStoreConfig::new(PathBuf::from("blobs"), PathBuf::from("state.redb"));
    config.fsync = false;
    config
}

fn open(config: PersistentStoreConfig) -> TestStore {
    TestStore {
        core: PersistentStore::new(config, &FixedKms).unwrap(),
        now: 0,
        staging: HashMap::new(),
        blobs: HashMap::new(),
        bindings: HashMap::new(),
        meta: HashMap::new(),
        trace: Vec::new(),
        manifests: 0,
    }
}

fn new_store() -> TestStore {
    open(config())
}

fn new_store_with_timeout(timeout_secs: u64) -> TestStore {
    let mut config = config();
    config.upload_timeout_secs = Some(timeout_secs);
    open(config)
}

fn new_encrypted_store() -> TestStore {
    let mut config = config();
    config.encryption_key = Some([0x42u8; 32]);
    open(config)
}

impl TestStore {
    fn drop_refused(&mut self, id: &str, refusal: Refusal) -> StoreError {
        if refusal.remove_staging {
            self.staging.remove(id);
        }
        refusal.error
    }

    fn upload_begin(&mut self, ns: &str, max_size: u64) -> String {
        let id = new_upload_id();
        self.staging.insert(id.clone(), Vec::new());
        self.core.uploads.upload_begin(id.clone(), ns, max_size, self.now);
        id
    }

    fn upload_resume(&mut self, id: &str, ns: &str, max_size: u64) -> Result<u64, StoreError> {
        let staged = self.staging.get(id).map(|f| f.len() as u64);
        self.core
            .uploads
            .upload_resume(id, ns, max_size, staged, self.now)
            .map_err(|r| self.drop_refused(id, r))
    }

    fn upload_put_part(&mut self, id: &str, offset: u64, data: &[u8]) -> Result<u64, StoreError> {
        match self.core.uploads.upload_check_part(id, offset, data, self.now) {
            Err(refusal) => Err(self.drop_refused(id, refusal)),
            Ok(total) => {
                self.staging.get_mut(id).unwrap().extend_from_slice(data);
                self.core.uploads.upload_commit_part(id, data);
                Ok(total)
            }
        }
    }

    fn upload_complete(
        &mut self,
        id: &str,
        claimed: Option<&str>,
    ) -> Result<IngestResult, StoreError> {
        let parts = match self.core.uploads.upload_take(id, self.now) {
            Ok(parts) => parts,
            Err(refusal) => return Err(self.drop_refused(id, refusal)),
        };
        let content = self.staging[id].clone();
        let hashed = hash_all(&upload_axes(claimed, &vec![Axis::Sha256]), &content);
        let digest = hashed.as_ref().map(|all| all[0].clone()).unwrap_or_default();
        let sealed = match &self.core.blob_encryptor {
            Some(e) if hashed.is_ok() && check_digest(claimed, &digest).is_ok() => {
                Some(e.encrypt(&digest, &content).unwrap())
            }
            _ => None,
        };
        let source = match &sealed {
            Some(blob) => blob.disk_bytes.clone(),
            None => content,
        };
        let ciphertext = sealed.as_ref().map(|_| kappa_from_bytes(&source));
        let kappa = ciphertext.clone().unwrap_or(digest);
        let exists = self.blobs.contains_key(&kappa);
        let fsync = self.core.fsync;
        let plan = match decide_completion(claimed, hashed, ciphertext, exists, fsync, &parts) {
            Ok(plan) => plan,
            Err(refusal) => return Err(self.drop_refused(id, refusal)),
        };
        for step in plan.steps {
            self.trace.push(format!("{step:?}"));
            match step {
                CompletionStep::DiscardSource if sealed.is_none() => {
                    self.staging.remove(id);
                }
                CompletionStep::RenameSource => {
                    self.blobs.insert(kappa.clone(), source.clone());
                    if sealed.is_none() {
                        self.staging.remove(id);
                    }
                }
                CompletionStep::Bind(sigma) => {
                    let blob = sealed.as_ref().unwrap();
                    let record = (kappa.clone(), blob.base_nonce, blob.plaintext_size);
                    self.bindings.insert(sigma, record);
                }
                CompletionStep::RemoveStaging => {
                    self.staging.remove(id);
                }
                CompletionStep::Link(other) => {
                    self.blobs.entry(other).or_insert(source.clone());
                }
                CompletionStep::PutMeta(key, value) => {
                    self.meta.insert((kappa.clone(), key), value);
                }
                CompletionStep::PutManifest => self.manifests += 1,
                _ => {}
            }
        }
        Ok(plan.result)
    }

    fn upload_abort(&mut self, id: &str) {
        if self.core.uploads.upload_abort(id) {
            self.staging.remove(id);
        }
    }

    fn upload_bytes_received(&mut self, id: &str) -> Option<u64> {
        match self.core.uploads.upload_bytes_received(id, self.now) {
            Lookup::Found(n) => Some(n),
            Lookup::Missing => None,
            Lookup::Expired => {
                self.staging.remove(id);
                None
            }
        }
    }

    fn upload_evict_expired(&mut self, timeout_secs: u64) -> usize {
        let evicted = self.core.uploads.upload_evict_expired(timeout_secs, self.now);
        for id in &evicted {
            self.staging.remove(id);
        }
        evicted.len()
    }

    fn blob_get(&self, kappa: &str) -> Vec<u8> {
        match self.bindings.get(kappa) {
            Some((blob, nonce, size)) => {
                let enc = self.core.blob_encryptor.as_ref().unwrap();
                enc.decrypt_all(kappa, &self.blobs[blob], nonce, *size).unwrap()
            }
            None => self.blobs[kappa].clone(),
        }
    }

    fn blob_exists(&self, kappa: &str) -> bool {
        self.bindings.contains_key(kappa) || self.blobs.contains_key(kappa)
    }

    fn blob_size(&self, kappa: &str) -> u64 {
        match self.bindings.get(kappa) {
            Some((_, _, size)) => *size,
            None => self.blobs[kappa].len() as u64,
        }
    }

    fn reopen(self, config: PersistentStoreConfig) -> TestStore {
        let wiped = config.wipes_at_open(!self.staging.is_empty());
        let mut next = open(config);
        next.staging = if wiped { HashMap::new() } else { self.staging };
        next.blobs = self.blobs;
        next
    }
}

fn rejected(error: StoreError, text: &str) -> bool {
    matches!(error, StoreError::Rejected(t) if t == text)
}

fn not_found(error: StoreError, text: &str) -> bool {
    matches!(error, StoreError::NotFound(t) if t == text)
}

#[test]
fn upload_lifecycle_begin_put_complete() {
    let mut s = new_store();
    let content = b"streaming upload test content";
    let digest = kappa_from_bytes(content);

    let id = s.upload_begin("test-ns", 0);
    assert!(s.upload_bytes_received(&id).is_some());
    assert_eq!(s.upload_bytes_received(&id).unwrap(), 0);

    let total = s.upload_put_part(&id, 0, &content[..10]).unwrap();
    assert_eq!(total, 10);
    let total = s.upload_put_part(&id, 10, &content[10..]).unwrap();
    assert_eq!(total, content.len() as u64);

    let result = s.upload_complete(&id, Some(digest.as_str())).unwrap();
    assert_eq!(result.kappa, digest);
    assert!(result.newly_stored);

    assert_eq!(s.blob_get(&digest), content);
    assert!(s.upload_bytes_received(&id).is_none());
}

#[test]
fn upload_abort_cleans_up() {
    let mut s = new_store();
    let id = s.upload_begin("test-ns", 0);
    s.upload_put_part(&id, 0, b"some data").unwrap();
    s.upload_abort(&id);
    assert!(s.upload_bytes_received(&id).is_none());
    assert!(!s.staging.contains_key(&id));
    s.upload_abort(&id);
}

#[test]
fn upload_wrong_digest_rejected() {
    let mut s = new_store();
    let id = s.upload_begin("test-ns", 0);
    s.upload_put_part(&id, 0, b"real content").unwrap();
    let wrong = format!("sha256:{}", "0".repeat(64));
    let result = s.upload_complete(&id, Some(wrong.as_str()));
    assert!(result.is_err());
    let computed = kappa_from_bytes(b"real content");
    let text = format!("digest mismatch: expected {wrong}, computed {computed}");
    assert!(rejected(result.err().unwrap(), &text));
    assert!(!s.staging.contains_key(&id));
}

#[test]
fn upload_out_of_order_rejected() {
    let mut s = new_store();
    let id = s.upload_begin("test-ns", 0);
    s.upload_put_part(&id, 0, b"first").unwrap();
    let result = s.upload_put_part(&id, 10, b"wrong");
    assert!(result.is_err());
    let text = "out-of-order: expected offset 5, got 10";
    assert!(matches!(result.unwrap_err(), StoreError::Conflict(t) if t == text));
}

#[test]
fn upload_size_limit_enforced() {
    let mut s = new_store();
    let id = s.upload_begin("test-ns", 10);
    s.upload_put_part(&id, 0, b"12345").unwrap();
    let result = s.upload_put_part(&id, 5, b"678901");
    assert!(result.is_err());
    assert!(rejected(result.unwrap_err(), "upload exceeds max size 10"));
    assert_eq!(s.upload_put_part(&id, 5, b"67890").unwrap(), 10);
}

#[test]
fn upload_evict_expired() {
    let mut s = new_store();
    let _id = s.upload_begin("test-ns", 0);
    s.now += 50 * MILLI;
    let evicted = s.upload_evict_expired(0);
    assert_eq!(evicted, 1);
}

#[test]
fn upload_completes_with_fsync_on() {
    let config = PersistentStoreConfig::new(PathBuf::from("blobs"), PathBuf::from("state.redb"));
    assert!(config.fsync);
    let mut s = open(config);
    let id = s.upload_begin("fsync", 0);
    s.upload_put_part(&id, 0, b"durable").unwrap();
    let digest = kappa_from_bytes(b"durable");
    assert_eq!(s.upload_complete(&id, Some(digest.as_str())).unwrap().kappa, digest);
    assert_eq!(s.trace[..4], ["CreateBlobDir", "SyncSource", "RenameSource", "SyncBlobDir"]);
}

#[test]
fn upload_resumes_after_reopen_when_staging_is_preserved() {
    let preserving = || {
        let mut config = config();
        config.preserve_staging = true;
        config
    };
    let mut s = open(preserving());
    let id = s.upload_begin("resume", 0);
    s.upload_put_part(&id, 0, b"hello ").unwrap();
    assert!(!preserving().wipes_at_open(true));

    let mut s = s.reopen(preserving());
    assert_eq!(s.upload_bytes_received(&id), None, "sessions do not survive by themselves");
    assert_eq!(s.upload_resume(&id, "resume", 0).unwrap(), 6);
    assert_eq!(s.upload_resume(&id, "resume", 0).unwrap(), 6, "idempotent");
    s.upload_put_part(&id, 6, b"world").unwrap();
    let digest = kappa_from_bytes(b"hello world");
    let result = s.upload_complete(&id, Some(digest.as_str())).unwrap();
    assert_eq!(result.kappa, digest);
    assert_eq!(s.blob_get(&digest), b"hello world");
}

#[test]
fn upload_resume_refuses_paths_and_unknown_ids() {
    let mut s = new_store();
    assert!(s.upload_resume("../escape", "resume", 0).is_err());
    assert!(s.upload_resume("no-such-upload", "resume", 0).is_err());
    let error = s.upload_resume("../escape", "resume", 0).unwrap_err();
    assert!(rejected(error, "invalid upload id \"../escape\""));
    let error = s.upload_resume("a\\b", "resume", 0).unwrap_err();
    assert!(rejected(error, "invalid upload id \"a\\\\b\""));
    let error = s.upload_resume("no-such-upload", "resume", 0).unwrap_err();
    assert!(not_found(error, "upload no-such-upload"));
    for id in ["", ".", "..", "/", "a/b"] {
        assert!(!is_valid_upload_id(id));
        assert!(s.upload_resume(id, "resume", 0).is_err());
    }
    assert!(is_valid_upload_id("..."));
}

#[test]
fn staging_is_wiped_at_open_by_default() {
    let mut s = new_store();
    let id = s.upload_begin("resume", 0);
    s.upload_put_part(&id, 0, b"hello").unwrap();
    assert!(config().wipes_at_open(true));
    assert!(!config().wipes_at_open(false));
    let mut s = s.reopen(config());
    assert!(s.staging.is_empty());
    assert!(s.upload_resume(&id, "resume", 0).is_err(), "default behaviour is unchanged");
}

#[test]
fn upload_lifecycle_encrypted() {
    let mut s = new_encrypted_store();
    let content = b"encrypted streaming upload test content here";
    let digest = kappa_from_bytes(content);

    let id = s.upload_begin("test-ns", 0);
    s.upload_put_part(&id, 0, &content[..20]).unwrap();
    s.upload_put_part(&id, 20, &content[20..]).unwrap();

    let result = s.upload_complete(&id, Some(digest.as_str())).unwrap();
    assert!(result.newly_stored);
    assert!(s.blob_exists(&digest));
    assert_eq!(s.blob_get(&digest), content);
    assert_eq!(s.blob_size(&digest), content.len() as u64);
    assert!(!s.staging.contains_key(&id));

    let kappa = &result.kappa;
    assert_ne!(kappa, &digest, "kappa should differ from sigma under encryption");
    let raw_disk = &s.blobs[kappa];
    assert_ne!(raw_disk, content, "raw file must be ciphertext, not plaintext");
    assert!(raw_disk.len() > 16, "ciphertext should include tag overhead");
}

#[test]
fn upload_encrypted_wrong_digest_rejected() {
    let mut s = new_encrypted_store();
    let id = s.upload_begin("test-ns", 0);
    s.upload_put_part(&id, 0, b"real content").unwrap();
    let wrong = format!("sha256:{}", "0".repeat(64));
    let result = s.upload_complete(&id, Some(wrong.as_str()));
    assert!(result.is_err());
}

#[test]
fn upload_put_part_on_expired_session() {
    let mut s = new_store_with_timeout(0);
    let id = s.upload_begin("ns", 0);
    s.now += 50 * MILLI;
    let result = s.upload_put_part(&id, 0, b"data");
    assert!(result.is_err());
    assert!(not_found(result.unwrap_err(), &format!("upload {id} expired")));
    assert!(!s.staging.contains_key(&id));
    let gone = s.upload_put_part(&id, 0, b"data").unwrap_err();
    assert!(not_found(gone, &format!("upload {id}")));
}

#[test]
fn upload_complete_on_expired_session() {
    let mut s = new_store_with_timeout(1);
    let id = s.upload_begin("ns", 0);
    s.upload_put_part(&id, 0, b"data").unwrap();
    s.now += 1100 * MILLI;
    let result = s.upload_complete(&id, None);
    assert!(result.is_err());
    assert!(not_found(result.err().unwrap(), &format!("upload {id} expired")));
    assert!(not_found(s.upload_complete(&id, None).err().unwrap(), &format!("upload {id}")));
}

#[test]
fn upload_bytes_received_on_expired_session() {
    let mut s = new_store_with_timeout(0);
    let id = s.upload_begin("ns", 0);
    s.now += 50 * MILLI;
    assert!(s.upload_bytes_received(&id).is_none());
}

#[test]
fn upload_namespace_on_expired_session() {
    let mut s = new_store_with_timeout(0);
    let id = s.upload_begin("ns", 0);
    assert!(matches!(s.core.uploads.upload_namespace(&id, 0), Lookup::Found(ns) if ns == "ns"));
    let found = s.core.uploads.upload_namespace(&id, 50 * MILLI);
    assert!(matches!(found, Lookup::Expired));
    assert!(matches!(s.core.uploads.upload_namespace(&id, 0), Lookup::Missing));
}

#[test]
fn upload_evict_expired_returns_correct_count() {
    let mut s = new_store_with_timeout(0);
    for _ in 0..5 {
        s.upload_begin("ns", 0);
    }
    s.now += 50 * MILLI;
    assert_eq!(s.upload_evict_expired(0), 5);
}

#[test]
fn upload_evict_expired_preserves_active() {
    let mut s = new_store_with_timeout(10);
    s.upload_begin("ns", 0);
    s.upload_begin("ns", 0);
    s.now += 50 * MILLI;
    assert_eq!(s.upload_evict_expired(10), 0);
}

#[test]
fn upload_staging_file_removed_on_expiry_eviction() {
    let mut s = new_store_with_timeout(1);
    let id = s.upload_begin("ns", 0);
    s.upload_put_part(&id, 0, b"staging data").unwrap();
    assert!(s.staging.contains_key(&id), "staging file should exist after put_part");
    s.now += 1100 * MILLI;
    s.upload_evict_expired(0);
    assert!(!s.staging.contains_key(&id), "staging file should be removed after eviction");
}

#[test]
fn a_session_is_too_old_only_past_the_timeout() {
    let mut sessions = UploadSessions::new(Some(2));
    sessions.upload_begin("u".to_string(), "ns", 0, 5 * SECOND);
    assert!(matches!(sessions.upload_bytes_received("u", 7 * SECOND), Lookup::Found(0)));
    assert!(matches!(sessions.upload_bytes_received("u", 4 * SECOND), Lookup::Found(0)));
    assert!(matches!(sessions.upload_bytes_received("u", 7 * SECOND + 1), Lookup::Expired));
    assert!(matches!(sessions.upload_bytes_received("u", 7 * SECOND), Lookup::Missing));
}

#[test]
fn an_expired_session_is_refused_on_resume_and_listing() {
    let mut sessions = UploadSessions::new(Some(1));
    sessions.upload_begin("u".to_string(), "ns", 0, 0);
    sessions.upload_begin("v".to_string(), "ns", 0, 0);
    let refusal = sessions.upload_resume("u", "ns", 0, Some(0), 2 * SECOND).unwrap_err();
    assert!(refusal.remove_staging);
    assert!(not_found(refusal.error, "upload u expired"));
    assert!(matches!(sessions.upload_part_info("v", 2 * SECOND), Lookup::Expired));
    assert!(matches!(sessions.upload_part_info("v", 2 * SECOND), Lookup::Missing));
}

#[test]
fn eviction_takes_the_old_and_leaves_the_rest() {
    let mut sessions = UploadSessions::new(None);
    for (id, at) in [("a", 0), ("b", 5), ("c", 1), ("d", 9)] {
        sessions.upload_begin(id.to_string(), "ns", 0, at * SECOND);
    }
    let mut evicted = sessions.upload_evict_expired(3, 5 * SECOND);
    evicted.sort();
    assert_eq!(evicted, ["a", "c"]);
    assert!(matches!(sessions.upload_bytes_received("b", 0), Lookup::Found(0)));
    assert!(matches!(sessions.upload_bytes_received("d", 0), Lookup::Found(0)));
}

#[test]
fn parts_are_numbered_and_follow_each_other() {
    let mut s = new_store();
    let id = s.upload_begin("ns", 0);
    s.upload_put_part(&id, 0, b"hello ").unwrap();
    s.upload_put_part(&id, 6, b"world").unwrap();
    let rows = match s.core.uploads.upload_part_info(&id, 0) {
        Lookup::Found(rows) => rows,
        _ => panic!("the session is there"),
    };
    assert_eq!(
        rows,
        [
            (1, "f814893777bcc2295fff05f00e508da6".to_string(), 6),
            (2, "7d793037a0760186574b0282f2f435e7".to_string(), 5),
        ]
    );
    let parts = s.core.uploads.upload_take(&id, 0).unwrap();
    assert_eq!((parts[0].part_number, parts[0].offset, parts[0].size), (1, 0, 6));
    assert_eq!((parts[1].part_number, parts[1].offset, parts[1].size), (2, 6, 5));
}

#[test]
fn checksums_of_the_parts_combine_to_that_of_the_whole() {
    let whole = PartDigests::of(1, 0, b"123456789");
    assert_eq!(whole.crc32c, 0xe3069283);
    assert_eq!(whole.crc64nvme, 0xae8b14860a799888);
    let parts = [
        PartDigests::of(1, 0, b"1234"),
        PartDigests::of(2, 4, b""),
        PartDigests::of(3, 4, b"56789"),
    ];
    assert_eq!(combined_crc(Crc::Crc32c, &parts), Some(0xe3069283));
    assert_eq!(combined_crc(Crc::Crc64Nvme, &parts), Some(0xae8b14860a799888));
    assert_eq!(combined_crc(Crc::Crc32c, &[]), None);
}

#[test]
fn composite_etag_is_the_digest_of_digests() {
    let parts = [PartDigests::of(1, 0, b"hello "), PartDigests::of(2, 6, b"world")];
    let etag = compute_composite_etag(&parts).unwrap();
    assert_eq!(etag, "\"e09e4fd6265b36115fe3db32df945d84-2\"");
    assert_eq!(compute_composite_etag(&[]), None);
    assert_eq!(etag_text(&[0xab; 16], 12), format!("\"{}-12\"", "ab".repeat(16)));
}

#[test]
fn completion_keeps_checksums_and_a_manifest() {
    let mut s = new_store();
    let id = s.upload_begin("ns", 0);
    s.upload_put_part(&id, 0, b"1234").unwrap();
    s.upload_put_part(&id, 4, b"56789").unwrap();
    let result = s.upload_complete(&id, None).unwrap();
    assert!(result.etag.unwrap().ends_with("-2\""));
    let meta = |key: &str| s.meta[&(result.kappa.clone(), key.to_string())].clone();
    assert_eq!(meta("_s3_checksum_crc32c"), [0xe3, 0x06, 0x92, 0x83]);
    assert_eq!(meta("_s3_checksum_crc64nvme"), 0xae8b14860a799888u64.to_be_bytes());
    assert_eq!(s.manifests, 1);
}

#[test]
fn an_upload_without_parts_has_neither_etag_nor_manifest() {
    let mut s = new_store();
    let id = s.upload_begin("ns", 0);
    let result = s.upload_complete(&id, None).unwrap();
    assert_eq!(result.kappa, kappa_from_bytes(b""));
    assert!(result.etag.is_none());
    assert_eq!(s.trace, ["CreateBlobDir", "RenameSource"]);
    assert!(part_manifest(&[]).is_none());
}

#[test]
fn content_that_is_there_is_not_stored_again() {
    let mut s = new_store();
    for newly_stored in [true, false] {
        let id = s.upload_begin("ns", 0);
        s.upload_put_part(&id, 0, b"same").unwrap();
        assert_eq!(s.upload_complete(&id, None).unwrap().newly_stored, newly_stored);
        assert!(s.staging.is_empty());
    }
}

#[test]
fn every_additional_address_is_linked_or_bound() {
    let more = || vec!["x:1".to_string(), "y:2".to_string()];
    let names = |steps: Vec<CompletionStep>| -> Vec<String> {
        steps.iter().map(|step| format!("{step:?}")).collect()
    };
    let hashed = || Ok(vec!["sha256:d".to_string(), "x:1".to_string(), "y:2".to_string()]);
    let plain = decide_completion(None, hashed(), None, true, true, &[]).ok().unwrap();
    assert_eq!(names(plain.steps), ["DiscardSource", "Link(\"x:1\")", "Link(\"y:2\")"]);
    assert_eq!(plain.result.kappa, "sha256:d");
    assert_eq!(plain.result.additional_kappas, more());
    let ciphertext = Some("sha256:c".to_string());
    let sealed =
        decide_completion(Some("sha256:d"), hashed(), ciphertext, false, true, &[]).ok().unwrap();
    assert_eq!(
        names(sealed.steps),
        [
            "CreateBlobDir",
            "SyncSource",
            "RenameSource",
            "SyncBlobDir",
            "Bind(\"sha256:d\")",
            "Bind(\"x:1\")",
            "Bind(\"y:2\")",
            "RemoveStaging",
        ]
    );
    assert_eq!(sealed.result.kappa, "sha256:c");
    assert!(sealed.result.newly_stored);
}

#[test]
fn manifest_rows_describe_the_parts() {
    let parts = [PartDigests::of(1, 0, b"hello "), PartDigests::of(2, 6, b"world")];
    let rows = part_manifest(&parts).unwrap();
    assert_eq!(rows.len(), 2);
    assert_eq!(rows[1].part_number, 2);
    assert_eq!(rows[1].offset, 6);
    assert_eq!(rows[1].size, 5);
    assert_eq!(rows[1].md5, "7d793037a0760186574b0282f2f435e7");
    assert_eq!(rows[1].crc32c, parts[1].crc32c);
    assert_eq!(rows[1].crc64nvme, parts[1].crc64nvme);
}

#[test]
fn the_claimed_algorithm_comes_first_and_none_twice() {
    let mandatory = vec![Axis::Sha256, Axis::Named("blake3".to_string())];
    assert_eq!(upload_axes(Some("sha512:ab:cd"), &mandatory), ["sha512", "sha256", "blake3"]);
    assert_eq!(upload_axes(Some("blake3:ab"), &mandatory), ["blake3", "sha256"]);
    assert_eq!(upload_axes(None, &mandatory), ["sha256", "blake3"]);
    assert_eq!(digest_algorithm(Some("no colon")), "sha256");
    assert_eq!(digest_algorithm(Some(":x")), "");
}

#[test]
fn drawn_ids_can_be_file_names() {
    let id = new_upload_id();
    assert_eq!(id.len(), 36);
    assert!(is_valid_upload_id(&id));
    for (i, c) in id.chars().enumerate() {
        match i {
            8 | 13 | 18 | 23 => assert_eq!(c, '-'),
            14 => assert_eq!(c, '4'),
            19 => assert!("89ab".contains(c)),
            _ => assert!(c.is_ascii_hexdigit() && !c.is_ascii_uppercase()),
        }
    }
    assert_ne!(id, new_upload_id());
}

#[test]
fn a_store_with_a_key_has_both_encryptors() {
    let s = new_encrypted_store();
    assert!(s.core.blob_encryptor.is_some());
    assert!(s.core.table_encryptor.is_some());
    let plain = new_store();
    assert!(plain.core.blob_encryptor.is_none());
    assert!(plain.core.links_additional() && !s.core.links_additional());
    assert!(plain.core.table_encryptor.is_none());
    let mut keyed = config();
    keyed.encryption_key = Some([1; 32]);
    let failed = PersistentStore::from_derived(keyed, Err(CryptoError::InvalidKey));
    assert!(matches!(failed, Err(StoreError::Io(t)) if t == "invalid key"));
}

#[test]
fn a_part_row_holds_the_bare_digest() {
    let mut s = new_store();
    let id = s.upload_begin("ns", 0);
    s.upload_put_part(&id, 0, b"hello").unwrap();
    let rows = s.core.uploads.upload_part_info(&id, 0);
    let expected = [(1, "5d41402abc4b2a76b9719d911017c592".to_string(), 5)];
    assert!(matches!(rows, Lookup::Found(rows) if rows == expected));
    assert!(matches!(s.core.uploads.upload_part_info("other", 0), Lookup::Missing));
}

#[test]
fn content_that_cannot_be_hashed_is_rejected_and_its_staging_goes() {
    for mut s in [new_store(), new_encrypted_store()] {
        let id = s.upload_begin("ns", 0);
        s.upload_put_part(&id, 0, b"data").unwrap();
        let error = s.upload_complete(&id, Some("nosuch:00")).err().unwrap();
        assert!(rejected(error, "unsupported algorithm: nosuch"));
        assert!(!s.staging.contains_key(&id));
        assert_eq!(s.upload_bytes_received(&id), None);
        let error = s.upload_resume(&id, "ns", 0).unwrap_err();
        assert!(not_found(error, &format!("upload {id}")));
        assert!(s.blobs.is_empty() && s.trace.is_empty());
    }
}

#[test]
fn completed_content_stands_under_every_address() {
    let content = b"one content, two addresses";
    let sha256 = kappa_from_bytes(content);
    let blake3 = format!("blake3:{}", blake3::hash(content).to_hex());
    for mut s in [new_store(), new_encrypted_store()] {
        let id = s.upload_begin("ns", 0);
        s.upload_put_part(&id, 0, content).unwrap();
        let result = s.upload_complete(&id, Some(blake3.as_str())).unwrap();
        assert_eq!(result.additional_kappas, [sha256.clone()]);
        assert_eq!(s.blob_get(&blake3), content);
        assert!(s.staging.is_empty());
        if s.core.blob_encryptor.is_none() {
            assert_eq!(result.kappa, blake3);
            assert_eq!(s.blob_get(&sha256), content);
        } else {
            assert_eq!(s.bindings[&sha256].0, result.kappa);
            assert_eq!(s.bindings[&sha256], s.bindings[&blake3]);
        }
    }
}

#[test]
fn refused_parts_leave_the_session_as_it_was() {
    let mut s = new_store();
    let id = s.upload_begin("ns", 8);
    let other = s.upload_begin("ns", 0);
    s.upload_put_part(&id, 0, b"hello").unwrap();
    assert!(matches!(s.upload_put_part(&id, 4, b"x").unwrap_err(), StoreError::Conflict(_)));
    assert!(matches!(s.upload_put_part(&id, 5, b"wide").unwrap_err(), StoreError::Rejected(_)));
    assert_eq!(s.upload_bytes_received(&id), Some(5));
    assert_eq!(s.staging[&id], b"hello");
    assert_eq!(s.upload_put_part(&id, 5, b"abc").unwrap(), 8);
    assert_eq!(s.staging[&id], b"helloabc");
    assert_eq!(s.upload_bytes_received(&other), Some(0));
    let parts = s.core.uploads.upload_take(&id, 0).unwrap();
    assert_eq!(parts.len(), 2);
}
