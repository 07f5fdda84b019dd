//! What the store trait provides, over a store kept in memory.

use kappa_store::store::{
    blob_put_computed, judge_read, resolve_or_create, IngestResult, KappaStore, NamespaceRecord,
    StoreBackend,
};
use kappa_store::types::{Axis, NamespaceRef, StoreError};
use kappa_store::verified::{ContentAddressing, VerifiedContent};
use sha2::{Digest, Sha256};
use std::collections::HashMap;
use std::io::{Cursor, Read};
use std::sync::Mutex;

#[derive(Debug, Clone, Copy, PartialEq, Eq)]
enum EdgeRelation {
    Owns,
    DerivedFrom,
    RefersTo,
}

#[derive(Debug, Clone)]
struct Edge {
    source: String,
    target: String,
    relation: EdgeRelation,
    asserter: String,
}

enum Direction {
    Outbound,
    Inbound,
}

struct EdgeQuery {
    anchor: String,
    direction: Direction,
    relation: Option<EdgeRelation>,
}

#[derive(Default)]
struct MemoryStore {
    blobs: Mutex<HashMap<String, Vec<u8>>>,
    edges: Mutex<Vec<(String, Edge)>>,
    namespaces: Mutex<Vec<String>>,
    lose_race: bool,
    more_axes: bool,
    links: Mutex<Vec<(String, String)>>,
    link: bool,
}

fn address(axis: &str, content: &[u8]) -> Result<String, String> {
    match axis {
        "sha256" => Ok(format!("sha256:{}", hex::encode(Sha256::digest(content)))),
        "blake3" => Ok(format!("blake3:{}", blake3::hash(content).to_hex())),
        _ => Err(format!("unknown axis {axis}")),
    }
}

fn kappa_from_bytes(content: &[u8]) -> String {
    address("sha256", content).unwrap()
}

fn missing(kappa: &str) -> StoreError {
    StoreError::NotFound(kappa.to_string())
}

fn unsupported<T>() -> Result<T, StoreError> {
    Err(StoreError::Rejected("unsupported".to_string()))
}

impl ContentAddressing for MemoryStore {
    fn verify_content(&self, claimed: &str, content: &[u8]) -> Result<Axis, String> {
        let axis = claimed.split(':').next().unwrap_or("").to_string();
        if address(&axis, content)? != claimed {
            return Err(format!("mismatch: {claimed}"));
        }
        Ok(Axis::Named(axis))
    }

    fn compute_content(&self, axis: &Axis, content: &[u8]) -> Result<String, String> {
        address(axis.as_str(), content)
    }

    fn verify_kappa(&self, kappa: &str, content: &[u8]) -> Result<bool, String> {
        Ok(address(kappa.split(':').next().unwrap_or(""), content)? == kappa)
    }
}

impl StoreBackend for MemoryStore {
    type Edge = Edge;
    type Reader = Cursor<Vec<u8>>;

    fn mandatory_axes(&self) -> Vec<Axis> {
        if self.more_axes {
            vec![Axis::Sha256, Axis::Named("blake3".to_string())]
        } else {
            vec![Axis::Sha256]
        }
    }

    fn blob_put_verified(&self, content: &VerifiedContent) -> Result<bool, StoreError> {
        let mut blobs = self.blobs.lock().unwrap();
        Ok(blobs.insert(content.kappa().to_string(), content.content().to_vec()).is_none())
    }

    fn blob_put_additional(&self, primary: &str, content: &VerifiedContent) -> Result<(), StoreError> {
        if self.link {
            assert!(self.blobs.lock().unwrap().contains_key(primary));
            self.links.lock().unwrap().push((primary.to_string(), content.kappa().to_string()));
        } else {
            self.blob_put_verified(content)?;
        }
        Ok(())
    }

    fn blob_get(&self, kappa: &str) -> Result<Vec<u8>, StoreError> {
        self.blobs.lock().unwrap().get(kappa).cloned().ok_or_else(|| missing(kappa))
    }

    fn reader_over(&self, content: Vec<u8>) -> Cursor<Vec<u8>> {
        Cursor::new(content)
    }

    fn edge_put(&self, ns: &NamespaceRef, edge: &Edge) -> Result<(), StoreError> {
        if edge.asserter.is_empty() {
            return Err(StoreError::Rejected(format!("no asserter for {}", edge.source)));
        }
        self.edges.lock().unwrap().push((ns.as_str().to_string(), edge.clone()));
        Ok(())
    }
}

impl KappaStore for MemoryStore {
    type EdgeQuery = EdgeQuery;
    type EdgeRelation = EdgeRelation;
    type TagEntry = ();
    type TagUpdate = ();
    type EpochMutation = ();
    type EpochRoot = ();
    type VersionEntry = ();
    type DeleteResult = ();
    type IdentityBinding = ();
    type IdentitySuccession = ();

    fn blob_exists(&self, kappa: &str) -> Result<bool, StoreError> {
        Ok(self.blobs.lock().unwrap().contains_key(kappa))
    }
    fn blob_delete(&self, _: &str) -> Result<(), StoreError> {
        unsupported()
    }
    fn blob_size(&self, kappa: &str) -> Result<u64, StoreError> {
        Ok(self.blob_get(kappa)?.len() as u64)
    }
    fn blob_get_range(&self, _: &str, _: u64, _: u64) -> Result<Vec<u8>, StoreError> {
        unsupported()
    }
    fn blob_list(&self) -> Result<Vec<String>, StoreError> {
        unsupported()
    }
    fn blob_put_meta(&self, _: &str, _: &str, _: &[u8]) -> Result<(), StoreError> {
        unsupported()
    }
    fn blob_get_meta(&self, _: &str, _: &str) -> Result<Vec<u8>, StoreError> {
        unsupported()
    }
    fn blob_delete_meta(&self, _: &str, _: &str) -> Result<(), StoreError> {
        unsupported()
    }
    fn meta_set(&self, _: &NamespaceRef, _: &str, _: &str, _: &str) -> Result<(), StoreError> {
        unsupported()
    }
    fn meta_query(&self, _: &NamespaceRef, _: &str, _: &str) -> Result<Vec<String>, StoreError> {
        unsupported()
    }
    fn tag_set(&self, _: &NamespaceRef, _: &str, _: &str) -> Result<u64, StoreError> {
        unsupported()
    }
    fn tag_get(&self, _: &NamespaceRef, _: &str) -> Result<(), StoreError> {
        unsupported()
    }
    fn tag_delete(&self, _: &NamespaceRef, _: &str) -> Result<(), StoreError> {
        unsupported()
    }
    fn tag_list(&self, _: &NamespaceRef) -> Result<Vec<()>, StoreError> {
        unsupported()
    }
    fn tag_prefix(&self, _: &NamespaceRef, _: &str) -> Result<Vec<()>, StoreError> {
        unsupported()
    }
    fn tag_set_batch(&self, _: &NamespaceRef, _: &[()]) -> Result<(), StoreError> {
        unsupported()
    }
    fn edge_query(&self, ns: &NamespaceRef, query: &EdgeQuery) -> Result<Vec<Edge>, StoreError> {
        let edges = self.edges.lock().unwrap();
        let matching = edges.iter().filter(|(name, edge)| {
            let end = match query.direction {
                Direction::Outbound => &edge.source,
                Direction::Inbound => &edge.target,
            };
            name == ns.as_str()
                && end == &query.anchor
                && query.relation.map_or(true, |relation| relation == edge.relation)
        });
        Ok(matching.map(|(_, edge)| edge.clone()).collect())
    }
    fn edge_delete(&self, _: &NamespaceRef, _: &str, _: &str, _: EdgeRelation) -> Result<(), StoreError> {
        unsupported()
    }
    fn sequence_next(&self, _: &NamespaceRef, _: &str) -> Result<u64, StoreError> {
        unsupported()
    }
    fn sequence_current(&self, _: &NamespaceRef, _: &str) -> Result<u64, StoreError> {
        unsupported()
    }
    fn epoch_advance(&self, _: &NamespaceRef, _: Vec<()>) -> Result<String, StoreError> {
        unsupported()
    }
    fn epoch_current(&self, _: &NamespaceRef) -> Result<Option<String>, StoreError> {
        unsupported()
    }
    fn epoch_get(&self, _: &str) -> Result<(), StoreError> {
        unsupported()
    }
    fn upload_begin(&self, _: &NamespaceRef, _: u64) -> Result<String, StoreError> {
        unsupported()
    }
    fn upload_put_part(&self, _: &str, _: u64, _: &[u8]) -> Result<u64, StoreError> {
        unsupported()
    }
    fn upload_complete(&self, _: &str, _: Option<&str>) -> Result<IngestResult, StoreError> {
        unsupported()
    }
    fn upload_abort(&self, _: &str) -> Result<(), StoreError> {
        unsupported()
    }
    fn upload_bytes_received(&self, _: &str) -> Option<u64> {
        None
    }
    fn upload_namespace(&self, _: &str) -> Option<String> {
        None
    }
    fn upload_evict_expired(&self, _: u64) -> usize {
        0
    }
    fn ingest_compressed(&self, _: &str, _: &[u8], _: &str, _: u64) -> Result<IngestResult, StoreError> {
        unsupported()
    }
    fn blob_open_compressed(&self, _: &str) -> Result<Cursor<Vec<u8>>, StoreError> {
        unsupported()
    }
    fn blob_open_decompressed(&self, _: &str) -> Result<Cursor<Vec<u8>>, StoreError> {
        unsupported()
    }
    fn namespace_create(&self, name: &str, _: &str, _: Option<&str>) -> Result<NamespaceRef, StoreError> {
        self.namespaces.lock().unwrap().push(name.to_string());
        if self.lose_race {
            return Err(StoreError::Conflict(name.to_string()));
        }
        if name.is_empty() {
            return Err(StoreError::Rejected("no name".to_string()));
        }
        Ok(NamespaceRef::new(format!("new-{name}")))
    }
    fn namespace_resolve(&self, name: &str, _: Option<&str>) -> Result<NamespaceRef, StoreError> {
        if name == "broken" {
            return Err(StoreError::Io("disk".to_string()));
        }
        if self.namespaces.lock().unwrap().iter().any(|n| n == name) {
            Ok(NamespaceRef::new(format!("old-{name}")))
        } else {
            Err(missing(name))
        }
    }
    fn namespace_resolve_or_create(&self, name: &str, owner: &str, protocol: Option<&str>) -> Result<NamespaceRef, StoreError> {
        resolve_or_create(self, name, owner, protocol)
    }
    fn namespace_list(&self, _: Option<&str>) -> Result<Vec<NamespaceRecord>, StoreError> {
        unsupported()
    }
    fn namespace_exists(&self, _: &str, _: Option<&str>) -> Result<bool, StoreError> {
        unsupported()
    }
}

fn new_store() -> MemoryStore {
    MemoryStore::default()
}

fn ns() -> NamespaceRef {
    NamespaceRef::new("ns".to_string())
}

fn edge(source: &str, target: &str, relation: EdgeRelation) -> Edge {
    Edge { source: source.into(), target: target.into(), relation, asserter: "a".into() }
}

fn refused<T>(result: Result<T, StoreError>, text: &str) -> bool {
    matches!(result, Err(StoreError::Rejected(t)) if t == text)
}

#[test]
fn blob_roundtrip() {
    let s = new_store();
    let k = kappa_from_bytes(b"hello");
    assert!(s.ingest_verified(&k, b"hello").unwrap().newly_stored);
    assert_eq!(s.blob_get(&k).unwrap(), b"hello");
    assert!(!s.ingest_verified(&k, b"hello").unwrap().newly_stored);
}

#[test]
fn blob_open_returns_file_for_existing() {
    let s = new_store();
    let k = kappa_from_bytes(b"open-test");
    s.ingest_verified(&k, b"open-test").unwrap();
    let mut file = s.blob_open(&k).unwrap();
    let mut buf = Vec::new();
    file.read_to_end(&mut buf).unwrap();
    assert_eq!(buf, b"open-test");
}

#[test]
fn blob_open_not_found_for_missing() {
    let s = new_store();
    let result = s.blob_open("sha256:0000000000000000000000000000000000000000000000000000000000000000");
    assert!(result.is_err());
}

#[test]
fn blob_open_content_matches_blob_get() {
    let s = new_store();
    let content: Vec<u8> = (0..4096).map(|i| (i % 251) as u8).collect();
    let k = kappa_from_bytes(&content);
    s.ingest_verified(&k, &content).unwrap();

    let get_result = s.blob_get(&k).unwrap();
    let mut file = s.blob_open(&k).unwrap();
    let mut open_result = Vec::new();
    file.read_to_end(&mut open_result).unwrap();
    assert_eq!(get_result, open_result);
}

#[test]
fn blob_open_file_at_start() {
    let s = new_store();
    let k = kappa_from_bytes(b"position-test");
    s.ingest_verified(&k, b"position-test").unwrap();
    let file = s.blob_open(&k).unwrap();
    assert_eq!(file.position(), 0, "file should be positioned at start");
}

#[test]
fn edge_put_batch_empty() {
    let s = new_store();
    s.edge_put_batch(&ns(), &[]).unwrap();
}

#[test]
fn edge_put_batch_single() {
    let s = new_store();
    let edge = edge("sha256:bsrc", "sha256:btgt", EdgeRelation::Owns);
    s.edge_put_batch(&ns(), &[edge]).unwrap();
    let q = EdgeQuery { anchor: "sha256:bsrc".into(), direction: Direction::Outbound, relation: None };
    assert_eq!(s.edge_query(&ns(), &q).unwrap().len(), 1);
}

#[test]
fn edge_put_batch_multiple() {
    let s = new_store();
    let edges: Vec<Edge> = (0..10)
        .map(|i| edge(&format!("sha256:bs{i}"), &format!("sha256:bt{i}"), EdgeRelation::RefersTo))
        .collect();
    s.edge_put_batch(&ns(), &edges).unwrap();
    for i in 0..10 {
        let q = EdgeQuery { anchor: format!("sha256:bs{i}"), direction: Direction::Outbound, relation: None };
        assert_eq!(s.edge_query(&ns(), &q).unwrap().len(), 1);
    }
}

#[test]
fn edge_put_batch_large() {
    let s = new_store();
    let edges: Vec<Edge> = (0..500)
        .map(|i| edge("sha256:broot", &format!("sha256:bdep{i}"), EdgeRelation::RefersTo))
        .collect();
    s.edge_put_batch(&ns(), &edges).unwrap();
    let q = EdgeQuery {
        anchor: "sha256:broot".into(),
        direction: Direction::Outbound,
        relation: Some(EdgeRelation::RefersTo),
    };
    assert_eq!(s.edge_query(&ns(), &q).unwrap().len(), 500);
}

#[test]
fn edge_put_batch_mixed_relations() {
    let s = new_store();
    let edges = vec![
        edge("s", "t1", EdgeRelation::Owns),
        edge("s", "t2", EdgeRelation::DerivedFrom),
        edge("s", "t3", EdgeRelation::RefersTo),
    ];
    s.edge_put_batch(&ns(), &edges).unwrap();
    let q = EdgeQuery {
        anchor: "s".into(),
        direction: Direction::Outbound,
        relation: Some(EdgeRelation::DerivedFrom),
    };
    assert_eq!(s.edge_query(&ns(), &q).unwrap().len(), 1);
}

#[test]
fn edge_put_batch_all_queryable_by_target() {
    let s = new_store();
    let edges: Vec<Edge> = (0..5)
        .map(|i| edge(&format!("sha256:bsrc{i}"), "sha256:bshared", EdgeRelation::RefersTo))
        .collect();
    s.edge_put_batch(&ns(), &edges).unwrap();
    let q = EdgeQuery { anchor: "sha256:bshared".into(), direction: Direction::Inbound, relation: None };
    assert_eq!(s.edge_query(&ns(), &q).unwrap().len(), 5);
}

#[test]
fn edge_batch_ends_at_the_first_error() {
    let s = new_store();
    let mut edges = vec![
        edge("s1", "t", EdgeRelation::Owns),
        edge("s2", "t", EdgeRelation::Owns),
        edge("s3", "t", EdgeRelation::Owns),
    ];
    edges[1].asserter.clear();
    assert!(refused(s.edge_put_batch(&ns(), &edges), "no asserter for s2"));
    assert_eq!(s.edges.lock().unwrap().len(), 1);
}

#[test]
fn a_false_claim_is_rejected() {
    let s = new_store();
    let claimed = kappa_from_bytes(b"one");
    assert!(refused(s.ingest_verified(&claimed, b"two"), &format!("mismatch: {claimed}")));
    assert!(s.blobs.lock().unwrap().is_empty());
}

#[test]
fn mandatory_axes_are_stored_but_for_the_client_axis() {
    let s = MemoryStore { more_axes: true, ..MemoryStore::default() };
    let sha = kappa_from_bytes(b"data");
    let blake = address("blake3", b"data").unwrap();

    let result = s.ingest_verified(&sha, b"data").unwrap();
    assert_eq!(result.kappa, sha);
    assert_eq!(result.additional_kappas, [blake.clone()]);
    assert!(result.etag.is_none());

    let result = s.ingest_compute(Axis::Named("blake3".to_string()), b"data").unwrap();
    assert_eq!(result.kappa, blake);
    assert_eq!(result.additional_kappas, [sha.clone()]);
    assert!(!result.newly_stored);
    assert!(s.blob_exists(&sha).unwrap() && s.blob_exists(&blake).unwrap());

    let unknown = s.ingest_compute(Axis::Named("crc".to_string()), b"data");
    assert!(refused(unknown, "unknown axis crc"));
}

#[test]
fn a_linking_store_stores_content_once() {
    let s = MemoryStore { more_axes: true, link: true, ..MemoryStore::default() };
    let sha = kappa_from_bytes(b"data");
    let blake = address("blake3", b"data").unwrap();
    let result = s.ingest_verified(&blake, b"data").unwrap();
    assert_eq!(result.additional_kappas, [sha.clone()]);
    assert_eq!(s.blobs.lock().unwrap().len(), 1);
    assert_eq!(*s.links.lock().unwrap(), [(blake, sha)]);
}

#[test]
fn computing_and_storing_gives_the_sha256_address() {
    let s = new_store();
    assert_eq!(blob_put_computed(&s, b"hello").unwrap(), kappa_from_bytes(b"hello"));
    assert_eq!(s.blob_get(&kappa_from_bytes(b"hello")).unwrap(), b"hello");
}

#[test]
fn a_verified_read_checks_the_address() {
    let s = new_store();
    let k = blob_put_computed(&s, b"good").unwrap();
    assert_eq!(s.blob_get_verified(&k).unwrap(), b"good");
    s.blobs.lock().unwrap().insert(k.clone(), b"bad".to_vec());
    let text = format!("integrity failure: content at {k} does not match its address");
    assert!(refused(s.blob_get_verified(&k), &text));
    s.blobs.lock().unwrap().insert("odd:1".to_string(), Vec::new());
    let text = "integrity check failed for odd:1: unknown axis odd";
    assert!(refused(s.blob_get_verified("odd:1"), text));
    assert!(matches!(s.blob_get_verified("none"), Err(StoreError::NotFound(_))));
}

#[test]
fn a_read_is_judged_by_its_check() {
    assert_eq!(judge_read("k", vec![1, 2], Ok(true)).unwrap(), [1, 2]);
    assert!(refused(
        judge_read("k", vec![1], Ok(false)),
        "integrity failure: content at k does not match its address"
    ));
    assert!(refused(
        judge_read("k", vec![1], Err("e".to_string())),
        "integrity check failed for k: e"
    ));
}

#[test]
fn a_namespace_is_resolved_or_created() {
    let s = new_store();
    let made = s.namespace_resolve_or_create("n", "o", None).unwrap();
    assert_eq!(made.as_str(), "new-n");
    let found = s.namespace_resolve_or_create("n", "o", None).unwrap();
    assert_eq!(found.as_str(), "old-n");
    assert!(refused(s.namespace_resolve_or_create("", "o", None), "no name"));
    let broken = s.namespace_resolve_or_create("broken", "o", None);
    assert!(matches!(broken, Err(StoreError::Io(t)) if t == "disk"));

    let racing = MemoryStore { lose_race: true, ..MemoryStore::default() };
    let resolved = racing.namespace_resolve_or_create("n", "o", None).unwrap();
    assert_eq!(resolved.as_str(), "old-n");
}

#[test]
fn optional_operations_refuse() {
    let s = new_store();
    let (n, id) = (ns(), [0u8; 16]);
    assert!(refused(s.upload_resume("u", &n, 0), "upload_resume is not supported by this store"));
    assert!(refused(s.namespace_rename("a", "b", "c", None), "namespace_rename not implemented"));
    assert!(refused(s.namespace_add_alias(&id, "a", "b", None), "namespace_add_alias not implemented"));
    assert!(refused(s.namespace_transfer(&id, "a", "b"), "namespace_transfer not implemented"));
    assert!(refused(s.namespace_info("a", None), "namespace_info not implemented"));
    assert!(refused(s.namespace_delete("a", "b", None), "namespace_delete not implemented"));
    assert!(refused(s.version_put(&n, "k", "v", None), "versioning not implemented"));
    assert!(refused(s.version_get(&n, "k", None), "versioning not implemented"));
    assert!(refused(s.version_delete(&n, "k", None), "versioning not implemented"));
    assert!(refused(s.identity_binding_put(&n, &()), "identity_binding_put not implemented"));
    assert!(refused(s.identity_binding_get("s"), "identity_binding_get not implemented"));
    assert!(refused(s.identity_binding_delete(&n, "s", "t"), "identity_binding_delete not implemented"));
    assert!(refused(
        s.identity_binding_list_by_asserter("a"),
        "identity_binding_list_by_asserter not implemented"
    ));
    assert!(refused(s.identity_succession_put(&()), "identity_succession_put not implemented"));
    assert!(refused(s.identity_succession_resolve("a"), "identity_succession_resolve not implemented"));
    assert!(refused(s.identity_succession_chain("a"), "identity_succession_chain not implemented"));
    assert!(s.version_list(&n, "k", 9).unwrap().is_empty());
    assert!(s.upload_part_info("u").is_empty());
    assert!(s.assertion_index_put("s", "f", "k").is_ok());
    assert!(s.assertion_index_query_subject("s").unwrap().is_empty());
}

#[test]
fn ingest_results_are_built_up() {
    let result = IngestResult::new("k".to_string(), true);
    assert!(result.additional_kappas.is_empty() && result.etag.is_none());
    let result = result.with_additional(vec!["a".to_string()]).with_etag("e".to_string());
    assert_eq!(result.kappa, "k");
    assert!(result.newly_stored);
    assert_eq!(result.additional_kappas, ["a"]);
    assert_eq!(result.etag.as_deref(), Some("e"));
}

#[test]
fn content_is_made_only_under_its_own_address() {
    let s = new_store();
    let sha = kappa_from_bytes(b"data");
    let checked = VerifiedContent::verify(&s, &sha, b"data").unwrap();
    assert_eq!((checked.axis().as_str(), checked.kappa()), ("sha256", sha.as_str()));
    assert_eq!(checked.content(), b"data");
    let computed = VerifiedContent::compute(&s, &Axis::Sha256, b"data").unwrap();
    assert_eq!((computed.axis().as_str(), computed.kappa()), ("sha256", sha.as_str()));
    assert_eq!(computed.content(), b"data");
    let text = VerifiedContent::verify(&s, &sha, b"other").err().unwrap();
    assert_eq!(text, format!("mismatch: {sha}"));
    let text = VerifiedContent::compute(&s, &Axis::Named("crc".to_string()), b"").err().unwrap();
    assert_eq!(text, "unknown axis crc");
}
