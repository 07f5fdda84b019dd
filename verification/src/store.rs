//! The store trait and what every store shares.

use crate::text::{joined, same_text};
use crate::types::{Axis, NamespaceRef, StoreError, StoreErrorView};
use crate::verified::{ContentAddressing, VerifiedContent};
use vstd::prelude::*;
use vstd::string::*;

verus! {

/// Result of an ingest operation.
#[non_exhaustive]
pub struct IngestResult {
    /// The content address (kappa-label) of the stored content.
    pub kappa: String,
    /// True if the blob was newly stored, false if it already existed.
    pub newly_stored: bool,
    /// Additional addresses computed by mandatory axes.
    pub additional_kappas: Vec<String>,
    /// Composite ETag for multipart uploads. None for single-PUT objects.
    pub etag: Option<String>,
}

impl IngestResult {
    /// A result with neither additional addresses nor an ETag.
    pub fn new(kappa: String, newly_stored: bool) -> (result: Self)
        ensures
            result.kappa == kappa,
            result.newly_stored == newly_stored,
            result.additional_kappas@ == Seq::<String>::empty(),
            result.etag is None,
    {
        IngestResult { kappa, newly_stored, additional_kappas: Vec::new(), etag: None }
    }

    /// The same result with the given additional addresses.
    pub fn with_additional(self, additional: Vec<String>) -> (result: Self)
        ensures
            result == (IngestResult { additional_kappas: additional, ..self }),
    {
        let mut result = self;
        result.additional_kappas = additional;
        result
    }

    /// The same result with the given ETag.
    pub fn with_etag(self, etag: String) -> (result: Self)
        ensures
            result == (IngestResult { etag: Some(etag), ..self }),
    {
        let mut result = self;
        result.etag = Some(etag);
        result
    }
}

/// Namespace metadata record returned by namespace_info and namespace_list.
#[derive(Debug, Clone)]
pub struct NamespaceRecord {
    /// Hex-encoded 16-byte UUID.
    pub uuid_hex: String,
    /// Asserter anchor of the namespace owner.
    pub owner: String,
    /// Creation timestamp in milliseconds since Unix epoch.
    pub created_at_ms: u64,
    /// Protocol scope: "oci", "s3", "git", "nix", or None (global).
    pub protocol: Option<String>,
    /// All alias names pointing to this UUID.
    pub aliases: Vec<String>,
    /// Whether this namespace has been tombstoned (pending GC).
    pub tombstoned: bool,
}

/// A single entry in the alias history audit log.
#[derive(Debug, Clone)]
pub struct AliasEvent {
    /// Action performed: "create", "rename", "add_alias", "delete", "transfer".
    pub action: String,
    /// The alias name involved.
    pub alias: String,
    /// Asserter anchor of the actor who performed the action.
    pub actor: String,
    /// Timestamp in milliseconds since Unix epoch.
    pub timestamp_ms: u64,
    /// Additional detail: old_name for rename, new_owner for transfer.
    pub detail: Option<String>,
}

/// SHA-256 is among the axes.
pub open spec fn has_sha256(axes: Seq<Axis>) -> bool {
    exists|i: int| 0 <= i < axes.len() && (#[trigger] axes[i])@ == "sha256"@
}

/// What the shared operations of a store are built on. A store implements
/// these; nothing is assumed of how it does but that SHA-256 is mandatory. It is
/// handed content only under an address that was checked or computed.
pub trait StoreBackend: ContentAddressing {
    /// An edge between two addresses.
    type Edge;

    /// A reader over the bytes of a blob.
    type Reader;

    /// Axes computed on every ingest regardless of client axis. SHA-256 is
    /// always in this set; a store may extend it but never remove SHA-256.
    fn mandatory_axes(&self) -> (axes: Vec<Axis>)
        ensures
            has_sha256(axes@),
        default_ensures
            axes@ == seq![Axis::Sha256],
    {
        let axes = vec![Axis::Sha256];
        assert(axes@[0]@ == "sha256"@);
        axes
    }

    /// Stores verified content under its address; true where it was not there.
    fn blob_put_verified(&self, content: &VerifiedContent) -> Result<bool, StoreError>
        requires
            content.is_checked(self) || content.is_computed(self),
    ;

    /// Stores content that is already there under `_primary` under another of its
    /// addresses too. A store that can link one address to another may do so in
    /// place of storing the content again.
    fn blob_put_additional(&self, _primary: &str, content: &VerifiedContent) -> (outcome: Result<
        (),
        StoreError,
    >)
        requires
            content.is_computed(self),
            exists|first: VerifiedContent, put: Result<bool, StoreError>|
                first@.kappa == _primary@ && first@.content == content@.content && put is Ok
                    && #[trigger] call_ensures(Self::blob_put_verified, (self, &first), put),
        default_ensures
            exists|put: Result<bool, StoreError>| #[trigger]
                call_ensures(Self::blob_put_verified, (self, content), put) && match put {
                    Ok(_) => outcome is Ok,
                    Err(e) => outcome == Err::<(), StoreError>(e),
                },
    {
        match self.blob_put_verified(content) {
            Ok(_) => Ok(()),
            Err(e) => Err(e),
        }
    }

    /// Retrieve bytes at the given kappa address.
    fn blob_get(&self, kappa: &str) -> Result<Vec<u8>, StoreError>;

    /// A reader at the start of the given bytes.
    fn reader_over(&self, content: Vec<u8>) -> Self::Reader;

    /// Store one edge.
    fn edge_put(&self, ns: &NamespaceRef, edge: &Self::Edge) -> Result<(), StoreError>;
}

/// Storing content that is there under `primary` under another address came
/// out as `outcome`: that address, or the error.
pub open spec fn content_stored<S: StoreBackend + ?Sized>(
    store: &S,
    primary: Seq<char>,
    verified: VerifiedContent,
    outcome: Result<String, StoreError>,
) -> bool {
    exists|name: &str, put: Result<(), StoreError>|
        name@ == primary && #[trigger] call_ensures(
            S::blob_put_additional,
            (store, name, &verified),
            put,
        ) && match put {
            Ok(_) => outcome matches Ok(kappa) && kappa@ == verified@.kappa,
            Err(e) => outcome == Err::<String, StoreError>(e),
        }
}

/// The content was stored under the address `primary`.
pub open spec fn stored_under<S: StoreBackend + ?Sized>(
    store: &S,
    primary: Seq<char>,
    content: Seq<u8>,
) -> bool {
    exists|first: VerifiedContent, put: Result<bool, StoreError>|
        first@.kappa == primary && first@.content == content && put is Ok
            && #[trigger] call_ensures(S::blob_put_verified, (store, &first), put)
}

/// Storing the content under the address of one axis came out as `outcome`.
pub open spec fn axis_stored<S: StoreBackend + ?Sized>(
    store: &S,
    primary: Seq<char>,
    axis: Axis,
    content: Seq<u8>,
    outcome: Result<String, StoreError>,
) -> bool {
    exists|computed: Result<VerifiedContent, String>| #[trigger]
        crate::verified::content_computed(store, axis, content, computed) && match computed {
            Ok(verified) => content_stored(store, primary, verified, outcome),
            Err(text) => outcome == Err::<String, StoreError>(StoreError::Rejected(text)),
        }
}

/// The axes but for the one named `skip`.
pub open spec fn axes_but(axes: Seq<Axis>, skip: Seq<char>) -> Seq<Axis>
    decreases axes.len(),
{
    if axes.len() == 0 {
        Seq::empty()
    } else if axes.last()@ == skip {
        axes_but(axes.drop_last(), skip)
    } else {
        axes_but(axes.drop_last(), skip).push(axes.last())
    }
}

/// Storing the content under each of the axes in turn came out as `outcomes`.
pub open spec fn each_axis_stored<S: StoreBackend + ?Sized>(
    store: &S,
    primary: Seq<char>,
    axes: Seq<Axis>,
    content: Seq<u8>,
    outcomes: Seq<Result<String, StoreError>>,
) -> bool {
    &&& outcomes.len() <= axes.len()
    &&& forall|i: int|
        0 <= i < outcomes.len() ==> #[trigger] axis_stored(
            store,
            primary,
            axes[i],
            content,
            outcomes[i],
        )
}

/// Storing the content under each of the axes in turn came out as `outcome`:
/// the addresses, or the first error, behind which no axis is tried.
pub open spec fn axes_stored<S: StoreBackend + ?Sized>(
    store: &S,
    primary: Seq<char>,
    axes: Seq<Axis>,
    content: Seq<u8>,
    outcome: Result<Seq<String>, StoreError>,
) -> bool {
    exists|outcomes: Seq<Result<String, StoreError>>| #[trigger]
        each_axis_stored(store, primary, axes, content, outcomes) && match outcome {
            Ok(kappas) => {
                &&& kappas.len() == axes.len()
                &&& outcomes == kappas.map_values(|k: String| Ok::<String, StoreError>(k))
            },
            Err(e) => {
                &&& outcomes.len() > 0
                &&& outcomes.last() == Err::<String, StoreError>(e)
                &&& forall|i: int| 0 <= i < outcomes.len() - 1 ==> (#[trigger] outcomes[i]) is Ok
            },
        }
}

/// Ingesting content whose address is verified came out as `outcome`: the
/// content is stored under that address and then under every mandatory axis but
/// the one named `skip`; the first error ends it.
pub open spec fn ingested<S: StoreBackend + ?Sized>(
    store: &S,
    verified: VerifiedContent,
    skip: Seq<char>,
    content: Seq<u8>,
    outcome: Result<IngestResult, StoreError>,
) -> bool {
    exists|put: Result<bool, StoreError>| #[trigger]
        call_ensures(S::blob_put_verified, (store, &verified), put) && match put {
            Err(e) => outcome == Err::<IngestResult, StoreError>(e),
            Ok(newly_stored) => exists|axes: Vec<Axis>, rest: Result<Seq<String>, StoreError>|
                #[trigger] call_ensures(S::mandatory_axes, (store,), axes) && #[trigger]
                    axes_stored(
                        store,
                        verified@.kappa,
                        axes_but(axes@, skip),
                        content,
                        rest,
                    ) && match rest {
                    Err(e) => outcome == Err::<IngestResult, StoreError>(e),
                    Ok(additional) => outcome matches Ok(result) && {
                        &&& result.kappa@ == verified@.kappa
                        &&& result.newly_stored == newly_stored
                        &&& result.additional_kappas@ == additional
                        &&& result.etag is None
                    },
                },
        }
}

/// Ingesting content under a claimed address came out as `outcome`: a claim that
/// does not hold is rejected with the reason; content is stored under one that
/// does.
pub open spec fn verified_ingested<S: StoreBackend + ?Sized>(
    store: &S,
    claimed: &str,
    content: Seq<u8>,
    outcome: Result<IngestResult, StoreError>,
) -> bool {
    exists|checked: Result<VerifiedContent, String>| #[trigger]
        crate::verified::content_checked(store, claimed, content, checked) && match checked {
            Ok(verified) => ingested(store, verified, verified@.axis, content, outcome),
            Err(text) => outcome == Err::<IngestResult, StoreError>(StoreError::Rejected(text)),
        }
}

/// Ingesting content under the address of an axis came out as `outcome`.
pub open spec fn computed_ingested<S: StoreBackend + ?Sized>(
    store: &S,
    axis: Axis,
    content: Seq<u8>,
    outcome: Result<IngestResult, StoreError>,
) -> bool {
    exists|computed: Result<VerifiedContent, String>| #[trigger]
        crate::verified::content_computed(store, axis, content, computed) && match computed {
            Ok(verified) => ingested(store, verified, axis@, content, outcome),
            Err(text) => outcome == Err::<IngestResult, StoreError>(StoreError::Rejected(text)),
        }
}

/// An axis that is not skipped is among those left.
proof fn axes_but_contains(axes: Seq<Axis>, skip: Seq<char>, i: int)
    requires
        0 <= i < axes.len(),
        axes[i]@ != skip,
    ensures
        axes_but(axes, skip).contains(axes[i]),
    decreases axes.len(),
{
    let rest = axes_but(axes.drop_last(), skip);
    if i < axes.len() - 1 {
        axes_but_contains(axes.drop_last(), skip, i);
        let j = choose|j: int| 0 <= j < rest.len() && rest[j] == axes.drop_last()[i];
        assert(axes_but(axes, skip)[j] == axes[i]);
    } else {
        assert(axes_but(axes, skip)[rest.len() as int] == axes[i]);
    }
}

/// No axis that is left is the skipped one.
proof fn axes_but_excludes(axes: Seq<Axis>, skip: Seq<char>, j: int)
    requires
        0 <= j < axes_but(axes, skip).len(),
    ensures
        axes_but(axes, skip)[j]@ != skip,
    decreases axes.len(),
{
    if axes.len() > 0 && j < axes_but(axes.drop_last(), skip).len() {
        axes_but_excludes(axes.drop_last(), skip, j);
    }
}

/// An axis that is left is one of the axes.
proof fn axes_but_among(axes: Seq<Axis>, skip: Seq<char>, j: int)
    requires
        0 <= j < axes_but(axes, skip).len(),
    ensures
        axes.contains(axes_but(axes, skip)[j]),
    decreases axes.len(),
{
    if axes.len() > 0 {
        let rest = axes_but(axes.drop_last(), skip);
        if j < rest.len() {
            axes_but_among(axes.drop_last(), skip, j);
            let i = choose|i: int|
                0 <= i < axes.drop_last().len() && axes.drop_last()[i] == rest[j];
            assert(axes[i] == rest[j]);
        } else {
            assert(axes[axes.len() - 1] == axes.last());
        }
    }
}

/// Every mandatory axis but the skipped one has its address among the
/// additional ones, and no address was computed for the skipped one.
pub proof fn law_every_axis_is_addressed<S: StoreBackend + ?Sized>(
    store: &S,
    primary: Seq<char>,
    axes: Seq<Axis>,
    skip: Seq<char>,
    content: Seq<u8>,
    additional: Seq<String>,
    i: int,
)
    requires
        axes_stored(
            store,
            primary,
            axes_but(axes, skip),
            content,
            Ok::<Seq<String>, StoreError>(additional),
        ),
        0 <= i < axes.len(),
        axes[i]@ != skip,
    ensures
        exists|j: int|
            0 <= j < additional.len() && #[trigger] axis_stored(
                store,
                primary,
                axes[i],
                content,
                Ok::<String, StoreError>(additional[j]),
            ),
        forall|j: int| 0 <= j < additional.len() ==> (#[trigger] axes_but(axes, skip)[j])@ != skip,
{
    let left = axes_but(axes, skip);
    let outcomes = choose|outcomes: Seq<Result<String, StoreError>>| #[trigger]
        each_axis_stored(store, primary, left, content, outcomes) && additional.len() == left.len()
            && outcomes == additional.map_values(|k: String| Ok::<String, StoreError>(k));
    axes_but_contains(axes, skip, i);
    let j = choose|j: int| 0 <= j < left.len() && left[j] == axes[i];
    assert(axis_stored(store, primary, left[j], content, outcomes[j]));
    assert(axis_stored(store, primary, axes[i], content, Ok::<String, StoreError>(additional[j])));
    assert forall|j: int| 0 <= j < additional.len() implies (#[trigger] axes_but(axes, skip)[j])@
        != skip by {
        axes_but_excludes(axes, skip, j);
    }
}

/// Content that was ingested under another axis than SHA-256 has its SHA-256
/// address among the additional ones.
pub proof fn law_sha256_is_always_addressed<S: StoreBackend + ?Sized>(
    store: &S,
    verified: VerifiedContent,
    skip: Seq<char>,
    content: Seq<u8>,
    result: IngestResult,
)
    requires
        ingested(store, verified, skip, content, Ok::<IngestResult, StoreError>(result)),
        skip != "sha256"@,
    ensures
        exists|axis: Axis, j: int|
            axis@ == "sha256"@ && 0 <= j < result.additional_kappas@.len()
                && #[trigger] axis_stored(
                store,
                verified@.kappa,
                axis,
                content,
                Ok::<String, StoreError>(result.additional_kappas@[j]),
            ),
{
    let (axes, rest) = choose|axes: Vec<Axis>, rest: Result<Seq<String>, StoreError>| #[trigger]
        call_ensures(S::mandatory_axes, (store,), axes) && #[trigger] axes_stored(
            store,
            verified@.kappa,
            axes_but(axes@, skip),
            content,
            rest,
        ) && rest == Ok::<Seq<String>, StoreError>(result.additional_kappas@);
    let i = choose|i: int| 0 <= i < axes@.len() && (#[trigger] axes@[i])@ == "sha256"@;
    law_every_axis_is_addressed(
        store,
        verified@.kappa,
        axes@,
        skip,
        content,
        result.additional_kappas@,
        i,
    );
}

/// Store the content under the address of one axis.
fn store_axis<S: StoreBackend + ?Sized>(
    store: &S,
    primary: &str,
    axis: &Axis,
    content: &[u8],
) -> (outcome: Result<String, StoreError>)
    requires
        stored_under(store, primary@, content@),
    ensures
        axis_stored(store, primary@, *axis, content@, outcome),
{
    match VerifiedContent::compute(store, axis, content) {
        Err(text) => Err(StoreError::Rejected(text)),
        Ok(verified) => match store.blob_put_additional(primary, &verified) {
            Err(e) => Err(e),
            Ok(_) => Ok(verified.kappa().to_owned()),
        },
    }
}

/// The first axes that are left are a part of all that are left.
proof fn axes_but_prefix(axes: Seq<Axis>, skip: Seq<char>, n: int)
    requires
        0 <= n <= axes.len(),
    ensures
        axes_but(axes.take(n), skip).is_prefix_of(axes_but(axes, skip)),
    decreases axes.len(),
{
    if n == axes.len() {
        assert(axes.take(n) =~= axes);
    } else {
        assert(axes.drop_last().take(n) =~= axes.take(n));
        axes_but_prefix(axes.drop_last(), skip, n);
    }
}

/// Store the content under every axis but the one named `skip`.
fn store_axes<S: StoreBackend + ?Sized>(
    store: &S,
    primary: &str,
    axes: &Vec<Axis>,
    skip: &str,
    content: &[u8],
) -> (outcome: Result<Vec<String>, StoreError>)
    requires
        stored_under(store, primary@, content@),
    ensures
        match outcome {
            Ok(additional) => axes_stored(
                store,
                primary@,
                axes_but(axes@, skip@),
                content@,
                Ok::<Seq<String>, StoreError>(additional@),
            ),
            Err(e) => axes_stored(
                store,
                primary@,
                axes_but(axes@, skip@),
                content@,
                Err::<Seq<String>, StoreError>(e),
            ),
        },
{
    let mut additional: Vec<String> = Vec::new();
    let mut i: usize = 0;
    let ghost mut outcomes: Seq<Result<String, StoreError>> = Seq::empty();
    assert(axes@.take(0) =~= Seq::<Axis>::empty());
    while i < axes.len()
        invariant
            i <= axes@.len(),
            stored_under(store, primary@, content@),
            outcomes.len() == additional@.len(),
            outcomes.len() == axes_but(axes@.take(i as int), skip@).len(),
            forall|j: int|
                0 <= j < outcomes.len() ==> #[trigger] outcomes[j] == Ok::<String, StoreError>(
                    additional@[j],
                ),
            each_axis_stored(
                store,
                primary@,
                axes_but(axes@.take(i as int), skip@),
                content@,
                outcomes,
            ),
        decreases axes@.len() - i,
    {
        let ghost now = axes@.take(i + 1);
        let ghost left = axes_but(axes@.take(i as int), skip@);
        assert(now.drop_last() =~= axes@.take(i as int));
        assert(now.last() == axes@[i as int]);
        if !same_text(axes[i].as_str(), skip) {
            let one = store_axis(store, primary, &axes[i], content);
            proof {
                let longer = outcomes.push(one);
                let more = left.push(axes@[i as int]);
                assert(each_axis_stored(store, primary@, more, content@, longer)) by {
                    assert forall|j: int| 0 <= j < longer.len() implies #[trigger] axis_stored(
                        store,
                        primary@,
                        more[j],
                        content@,
                        longer[j],
                    ) by {
                        if j < outcomes.len() {
                            assert(axis_stored(store, primary@, left[j], content@, outcomes[j]));
                        }
                    }
                }
                outcomes = longer;
            }
            match one {
                Ok(kappa) => {
                    additional.push(kappa);
                },
                Err(e) => {
                    proof {
                        let all = axes_but(axes@, skip@);
                        axes_but_prefix(axes@, skip@, i + 1);
                        assert(each_axis_stored(store, primary@, all, content@, outcomes)) by {
                            assert forall|j: int|
                                0 <= j < outcomes.len() implies #[trigger] axis_stored(
                                store,
                                primary@,
                                all[j],
                                content@,
                                outcomes[j],
                            ) by {
                                assert(axis_stored(
                                    store,
                                    primary@,
                                    axes_but(now, skip@)[j],
                                    content@,
                                    outcomes[j],
                                ));
                            }
                        }
                    }
                    return Err(e);
                },
            }
        }
        i = i + 1;
    }
    assert(axes@.take(i as int) =~= axes@);
    assert(outcomes =~= additional@.map_values(|k: String| Ok::<String, StoreError>(k)));
    Ok(additional)
}

/// Store verified content under its address and the mandatory axes.
fn store_verified<S: StoreBackend + ?Sized>(
    store: &S,
    verified: VerifiedContent,
    skip: &str,
    content: &[u8],
) -> (outcome: Result<IngestResult, StoreError>)
    requires
        verified.is_checked(store) || verified.is_computed(store),
        verified@.content == content@,
    ensures
        ingested(store, verified, skip@, content@, outcome),
{
    match store.blob_put_verified(&verified) {
        Err(e) => Err(e),
        Ok(newly_stored) => {
            let axes = store.mandatory_axes();
            match store_axes(store, verified.kappa(), &axes, skip, content) {
                Err(e) => Err(e),
                Ok(additional) => {
                    let kappa = verified.kappa().to_owned();
                    Ok(IngestResult::new(kappa, newly_stored).with_additional(additional))
                },
            }
        },
    }
}

/// Store bytes with a claimed digest: the claim is verified, then the content is
/// stored under it and under every mandatory axis that differs from its own.
pub fn ingest_verified<S: StoreBackend + ?Sized>(
    store: &S,
    claimed: &str,
    content: &[u8],
) -> (outcome: Result<IngestResult, StoreError>)
    ensures
        verified_ingested(store, claimed, content@, outcome),
        outcome matches Ok(result) ==> result.kappa@ == claimed@,
{
    match VerifiedContent::verify(store, claimed, content) {
        Err(text) => Err(StoreError::Rejected(text)),
        Ok(verified) => {
            let skip = verified.axis().as_str().to_owned();
            store_verified(store, verified, skip.as_str(), content)
        },
    }
}

/// Store bytes under the digest of the given axis and of every mandatory axis
/// that differs.
pub fn ingest_compute<S: StoreBackend + ?Sized>(store: &S, axis: Axis, content: &[u8]) -> (outcome:
    Result<IngestResult, StoreError>)
    ensures
        computed_ingested(store, axis, content@, outcome),
{
    match VerifiedContent::compute(store, &axis, content) {
        Err(text) => Err(StoreError::Rejected(text)),
        Ok(verified) => store_verified(store, verified, axis.as_str(), content),
    }
}

/// The outcome is the rejection with the given text.
pub open spec fn refused<T>(outcome: Result<T, StoreError>, text: Seq<char>) -> bool {
    outcome matches Err(e) && e@ == StoreErrorView::Rejected(text)
}

/// Storing the edges one by one came out as `outcome`: the first error ends it.
pub open spec fn edges_stored<S: StoreBackend + ?Sized>(
    store: &S,
    ns: &NamespaceRef,
    edges: Seq<S::Edge>,
    outcome: Result<(), StoreError>,
) -> bool {
    exists|n: int| #[trigger]
        edges_put(store, ns, edges, n) && match outcome {
            Ok(()) => n == edges.len(),
            Err(e) => 0 <= n < edges.len() && call_ensures(
                S::edge_put,
                (store, ns, &edges[n]),
                Err::<(), StoreError>(e),
            ),
        }
}

/// The first `n` edges were stored.
pub open spec fn edges_put<S: StoreBackend + ?Sized>(
    store: &S,
    ns: &NamespaceRef,
    edges: Seq<S::Edge>,
    n: int,
) -> bool {
    forall|i: int|
        0 <= i < n ==> #[trigger] edge_stored(store, ns, edges[i])
}

/// One edge was stored.
pub open spec fn edge_stored<S: StoreBackend + ?Sized>(
    store: &S,
    ns: &NamespaceRef,
    edge: S::Edge,
) -> bool {
    exists|put: Result<(), StoreError>| #[trigger]
        call_ensures(S::edge_put, (store, ns, &edge), put) && put is Ok
}

/// Opening a blob came out as `outcome`: a reader over the bytes that
/// `blob_get` returned, or its error.
pub open spec fn blob_opened<S: StoreBackend + ?Sized>(
    store: &S,
    kappa: &str,
    outcome: Result<S::Reader, StoreError>,
) -> bool {
    exists|got: Result<Vec<u8>, StoreError>| #[trigger]
        call_ensures(S::blob_get, (store, kappa), got) && match got {
            Ok(content) => outcome matches Ok(reader) && call_ensures(
                S::reader_over,
                (store, content),
                reader,
            ),
            Err(e) => outcome == Err::<S::Reader, StoreError>(e),
        }
}

/// What a verified read returns, given the bytes at the address and whether
/// they have that address.
pub open spec fn verified_read(
    kappa: Seq<char>,
    content: Seq<u8>,
    matching: Result<bool, String>,
) -> Result<Seq<u8>, StoreErrorView> {
    match matching {
        Ok(true) => Ok(content),
        Ok(false) => Err(
            StoreErrorView::Rejected(
                "integrity failure: content at "@ + kappa + " does not match its address"@,
            ),
        ),
        Err(text) => Err(
            StoreErrorView::Rejected("integrity check failed for "@ + kappa + ": "@ + text@),
        ),
    }
}

/// Bytes or an error, each by its view.
pub open spec fn read_outcome(result: Result<Vec<u8>, StoreError>) -> Result<
    Seq<u8>,
    StoreErrorView,
> {
    match result {
        Ok(bytes) => Ok(bytes@),
        Err(e) => Err(e@),
    }
}

/// A verified read came out as `outcome`: bytes only where they have the address.
pub open spec fn blob_read_verified<S: StoreBackend + ?Sized>(
    store: &S,
    kappa: &str,
    outcome: Result<Vec<u8>, StoreError>,
) -> bool {
    exists|got: Result<Vec<u8>, StoreError>| #[trigger]
        call_ensures(S::blob_get, (store, kappa), got) && match got {
            Err(e) => outcome == Err::<Vec<u8>, StoreError>(e),
            Ok(content) => exists|bytes: &[u8], matching: Result<bool, String>|
                bytes@ == content@ && #[trigger] call_ensures(
                    S::verify_kappa,
                    (store, kappa, bytes),
                    matching,
                ) && read_outcome(outcome) == verified_read(kappa@, content@, matching),
        }
}

/// Decide a verified read from the bytes at the address and the check of them.
pub fn judge_read(kappa: &str, content: Vec<u8>, matching: Result<bool, String>) -> (outcome:
    Result<Vec<u8>, StoreError>)
    ensures
        read_outcome(outcome) == verified_read(kappa@, content@, matching),
{
    match matching {
        Ok(true) => Ok(content),
        Ok(false) => {
            let mut text = joined("integrity failure: content at ", kappa);
            text.append(" does not match its address");
            Err(StoreError::Rejected(text))
        },
        Err(reason) => {
            let mut text = joined("integrity check failed for ", kappa);
            text.append(": ");
            text.append(reason.as_str());
            Err(StoreError::Rejected(text))
        },
    }
}

/// Store each edge in turn, up to the first error.
fn put_edges<S: StoreBackend + ?Sized>(store: &S, ns: &NamespaceRef, edges: &[S::Edge]) -> (outcome:
    Result<(), StoreError>)
    ensures
        edges_stored(store, ns, edges@, outcome),
{
    let mut i: usize = 0;
    while i < edges.len()
        invariant
            i <= edges@.len(),
            edges_put(store, ns, edges@, i as int),
        decreases edges@.len() - i,
    {
        let edge = &edges[i];
        let put = store.edge_put(ns, edge);
        match put {
            Ok(()) => {
                assert(edge_stored(store, ns, edges@[i as int]));
            },
            Err(e) => {
                return Err(e);
            },
        }
        i = i + 1;
    }
    Ok(())
}

/// Content-addressed key-value store.
///
/// Two ingest methods handle all writes: `ingest_verified`, where the client
/// claims a digest that the store verifies, and `ingest_compute`, where the
/// store computes it. Optional operations refuse until a store implements them.
pub trait KappaStore: StoreBackend {
    /// A query for edges.
    type EdgeQuery;

    /// The kind of an edge.
    type EdgeRelation;

    /// A name bound to an address.
    type TagEntry;

    /// One of a batch of tag changes.
    type TagUpdate;

    /// A change that an epoch records.
    type EpochMutation;

    /// The signed state of a namespace at an epoch.
    type EpochRoot;

    /// One version of an object.
    type VersionEntry;

    /// What deleting a version did.
    type DeleteResult;

    /// An identity binding.
    type IdentityBinding;

    /// A succession of one anchor by another.
    type IdentitySuccession;

    /// Store bytes with a caller-claimed digest. The store verifies the claim,
    /// then stores the content under every mandatory axis that differs from
    /// the client's axis.
    fn ingest_verified(&self, claimed: &str, content: &[u8]) -> (outcome: Result<
        IngestResult,
        StoreError,
    >)
        default_ensures
            verified_ingested(self, claimed, content@, outcome),
            outcome matches Ok(result) ==> result.kappa@ == claimed@,
    {
        ingest_verified(self, claimed, content)
    }

    /// Store bytes and compute the digest under the given axis, plus all
    /// mandatory axes that differ.
    fn ingest_compute(&self, axis: Axis, content: &[u8]) -> (outcome: Result<
        IngestResult,
        StoreError,
    >)
        default_ensures
            computed_ingested(self, axis, content@, outcome),
    {
        ingest_compute(self, axis, content)
    }

    /// Check existence without reading content.
    fn blob_exists(&self, kappa: &str) -> Result<bool, StoreError>;

    /// Remove bytes at the given kappa address.
    fn blob_delete(&self, kappa: &str) -> Result<(), StoreError>;

    /// Byte length without reading content.
    fn blob_size(&self, kappa: &str) -> Result<u64, StoreError>;

    /// Read a byte range.
    fn blob_get_range(&self, kappa: &str, offset: u64, length: u64) -> Result<Vec<u8>, StoreError>;

    /// Enumerate all stored kappa-labels.
    fn blob_list(&self) -> Result<Vec<String>, StoreError>;

    /// Set a metadata value of a blob.
    fn blob_put_meta(&self, kappa: &str, key: &str, value: &[u8]) -> Result<(), StoreError>;

    /// Get a metadata value of a blob.
    fn blob_get_meta(&self, kappa: &str, key: &str) -> Result<Vec<u8>, StoreError>;

    /// Remove a metadata value of a blob.
    fn blob_delete_meta(&self, kappa: &str, key: &str) -> Result<(), StoreError>;

    /// Set namespace-scoped metadata of an address.
    fn meta_set(
        &self,
        ns: &NamespaceRef,
        kappa: &str,
        key: &str,
        value: &str,
    ) -> Result<(), StoreError>;

    /// Addresses with the given namespace-scoped metadata.
    fn meta_query(
        &self,
        ns: &NamespaceRef,
        key: &str,
        value: &str,
    ) -> Result<Vec<String>, StoreError>;

    /// Bind a name to an address; returns the new version.
    fn tag_set(&self, ns: &NamespaceRef, name: &str, kappa: &str) -> Result<u64, StoreError>;

    /// The address that a name is bound to.
    fn tag_get(&self, ns: &NamespaceRef, name: &str) -> Result<Self::TagEntry, StoreError>;

    /// Remove a name.
    fn tag_delete(&self, ns: &NamespaceRef, name: &str) -> Result<(), StoreError>;

    /// All names of a namespace.
    fn tag_list(&self, ns: &NamespaceRef) -> Result<Vec<Self::TagEntry>, StoreError>;

    /// The names that begin with a prefix.
    fn tag_prefix(
        &self,
        ns: &NamespaceRef,
        prefix: &str,
    ) -> Result<Vec<Self::TagEntry>, StoreError>;

    /// Apply several tag changes.
    fn tag_set_batch(
        &self,
        ns: &NamespaceRef,
        updates: &[Self::TagUpdate],
    ) -> Result<(), StoreError>;

    /// The edges that match a query.
    fn edge_query(
        &self,
        ns: &NamespaceRef,
        query: &Self::EdgeQuery,
    ) -> Result<Vec<Self::Edge>, StoreError>;

    /// Remove an edge.
    fn edge_delete(
        &self,
        ns: &NamespaceRef,
        source: &str,
        target: &str,
        relation: Self::EdgeRelation,
    ) -> Result<(), StoreError>;

    /// Store multiple edges, each in turn.
    fn edge_put_batch(&self, ns: &NamespaceRef, edges: &[Self::Edge]) -> (outcome: Result<
        (),
        StoreError,
    >)
        default_ensures
            edges_stored(self, ns, edges@, outcome),
    {
        put_edges(self, ns, edges)
    }

    /// Advance a counter and return its new value.
    fn sequence_next(&self, ns: &NamespaceRef, name: &str) -> Result<u64, StoreError>;

    /// The value of a counter.
    fn sequence_current(&self, ns: &NamespaceRef, name: &str) -> Result<u64, StoreError>;

    /// Record a new epoch.
    fn epoch_advance(
        &self,
        ns: &NamespaceRef,
        mutations: Vec<Self::EpochMutation>,
    ) -> Result<String, StoreError>;

    /// The address of the current epoch.
    fn epoch_current(&self, ns: &NamespaceRef) -> Result<Option<String>, StoreError>;

    /// The epoch at an address.
    fn epoch_get(&self, kappa: &str) -> Result<Self::EpochRoot, StoreError>;

    /// Begin a streaming upload. Returns an opaque upload ID. `max_size` is the
    /// maximum total content size (0 = unlimited).
    fn upload_begin(&self, namespace: &NamespaceRef, max_size: u64) -> Result<String, StoreError>;

    /// Append a part to a streaming upload. `offset` must equal the number of bytes
    /// previously appended. Returns the new total byte count.
    fn upload_put_part(
        &self,
        upload_id: &str,
        offset: u64,
        data: &[u8],
    ) -> Result<u64, StoreError>;

    /// Complete a streaming upload. The staged content is verified against the
    /// claimed digest; without one, SHA-256 is computed. The upload ID is invalid
    /// after this call.
    fn upload_complete(
        &self,
        upload_id: &str,
        claimed_digest: Option<&str>,
    ) -> Result<IngestResult, StoreError>;

    /// Abort a streaming upload. Removes the staging file.
    fn upload_abort(&self, upload_id: &str) -> Result<(), StoreError>;

    /// Re-attach to an upload whose staging file survived a restart. Stores that
    /// keep no staging across restarts refuse.
    fn upload_resume(
        &self,
        _upload_id: &str,
        _namespace: &NamespaceRef,
        _max_size: u64,
    ) -> (outcome: Result<u64, StoreError>)
        default_ensures
            refused(outcome, "upload_resume is not supported by this store"@),
    {
        Err(StoreError::Rejected("upload_resume is not supported by this store".to_owned()))
    }

    /// Bytes received so far for an upload. None if ID not found.
    fn upload_bytes_received(&self, upload_id: &str) -> Option<u64>;

    /// Namespace associated with an upload. None if ID not found.
    fn upload_namespace(&self, upload_id: &str) -> Option<String>;

    /// Per-part metadata for an in-progress upload: part number, MD5 and size.
    /// Empty where the upload is not found.
    fn upload_part_info(&self, _upload_id: &str) -> (parts: Vec<(u32, String, u64)>)
        default_ensures
            parts@ == Seq::<(u32, String, u64)>::empty(),
    {
        Vec::new()
    }

    /// Evict uploads older than `timeout_secs`. Returns count evicted.
    fn upload_evict_expired(&self, timeout_secs: u64) -> usize;

    /// Store pre-compressed content under the hash of the uncompressed content,
    /// which the caller has verified.
    fn ingest_compressed(
        &self,
        uncompressed_hash: &str,
        compressed_content: &[u8],
        compression: &str,
        uncompressed_size: u64,
    ) -> Result<IngestResult, StoreError>;

    /// Open the compressed bytes of a blob as they are stored.
    fn blob_open_compressed(&self, uncompressed_hash: &str) -> Result<Self::Reader, StoreError>;

    /// Open a decompressed view of a compressed blob.
    fn blob_open_decompressed(&self, uncompressed_hash: &str) -> Result<Self::Reader, StoreError>;

    /// Open a blob for reading from its start.
    fn blob_open(&self, kappa: &str) -> (outcome: Result<Self::Reader, StoreError>)
        default_ensures
            blob_opened(self, kappa, outcome),
    {
        match self.blob_get(kappa) {
            Ok(content) => Ok(self.reader_over(content)),
            Err(e) => Err(e),
        }
    }

    /// Retrieve bytes and check that they have their address.
    fn blob_get_verified(&self, kappa: &str) -> (outcome: Result<Vec<u8>, StoreError>)
        default_ensures
            blob_read_verified(self, kappa, outcome),
    {
        match self.blob_get(kappa) {
            Err(e) => Err(e),
            Ok(content) => {
                let matching = self.verify_kappa(kappa, content.as_slice());
                judge_read(kappa, content, matching)
            },
        }
    }

    /// Create a namespace. Rejects if the alias already exists in the same scope.
    fn namespace_create(
        &self,
        name: &str,
        owner: &str,
        protocol: Option<&str>,
    ) -> Result<NamespaceRef, StoreError>;

    /// Resolve an alias. NotFound if it does not exist.
    fn namespace_resolve(
        &self,
        name: &str,
        protocol: Option<&str>,
    ) -> Result<NamespaceRef, StoreError>;

    /// Resolve an alias, or create it with the given owner.
    fn namespace_resolve_or_create(
        &self,
        name: &str,
        owner: &str,
        protocol: Option<&str>,
    ) -> Result<NamespaceRef, StoreError>;

    /// Rename an alias.
    fn namespace_rename(
        &self,
        _old_name: &str,
        _new_name: &str,
        _actor: &str,
        _protocol: Option<&str>,
    ) -> (outcome: Result<(), StoreError>)
        default_ensures
            refused(outcome, "namespace_rename not implemented"@),
    {
        Err(StoreError::Rejected("namespace_rename not implemented".to_owned()))
    }

    /// Add an additional alias to an existing namespace UUID.
    fn namespace_add_alias(
        &self,
        _uuid: &[u8; 16],
        _alias: &str,
        _actor: &str,
        _protocol: Option<&str>,
    ) -> (outcome: Result<(), StoreError>)
        default_ensures
            refused(outcome, "namespace_add_alias not implemented"@),
    {
        Err(StoreError::Rejected("namespace_add_alias not implemented".to_owned()))
    }

    /// Transfer ownership of a namespace to a new anchor.
    fn namespace_transfer(
        &self,
        _uuid: &[u8; 16],
        _new_owner: &str,
        _actor: &str,
    ) -> (outcome: Result<(), StoreError>)
        default_ensures
            refused(outcome, "namespace_transfer not implemented"@),
    {
        Err(StoreError::Rejected("namespace_transfer not implemented".to_owned()))
    }

    /// Get namespace metadata: UUID, owner, creation time, aliases.
    fn namespace_info(
        &self,
        _name: &str,
        _protocol: Option<&str>,
    ) -> (outcome: Result<NamespaceRecord, StoreError>)
        default_ensures
            refused(outcome, "namespace_info not implemented"@),
    {
        Err(StoreError::Rejected("namespace_info not implemented".to_owned()))
    }

    /// List all namespaces, or those of one protocol.
    fn namespace_list(&self, protocol: Option<&str>) -> Result<Vec<NamespaceRecord>, StoreError>;

    /// Check if a namespace exists by alias name.
    fn namespace_exists(&self, name: &str, protocol: Option<&str>) -> Result<bool, StoreError>;

    /// Delete a namespace.
    fn namespace_delete(
        &self,
        _name: &str,
        _actor: &str,
        _protocol: Option<&str>,
    ) -> (outcome: Result<(), StoreError>)
        default_ensures
            refused(outcome, "namespace_delete not implemented"@),
    {
        Err(StoreError::Rejected("namespace_delete not implemented".to_owned()))
    }

    /// Put a new version of an object. Returns the assigned version id.
    fn version_put(
        &self,
        _ns: &NamespaceRef,
        _key: &str,
        _kappa: &str,
        _etag: Option<&str>,
    ) -> (outcome: Result<String, StoreError>)
        default_ensures
            refused(outcome, "versioning not implemented"@),
    {
        Err(StoreError::Rejected("versioning not implemented".to_owned()))
    }

    /// Get a version; without an id the latest that is not a delete marker.
    fn version_get(
        &self,
        _ns: &NamespaceRef,
        _key: &str,
        _version_id: Option<&str>,
    ) -> (outcome: Result<Self::VersionEntry, StoreError>)
        default_ensures
            refused(outcome, "versioning not implemented"@),
    {
        Err(StoreError::Rejected("versioning not implemented".to_owned()))
    }

    /// Delete a version; without an id insert a delete marker.
    fn version_delete(
        &self,
        _ns: &NamespaceRef,
        _key: &str,
        _version_id: Option<&str>,
    ) -> (outcome: Result<Self::DeleteResult, StoreError>)
        default_ensures
            refused(outcome, "versioning not implemented"@),
    {
        Err(StoreError::Rejected("versioning not implemented".to_owned()))
    }

    /// List versions of a key, newest first.
    fn version_list(&self, _ns: &NamespaceRef, _key: &str, _max: usize) -> (outcome: Result<
        Vec<Self::VersionEntry>,
        StoreError,
    >)
        default_ensures
            outcome matches Ok(versions) && versions@ == Seq::<Self::VersionEntry>::empty(),
    {
        Ok(Vec::new())
    }

    /// Index an assertion by subject and facet.
    fn assertion_index_put(&self, _subject: &str, _facet: &str, _assertion_kappa: &str) -> (outcome:
        Result<(), StoreError>)
        default_ensures
            outcome is Ok,
    {
        Ok(())
    }

    /// All assertions for a subject, whatever the facet.
    fn assertion_index_query_subject(&self, _subject: &str) -> (outcome: Result<
        Vec<String>,
        StoreError,
    >)
        default_ensures
            outcome matches Ok(assertions) && assertions@ == Seq::<String>::empty(),
    {
        Ok(Vec::new())
    }

    /// Store an identity binding. Returns the address of the stored binding blob.
    fn identity_binding_put(
        &self,
        _ns: &NamespaceRef,
        _binding: &Self::IdentityBinding,
    ) -> (outcome: Result<String, StoreError>)
        default_ensures
            refused(outcome, "identity_binding_put not implemented"@),
    {
        Err(StoreError::Rejected("identity_binding_put not implemented".to_owned()))
    }

    /// Query bindings for a subject (external identifier).
    fn identity_binding_get(
        &self,
        _subject: &str,
    ) -> (outcome: Result<Vec<Self::IdentityBinding>, StoreError>)
        default_ensures
            refused(outcome, "identity_binding_get not implemented"@),
    {
        Err(StoreError::Rejected("identity_binding_get not implemented".to_owned()))
    }

    /// Delete a binding by subject and target.
    fn identity_binding_delete(
        &self,
        _ns: &NamespaceRef,
        _subject: &str,
        _target: &str,
    ) -> (outcome: Result<(), StoreError>)
        default_ensures
            refused(outcome, "identity_binding_delete not implemented"@),
    {
        Err(StoreError::Rejected("identity_binding_delete not implemented".to_owned()))
    }

    /// List all bindings for an asserter anchor.
    fn identity_binding_list_by_asserter(
        &self,
        _asserter: &str,
    ) -> (outcome: Result<Vec<Self::IdentityBinding>, StoreError>)
        default_ensures
            refused(outcome, "identity_binding_list_by_asserter not implemented"@),
    {
        Err(StoreError::Rejected("identity_binding_list_by_asserter not implemented".to_owned()))
    }

    /// Store a succession declaration. Returns the address of the stored blob.
    fn identity_succession_put(
        &self,
        _succession: &Self::IdentitySuccession,
    ) -> (outcome: Result<String, StoreError>)
        default_ensures
            refused(outcome, "identity_succession_put not implemented"@),
    {
        Err(StoreError::Rejected("identity_succession_put not implemented".to_owned()))
    }

    /// Resolve the current anchor at the end of a succession chain, up to 10 hops.
    fn identity_succession_resolve(
        &self,
        _anchor: &str,
    ) -> (outcome: Result<String, StoreError>)
        default_ensures
            refused(outcome, "identity_succession_resolve not implemented"@),
    {
        Err(StoreError::Rejected("identity_succession_resolve not implemented".to_owned()))
    }

    /// The succession chain from an anchor, in order.
    fn identity_succession_chain(
        &self,
        _anchor: &str,
    ) -> (outcome: Result<Vec<String>, StoreError>)
        default_ensures
            refused(outcome, "identity_succession_chain not implemented"@),
    {
        Err(StoreError::Rejected("identity_succession_chain not implemented".to_owned()))
    }
}

/// Convenience: compute sha256 and store. Returns the kappa.
pub fn blob_put_computed<S: KappaStore + ?Sized>(store: &S, content: &[u8]) -> (kappa: Result<
    String,
    StoreError,
>)
    ensures
        exists|outcome: Result<IngestResult, StoreError>| #[trigger]
            call_ensures(S::ingest_compute, (store, Axis::Sha256, content), outcome)
                && match outcome {
                Ok(result) => kappa == Ok::<String, StoreError>(result.kappa),
                Err(e) => kappa == Err::<String, StoreError>(e),
            },
{
    match store.ingest_compute(Axis::Sha256, content) {
        Ok(result) => Ok(result.kappa),
        Err(e) => Err(e),
    }
}

/// Resolving a namespace, or creating it where there is none, came out as
/// `outcome`. Where another creation came first, the name is resolved again.
pub open spec fn resolved_or_created<S: KappaStore + ?Sized>(
    store: &S,
    name: &str,
    owner: &str,
    protocol: Option<&str>,
    outcome: Result<NamespaceRef, StoreError>,
) -> bool {
    exists|found: Result<NamespaceRef, StoreError>| #[trigger]
        call_ensures(S::namespace_resolve, (store, name, protocol), found) && match found {
            Ok(_) => outcome == found,
            Err(StoreError::NotFound(_)) => exists|made: Result<NamespaceRef, StoreError>|
                #[trigger] call_ensures(S::namespace_create, (store, name, owner, protocol), made)
                    && match made {
                    Err(StoreError::Conflict(_)) => call_ensures(
                        S::namespace_resolve,
                        (store, name, protocol),
                        outcome,
                    ),
                    _ => outcome == made,
                },
            Err(_) => outcome == found,
        }
}

/// Resolve a namespace, or create it with the given owner. A creation that
/// loses a race resolves what the other one created.
pub fn resolve_or_create<S: KappaStore + ?Sized>(
    store: &S,
    name: &str,
    owner: &str,
    protocol: Option<&str>,
) -> (outcome: Result<NamespaceRef, StoreError>)
    ensures
        resolved_or_created(store, name, owner, protocol, outcome),
{
    match store.namespace_resolve(name, protocol) {
        Ok(ns) => Ok(ns),
        Err(StoreError::NotFound(_)) => match store.namespace_create(name, owner, protocol) {
            Ok(ns) => Ok(ns),
            Err(StoreError::Conflict(_)) => store.namespace_resolve(name, protocol),
            Err(e) => Err(e),
        },
        Err(e) => Err(e),
    }
}

/// The axes of another name, in their order.
pub open spec fn axes_named_otherwise(axes: Seq<Axis>, name: Seq<char>) -> Seq<Axis> {
    axes.filter(|axis: Axis| axis@ != name)
}

/// The axes that are left are those whose name is another, in their order.
pub proof fn law_axes_left(axes: Seq<Axis>, skip: Seq<char>)
    ensures
        axes_but(axes, skip) == axes_named_otherwise(axes, skip),
    decreases axes.len(),
{
    reveal(Seq::filter);
    if axes.len() > 0 {
        law_axes_left(axes.drop_last(), skip);
    }
}

/// The address was computed for the axis from the content, and the content was put
/// under it beside the address `primary`.
pub open spec fn address_added<S: StoreBackend + ?Sized>(
    store: &S,
    primary: Seq<char>,
    axis: Axis,
    content: Seq<u8>,
    kappa: String,
) -> bool {
    exists|bytes: &[u8], computed: String, name: &str, verified: VerifiedContent|
        {
            &&& bytes@ == content
            &&& computed@ == kappa@
            &&& name@ == primary
            &&& verified@.axis == axis@
            &&& verified@.kappa == kappa@
            &&& verified@.content == content
            &&& #[trigger] call_ensures(
                S::compute_content,
                (store, &axis, bytes),
                Ok::<String, String>(computed),
            )
            &&& #[trigger] call_ensures(
                S::blob_put_additional,
                (store, name, &verified),
                Ok::<(), StoreError>(()),
            )
        }
}

/// Computing the address of the axis failed and is rejected with its text, or putting
/// the content under it failed with the error.
pub open spec fn address_failed<S: StoreBackend + ?Sized>(
    store: &S,
    primary: Seq<char>,
    axis: Axis,
    content: Seq<u8>,
    e: StoreError,
) -> bool {
    ||| exists|bytes: &[u8], text: String|
        bytes@ == content && e == StoreError::Rejected(text) && #[trigger] call_ensures(
            S::compute_content,
            (store, &axis, bytes),
            Err::<String, String>(text),
        )
    ||| exists|name: &str, verified: VerifiedContent|
        name@ == primary && verified@.axis == axis@ && verified@.content == content
            && #[trigger] call_ensures(
            S::blob_put_additional,
            (store, name, &verified),
            Err::<(), StoreError>(e),
        )
}

/// Storing under one axis adds its address or tells what failed.
proof fn axis_outcome<S: StoreBackend + ?Sized>(
    store: &S,
    primary: Seq<char>,
    axis: Axis,
    content: Seq<u8>,
    outcome: Result<String, StoreError>,
)
    requires
        axis_stored(store, primary, axis, content, outcome),
    ensures
        outcome matches Ok(kappa) ==> address_added(store, primary, axis, content, kappa),
        outcome matches Err(e) ==> address_failed(store, primary, axis, content, e),
{
    let made = choose|made: Result<VerifiedContent, String>| #[trigger]
        crate::verified::content_computed(store, axis, content, made) && match made {
            Ok(verified) => content_stored(store, primary, verified, outcome),
            Err(text) => outcome == Err::<String, StoreError>(StoreError::Rejected(text)),
        };
    let (bytes, computed) = choose|bytes: &[u8], computed: Result<String, String>|
        bytes@ == content && #[trigger] call_ensures(
            S::compute_content,
            (store, &axis, bytes),
            computed,
        ) && match computed {
            Ok(kappa) => made matches Ok(v) && v@ == (crate::verified::ContentView {
                axis: axis@,
                kappa: kappa@,
                content,
            }),
            Err(text) => made == Err::<VerifiedContent, String>(text),
        };
    assert(call_ensures(S::compute_content, (store, &axis, bytes), computed));
    match made {
        Err(text) => {
            assert(computed == Err::<String, String>(text));
        },
        Ok(verified) => {
            let (name, put) = choose|name: &str, put: Result<(), StoreError>|
                name@ == primary && #[trigger] call_ensures(
                    S::blob_put_additional,
                    (store, name, &verified),
                    put,
                ) && match put {
                    Ok(_) => outcome matches Ok(kappa) && kappa@ == verified@.kappa,
                    Err(e) => outcome == Err::<String, StoreError>(e),
                };
            assert(call_ensures(S::blob_put_additional, (store, name, &verified), put));
            match put {
                Ok(unit) => {
                    assert(put == Ok::<(), StoreError>(()));
                    assert(computed == Ok::<String, String>(computed->Ok_0));
                },
                Err(e) => {
                    assert(put == Err::<(), StoreError>(e));
                },
            }
        },
    }
}

/// The content was put under the verified address, which was new where `newly_stored`
/// says so. Then every mandatory axis with another name than `skip` got its address,
/// in order.
pub open spec fn put_under_all<S: StoreBackend + ?Sized>(
    store: &S,
    verified: VerifiedContent,
    skip: Seq<char>,
    newly_stored: bool,
    additional: Seq<String>,
) -> bool {
    &&& call_ensures(
        S::blob_put_verified,
        (store, &verified),
        Ok::<bool, StoreError>(newly_stored),
    )
    &&& exists|axes: Vec<Axis>| #[trigger]
        call_ensures(S::mandatory_axes, (store,), axes) && {
            let left = axes_named_otherwise(axes@, skip);
            &&& additional.len() == left.len()
            &&& forall|i: int|
                0 <= i < left.len() ==> #[trigger] address_added(
                    store,
                    verified@.kappa,
                    left[i],
                    verified@.content,
                    additional[i],
                )
        }
}

/// Putting under the verified address failed with the error, or it was put there and
/// one of the mandatory axes with another name than `skip` failed.
pub open spec fn put_failed<S: StoreBackend + ?Sized>(
    store: &S,
    verified: VerifiedContent,
    skip: Seq<char>,
    e: StoreError,
) -> bool {
    ||| call_ensures(S::blob_put_verified, (store, &verified), Err::<bool, StoreError>(e))
    ||| exists|newly_stored: bool, axes: Vec<Axis>, axis: Axis|
        {
            &&& #[trigger] call_ensures(
                S::blob_put_verified,
                (store, &verified),
                Ok::<bool, StoreError>(newly_stored),
            )
            &&& #[trigger] call_ensures(S::mandatory_axes, (store,), axes)
            &&& axes@.contains(axis)
            &&& axis@ != skip
            &&& #[trigger] address_failed(store, verified@.kappa, axis, verified@.content, e)
        }
}

/// An ingest that succeeds tells the address that the content was put under and
/// whether putting it there stored it newly, however many addresses were added; those
/// are told in the order of the mandatory axes. There is no ETag. One that fails tells
/// the error of what failed.
pub proof fn law_ingest_of_verified<S: StoreBackend + ?Sized>(
    store: &S,
    verified: VerifiedContent,
    skip: Seq<char>,
    outcome: Result<IngestResult, StoreError>,
)
    requires
        ingested(store, verified, skip, verified@.content, outcome),
    ensures
        outcome matches Ok(result) ==> {
            &&& result.kappa@ == verified@.kappa
            &&& result.etag is None
            &&& put_under_all(
                store,
                verified,
                skip,
                result.newly_stored,
                result.additional_kappas@,
            )
        },
        outcome matches Err(e) ==> put_failed(store, verified, skip, e),
{
    let content = verified@.content;
    if !(outcome matches Err(e) && call_ensures(
        S::blob_put_verified,
        (store, &verified),
        Err::<bool, StoreError>(e),
    )) {
        let (put, axes, rest) = choose|
            put: Result<bool, StoreError>,
            axes: Vec<Axis>,
            rest: Result<Seq<String>, StoreError>,
        |
            {
                &&& #[trigger] call_ensures(S::blob_put_verified, (store, &verified), put)
                &&& put is Ok
                &&& #[trigger] call_ensures(S::mandatory_axes, (store,), axes)
                &&& #[trigger] axes_stored(
                    store,
                    verified@.kappa,
                    axes_but(axes@, skip),
                    content,
                    rest,
                )
                &&& match rest {
                    Err(e) => outcome == Err::<IngestResult, StoreError>(e),
                    Ok(additional) => outcome matches Ok(result) && {
                        &&& result.kappa@ == verified@.kappa
                        &&& result.newly_stored == put->Ok_0
                        &&& result.additional_kappas@ == additional
                        &&& result.etag is None
                    },
                }
            };
        let newly_stored = put->Ok_0;
        assert(put == Ok::<bool, StoreError>(newly_stored));
        let left = axes_named_otherwise(axes@, skip);
        law_axes_left(axes@, skip);
        let outcomes = choose|outcomes: Seq<Result<String, StoreError>>| #[trigger]
            each_axis_stored(store, verified@.kappa, left, content, outcomes) && match rest {
                Ok(kappas) => {
                    &&& kappas.len() == left.len()
                    &&& outcomes == kappas.map_values(|k: String| Ok::<String, StoreError>(k))
                },
                Err(e) => {
                    &&& outcomes.len() > 0
                    &&& outcomes.last() == Err::<String, StoreError>(e)
                    &&& forall|i: int|
                        0 <= i < outcomes.len() - 1 ==> (#[trigger] outcomes[i]) is Ok
                },
            };
        match rest {
            Ok(kappas) => {
                assert forall|i: int| 0 <= i < left.len() implies #[trigger] address_added(
                    store,
                    verified@.kappa,
                    left[i],
                    content,
                    kappas[i],
                ) by {
                    assert(outcomes[i] == Ok::<String, StoreError>(kappas[i]));
                    axis_outcome(store, verified@.kappa, left[i], content, outcomes[i]);
                }
            },
            Err(e) => {
                let n = outcomes.len() - 1;
                assert(axis_stored(store, verified@.kappa, left[n], content, outcomes[n]));
                axis_outcome(store, verified@.kappa, left[n], content, outcomes[n]);
                assert(address_failed(store, verified@.kappa, left[n], content, e));
                axes_but_excludes(axes@, skip, n);
                axes_but_among(axes@, skip, n);
            },
        }
    }
}

/// Ingesting content under a claimed address, by the function or as a store does by
/// itself: where it succeeds, the claim was checked and held, the content was put under
/// it and under the mandatory axes but the one of the claim, and the result tells
/// whether it was new under the claimed address. Where it fails, the claim did not hold
/// and is rejected with the reason, or what failed behind it is told.
pub proof fn law_ingest_under_claim<S: StoreBackend + ?Sized>(
    store: &S,
    claimed: &str,
    content: &[u8],
    outcome: Result<IngestResult, StoreError>,
)
    requires
        call_ensures(ingest_verified::<S>, (store, claimed, content), outcome)
            || verified_ingested(store, claimed, content@, outcome),
    ensures
        outcome matches Ok(result) ==> result.kappa@ == claimed@ && result.etag is None && exists|
            bytes: &[u8],
            axis: Axis,
            verified: VerifiedContent,
        |
            {
                &&& bytes@ == content@
                &&& verified@.axis == axis@
                &&& verified@.kappa == claimed@
                &&& verified@.content == content@
                &&& #[trigger] call_ensures(
                    S::verify_content,
                    (store, claimed, bytes),
                    Ok::<Axis, String>(axis),
                )
                &&& #[trigger] put_under_all(
                    store,
                    verified,
                    axis@,
                    result.newly_stored,
                    result.additional_kappas@,
                )
            },
        outcome matches Err(e) ==> {
            ||| exists|bytes: &[u8], text: String|
                bytes@ == content@ && e == StoreError::Rejected(text) && #[trigger] call_ensures(
                    S::verify_content,
                    (store, claimed, bytes),
                    Err::<Axis, String>(text),
                )
            ||| exists|verified: VerifiedContent|
                verified@.kappa == claimed@ && verified@.content == content@
                    && #[trigger] put_failed(store, verified, verified@.axis, e)
        },
{
    let checked = choose|checked: Result<VerifiedContent, String>| #[trigger]
        crate::verified::content_checked(store, claimed, content@, checked) && match checked {
            Ok(verified) => ingested(store, verified, verified@.axis, content@, outcome),
            Err(text) => outcome == Err::<IngestResult, StoreError>(StoreError::Rejected(text)),
        };
    let (bytes, told) = choose|bytes: &[u8], told: Result<Axis, String>|
        bytes@ == content@ && #[trigger] call_ensures(
            S::verify_content,
            (store, claimed, bytes),
            told,
        ) && match told {
            Ok(axis) => checked matches Ok(v) && v@ == (crate::verified::ContentView {
                axis: axis@,
                kappa: claimed@,
                content: content@,
            }),
            Err(text) => checked == Err::<VerifiedContent, String>(text),
        };
    match checked {
        Err(text) => {
            assert(told == Err::<Axis, String>(text));
        },
        Ok(verified) => {
            law_ingest_of_verified(store, verified, verified@.axis, outcome);
            assert(told == Ok::<Axis, String>(told->Ok_0));
            if let Ok(result) = outcome {
                assert(put_under_all(
                    store,
                    verified,
                    told->Ok_0@,
                    result.newly_stored,
                    result.additional_kappas@,
                ));
            }
        },
    }
}

/// Ingesting content under the address of an axis, by the function or as a store does
/// by itself: where it succeeds, the address was computed from the content, the content
/// was put under it and under the mandatory axes of other names, and the result tells
/// whether it was new under the computed address. Where it fails, no address could be
/// computed and that is rejected with the reason, or what failed behind it is told.
pub proof fn law_ingest_under_axis<S: StoreBackend + ?Sized>(
    store: &S,
    axis: Axis,
    content: &[u8],
    outcome: Result<IngestResult, StoreError>,
)
    requires
        call_ensures(ingest_compute::<S>, (store, axis, content), outcome)
            || computed_ingested(store, axis, content@, outcome),
    ensures
        outcome matches Ok(result) ==> result.etag is None && exists|
            bytes: &[u8],
            kappa: String,
            verified: VerifiedContent,
        |
            {
                &&& bytes@ == content@
                &&& kappa@ == result.kappa@
                &&& verified@.axis == axis@
                &&& verified@.kappa == kappa@
                &&& verified@.content == content@
                &&& #[trigger] call_ensures(
                    S::compute_content,
                    (store, &axis, bytes),
                    Ok::<String, String>(kappa),
                )
                &&& #[trigger] put_under_all(
                    store,
                    verified,
                    axis@,
                    result.newly_stored,
                    result.additional_kappas@,
                )
            },
        outcome matches Err(e) ==> {
            ||| exists|bytes: &[u8], text: String|
                bytes@ == content@ && e == StoreError::Rejected(text) && #[trigger] call_ensures(
                    S::compute_content,
                    (store, &axis, bytes),
                    Err::<String, String>(text),
                )
            ||| exists|verified: VerifiedContent|
                verified@.axis == axis@ && verified@.content == content@ && #[trigger] put_failed(
                    store,
                    verified,
                    axis@,
                    e,
                )
        },
{
    let made = choose|made: Result<VerifiedContent, String>| #[trigger]
        crate::verified::content_computed(store, axis, content@, made) && match made {
            Ok(verified) => ingested(store, verified, axis@, content@, outcome),
            Err(text) => outcome == Err::<IngestResult, StoreError>(StoreError::Rejected(text)),
        };
    let (bytes, computed) = choose|bytes: &[u8], computed: Result<String, String>|
        bytes@ == content@ && #[trigger] call_ensures(
            S::compute_content,
            (store, &axis, bytes),
            computed,
        ) && match computed {
            Ok(kappa) => made matches Ok(v) && v@ == (crate::verified::ContentView {
                axis: axis@,
                kappa: kappa@,
                content: content@,
            }),
            Err(text) => made == Err::<VerifiedContent, String>(text),
        };
    match made {
        Err(text) => {
            assert(computed == Err::<String, String>(text));
        },
        Ok(verified) => {
            law_ingest_of_verified(store, verified, axis@, outcome);
            assert(computed == Ok::<String, String>(computed->Ok_0));
        },
    }
}

/// Where putting content under its address always comes out as `newly_stored`, an
/// ingest that succeeds says the same, whatever addresses were added.
pub proof fn law_ingest_tells_newness<S: StoreBackend + ?Sized>(
    store: &S,
    verified: VerifiedContent,
    skip: Seq<char>,
    result: IngestResult,
    newly_stored: bool,
)
    requires
        ingested(
            store,
            verified,
            skip,
            verified@.content,
            Ok::<IngestResult, StoreError>(result),
        ),
        forall|put: Result<bool, StoreError>| #[trigger]
            call_ensures(S::blob_put_verified, (store, &verified), put) ==> put == Ok::<
                bool,
                StoreError,
            >(newly_stored),
    ensures
        result.newly_stored == newly_stored,
{
    law_ingest_of_verified(store, verified, skip, Ok::<IngestResult, StoreError>(result));
}

/// A rejection with a text is an error of that kind with that text.
pub proof fn law_refusal<T>(outcome: Result<T, StoreError>, text: Seq<char>)
    ensures
        refused(outcome, text) <==> (outcome matches Err(StoreError::Rejected(told)) && told@
            == text),
{
}

/// Storing edges succeeds where every one of them was stored; else it tells the error
/// of the first that was not, and those before it were stored.
pub proof fn law_edges_in_turn<S: StoreBackend + ?Sized>(
    store: &S,
    ns: &NamespaceRef,
    edges: Seq<S::Edge>,
    outcome: Result<(), StoreError>,
)
    requires
        edges_stored(store, ns, edges, outcome),
    ensures
        outcome is Ok ==> forall|i: int|
            0 <= i < edges.len() ==> call_ensures(
                S::edge_put,
                (store, ns, #[trigger] &edges[i]),
                Ok::<(), StoreError>(()),
            ),
        outcome matches Err(e) ==> exists|n: int|
            {
                &&& 0 <= n < edges.len()
                &&& call_ensures(
                    S::edge_put,
                    (store, ns, #[trigger] &edges[n]),
                    Err::<(), StoreError>(e),
                )
                &&& forall|i: int|
                    0 <= i < n ==> call_ensures(
                        S::edge_put,
                        (store, ns, #[trigger] &edges[i]),
                        Ok::<(), StoreError>(()),
                    )
            },
{
    let n = choose|n: int| #[trigger]
        edges_put(store, ns, edges, n) && match outcome {
            Ok(()) => n == edges.len(),
            Err(e) => 0 <= n < edges.len() && call_ensures(
                S::edge_put,
                (store, ns, &edges[n]),
                Err::<(), StoreError>(e),
            ),
        };
    assert forall|i: int| 0 <= i < n implies call_ensures(
        S::edge_put,
        (store, ns, #[trigger] &edges[i]),
        Ok::<(), StoreError>(()),
    ) by {
        assert(edge_stored(store, ns, edges[i]));
        let put = choose|put: Result<(), StoreError>| #[trigger]
            call_ensures(S::edge_put, (store, ns, &edges[i]), put) && put is Ok;
        assert(put->Ok_0 == ());
        assert(put == Ok::<(), StoreError>(()));
    }
}

/// Opening a blob gives a reader over exactly the bytes that are at its address, or
/// the error of getting them.
pub proof fn law_blob_is_opened<S: StoreBackend + ?Sized>(
    store: &S,
    kappa: &str,
    outcome: Result<S::Reader, StoreError>,
)
    requires
        blob_opened(store, kappa, outcome),
    ensures
        outcome matches Ok(reader) ==> exists|content: Vec<u8>|
            call_ensures(S::blob_get, (store, kappa), Ok::<Vec<u8>, StoreError>(content))
                && #[trigger] call_ensures(S::reader_over, (store, content), reader),
        outcome matches Err(e) ==> call_ensures(
            S::blob_get,
            (store, kappa),
            Err::<Vec<u8>, StoreError>(e),
        ),
{
    let got = choose|got: Result<Vec<u8>, StoreError>| #[trigger]
        call_ensures(S::blob_get, (store, kappa), got) && match got {
            Ok(content) => outcome matches Ok(reader) && call_ensures(
                S::reader_over,
                (store, content),
                reader,
            ),
            Err(e) => outcome == Err::<S::Reader, StoreError>(e),
        };
    match got {
        Ok(content) => {
            assert(got == Ok::<Vec<u8>, StoreError>(content));
        },
        Err(e) => {
            assert(got == Err::<Vec<u8>, StoreError>(e));
        },
    }
}

/// Bytes are handed out, all of them, exactly where they have their address. Otherwise
/// the read is rejected with the address, and with the reason where the check itself
/// failed.
pub proof fn law_read_is_judged(
    kappa: &str,
    content: Vec<u8>,
    matching: Result<bool, String>,
    outcome: Result<Vec<u8>, StoreError>,
)
    requires
        call_ensures(judge_read, (kappa, content, matching), outcome),
    ensures
        outcome is Ok <==> matching == Ok::<bool, String>(true),
        outcome matches Ok(bytes) ==> bytes@ == content@,
        matching == Ok::<bool, String>(false) ==> (outcome matches Err(StoreError::Rejected(text))
            && text@ == "integrity failure: content at "@ + kappa@
            + " does not match its address"@),
        matching matches Err(reason) ==> (outcome matches Err(StoreError::Rejected(text)) && text@
            == "integrity check failed for "@ + kappa@ + ": "@ + reason@),
{
}

/// A verified read hands out the bytes that are at the address, and only where the
/// check of them said that they have it. Otherwise it tells the error of getting them
/// or rejects what the check did not accept.
pub proof fn law_verified_read<S: StoreBackend + ?Sized>(
    store: &S,
    kappa: &str,
    outcome: Result<Vec<u8>, StoreError>,
)
    requires
        blob_read_verified(store, kappa, outcome),
    ensures
        outcome matches Ok(read) ==> exists|content: Vec<u8>, bytes: &[u8]|
            {
                &&& content@ == read@
                &&& bytes@ == read@
                &&& #[trigger] call_ensures(
                    S::blob_get,
                    (store, kappa),
                    Ok::<Vec<u8>, StoreError>(content),
                )
                &&& #[trigger] call_ensures(
                    S::verify_kappa,
                    (store, kappa, bytes),
                    Ok::<bool, String>(true),
                )
            },
        outcome matches Err(e) ==> {
            ||| call_ensures(S::blob_get, (store, kappa), Err::<Vec<u8>, StoreError>(e))
            ||| exists|content: Vec<u8>, bytes: &[u8], matching: Result<bool, String>|
                {
                    &&& content@ == bytes@
                    &&& #[trigger] call_ensures(
                        S::blob_get,
                        (store, kappa),
                        Ok::<Vec<u8>, StoreError>(content),
                    )
                    &&& #[trigger] call_ensures(S::verify_kappa, (store, kappa, bytes), matching)
                    &&& matching == Ok::<bool, String>(false) ==> (e matches StoreError::Rejected(
                        text,
                    ) && text@ == "integrity failure: content at "@ + kappa@
                        + " does not match its address"@)
                    &&& matching matches Err(reason) ==> (e matches StoreError::Rejected(text)
                        && text@ == "integrity check failed for "@ + kappa@ + ": "@ + reason@)
                    &&& matching != Ok::<bool, String>(true)
                }
        },
{
    let got = choose|got: Result<Vec<u8>, StoreError>| #[trigger]
        call_ensures(S::blob_get, (store, kappa), got) && match got {
            Err(e) => outcome == Err::<Vec<u8>, StoreError>(e),
            Ok(content) => exists|bytes: &[u8], matching: Result<bool, String>|
                bytes@ == content@ && #[trigger] call_ensures(
                    S::verify_kappa,
                    (store, kappa, bytes),
                    matching,
                ) && read_outcome(outcome) == verified_read(kappa@, content@, matching),
        };
    match got {
        Err(e) => {
            assert(got == Err::<Vec<u8>, StoreError>(e));
        },
        Ok(content) => {
            assert(got == Ok::<Vec<u8>, StoreError>(content));
            let (bytes, matching) = choose|bytes: &[u8], matching: Result<bool, String>|
                bytes@ == content@ && #[trigger] call_ensures(
                    S::verify_kappa,
                    (store, kappa, bytes),
                    matching,
                ) && read_outcome(outcome) == verified_read(kappa@, content@, matching);
            assert(call_ensures(S::verify_kappa, (store, kappa, bytes), matching));
            if outcome is Ok {
                assert(matching == Ok::<bool, String>(true));
            }
        },
    }
}

/// Storing under a computed address is ingesting under SHA-256, of which only the
/// address, or the error, is told.
pub proof fn law_computed_put<S: KappaStore + ?Sized>(
    store: &S,
    content: &[u8],
    kappa: Result<String, StoreError>,
)
    requires
        call_ensures(blob_put_computed::<S>, (store, content), kappa),
    ensures
        kappa matches Ok(k) ==> exists|result: IngestResult|
            result.kappa == k && #[trigger] call_ensures(
                S::ingest_compute,
                (store, Axis::Sha256, content),
                Ok::<IngestResult, StoreError>(result),
            ),
        kappa matches Err(e) ==> call_ensures(
            S::ingest_compute,
            (store, Axis::Sha256, content),
            Err::<IngestResult, StoreError>(e),
        ),
{
    let outcome = choose|outcome: Result<IngestResult, StoreError>| #[trigger]
        call_ensures(S::ingest_compute, (store, Axis::Sha256, content), outcome) && match outcome {
            Ok(result) => kappa == Ok::<String, StoreError>(result.kappa),
            Err(e) => kappa == Err::<String, StoreError>(e),
        };
    match outcome {
        Ok(result) => {
            assert(outcome == Ok::<IngestResult, StoreError>(result));
        },
        Err(e) => {
            assert(outcome == Err::<IngestResult, StoreError>(e));
        },
    }
}

/// A name that is resolved is not created: what is found, or an error other than that
/// nothing was, is told. A name that is not found is created for the owner, and what
/// came of that is told, but for a conflict: then it is resolved once more.
pub proof fn law_resolved_before_created<S: KappaStore + ?Sized>(
    store: &S,
    name: &str,
    owner: &str,
    protocol: Option<&str>,
    outcome: Result<NamespaceRef, StoreError>,
)
    requires
        call_ensures(resolve_or_create::<S>, (store, name, owner, protocol), outcome),
    ensures
        call_ensures(S::namespace_resolve, (store, name, protocol), outcome) || call_ensures(
            S::namespace_create,
            (store, name, owner, protocol),
            outcome,
        ),
        (forall|found: Result<NamespaceRef, StoreError>| #[trigger]
            call_ensures(S::namespace_resolve, (store, name, protocol), found) ==> !(
            found matches Err(StoreError::NotFound(_)))) ==> call_ensures(
            S::namespace_resolve,
            (store, name, protocol),
            outcome,
        ),
        (forall|found: Result<NamespaceRef, StoreError>| #[trigger]
            call_ensures(S::namespace_resolve, (store, name, protocol), found) ==> (
            found matches Err(StoreError::NotFound(_)))) && !(
        outcome matches Err(StoreError::NotFound(_))) ==> call_ensures(
            S::namespace_create,
            (store, name, owner, protocol),
            outcome,
        ) && !(outcome matches Err(StoreError::Conflict(_))),
        outcome matches Err(StoreError::Conflict(_)) ==> call_ensures(
            S::namespace_resolve,
            (store, name, protocol),
            outcome,
        ),
{
}

/// A result is built of its parts: what is added to it changes nothing else.
pub proof fn law_ingest_result_is_built(
    kappa: String,
    newly_stored: bool,
    additional: Vec<String>,
    etag: String,
    bare: IngestResult,
    longer: IngestResult,
    tagged: IngestResult,
)
    requires
        call_ensures(IngestResult::new, (kappa, newly_stored), bare),
        call_ensures(IngestResult::with_additional, (bare, additional), longer),
        call_ensures(IngestResult::with_etag, (longer, etag), tagged),
    ensures
        bare.kappa@ == kappa@,
        bare.newly_stored == newly_stored,
        bare.additional_kappas@.len() == 0,
        bare.etag is None,
        longer.etag is None,
        tagged.kappa@ == kappa@,
        tagged.newly_stored == newly_stored,
        tagged.additional_kappas@ == additional@,
        tagged.etag matches Some(e) && e@ == etag@,
{
}

} // verus!
