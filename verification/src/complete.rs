//! Completing an upload: what is hashed, what is accepted, and in which order
//! the staged file becomes a blob.

use crate::parts::{combined_crc, compute_composite_etag, Crc, PartDigests};
use crate::store::IngestResult;
use crate::text::{contains_text, hex_text, joined, same_text};
use crate::types::{Axis, StoreError, StoreErrorView};
use crate::upload::Refusal;
use vstd::prelude::*;
use vstd::string::*;

verus! {

/// The algorithm that a claimed digest names in front of its first colon;
/// SHA-256 where nothing is claimed or no colon is there.
pub open spec fn claimed_algorithm(claimed: Option<Seq<char>>) -> Seq<char> {
    match claimed {
        Some(c) => if c.contains(':') {
            c.take(c.index_of_first(':')->0)
        } else {
            "sha256"@
        },
        None => "sha256"@,
    }
}

/// An optional text as an optional sequence of characters.
pub open spec fn text_option(text: Option<&str>) -> Option<Seq<char>> {
    match text {
        Some(t) => Some(t@),
        None => None,
    }
}

/// The algorithms to hash under: the first, then each mandatory one that is not
/// among them yet.
pub open spec fn hashing_axes(algorithm: Seq<char>, mandatory: Seq<Axis>) -> Seq<Seq<char>>
    decreases mandatory.len(),
{
    if mandatory.len() == 0 {
        seq![algorithm]
    } else {
        let before = hashing_axes(algorithm, mandatory.drop_last());
        if before.contains(mandatory.last()@) {
            before
        } else {
            before.push(mandatory.last()@)
        }
    }
}

/// The algorithm that a claimed digest names.
pub fn digest_algorithm(claimed: Option<&str>) -> (algorithm: String)
    ensures
        algorithm@ == claimed_algorithm(text_option(claimed)),
{
    match claimed {
        None => "sha256".to_owned(),
        Some(digest) => {
            let n: usize = digest.unicode_len();
            let mut i: usize = 0;
            while i < n
                invariant
                    text_option(claimed) == Some(digest@),
                    n == digest@.len(),
                    i <= n,
                    forall|j: int| 0 <= j < i ==> #[trigger] digest@[j] != ':',
                decreases n - i,
            {
                if digest.get_char(i) == ':' {
                    proof {
                        assert(digest@[i as int] == ':');
                        assert(digest@.contains(':'));
                        digest@.index_of_first_ensures(':');
                        assert(digest@.index_of_first(':') == Some(i as int));
                        assert(digest@.subrange(0, i as int) =~= digest@.take(i as int));
                    }
                    return digest.substring_char(0, i).to_owned();
                }
                i = i + 1;
            }
            "sha256".to_owned()
        },
    }
}

/// The algorithms to hash a staged file under.
pub fn upload_axes(claimed: Option<&str>, mandatory: &Vec<Axis>) -> (axes: Vec<String>)
    ensures
        crate::text::texts(axes@) == hashing_axes(
            claimed_algorithm(text_option(claimed)),
            mandatory@,
        ),
{
    let algorithm = digest_algorithm(claimed);
    let ghost name = algorithm@;
    let mut axes: Vec<String> = Vec::new();
    axes.push(algorithm);
    let mut i: usize = 0;
    assert(mandatory@.take(0) =~= Seq::<Axis>::empty());
    assert(crate::text::texts(axes@) =~= seq![name]);
    while i < mandatory.len()
        invariant
            i <= mandatory@.len(),
            crate::text::texts(axes@) == hashing_axes(name, mandatory@.take(i as int)),
        decreases mandatory@.len() - i,
    {
        let axis = mandatory[i].as_str();
        assert(mandatory@.take(i + 1).drop_last() =~= mandatory@.take(i as int));
        if !contains_text(&axes, axis) {
            let ghost before = crate::text::texts(axes@);
            axes.push(axis.to_owned());
            assert(crate::text::texts(axes@) =~= before.push(axis@));
        }
        i = i + 1;
    }
    assert(mandatory@.take(i as int) =~= mandatory@);
    axes
}

/// The staged content is hashed under the claimed algorithm first, under every
/// mandatory one, SHA-256 among them, and under none twice.
pub proof fn law_axes_are_covered(algorithm: Seq<char>, mandatory: Seq<Axis>)
    ensures
        hashing_axes(algorithm, mandatory).len() > 0,
        hashing_axes(algorithm, mandatory)[0] == algorithm,
        hashing_axes(algorithm, mandatory).no_duplicates(),
        forall|i: int|
            0 <= i < mandatory.len() ==> hashing_axes(algorithm, mandatory).contains(
                (#[trigger] mandatory[i])@,
            ),
        crate::store::has_sha256(mandatory) ==> hashing_axes(algorithm, mandatory).contains(
            "sha256"@,
        ),
    decreases mandatory.len(),
{
    let axes = hashing_axes(algorithm, mandatory);
    if mandatory.len() > 0 {
        let before = hashing_axes(algorithm, mandatory.drop_last());
        law_axes_are_covered(algorithm, mandatory.drop_last());
        assert forall|i: int| 0 <= i < mandatory.len() implies axes.contains(
            (#[trigger] mandatory[i])@,
        ) by {
            if i < mandatory.len() - 1 {
                assert(mandatory.drop_last()[i] == mandatory[i]);
                let j = choose|j: int| 0 <= j < before.len() && before[j] == mandatory[i]@;
                assert(axes[j] == before[j]);
            } else if !before.contains(mandatory.last()@) {
                assert(axes[before.len() as int] == mandatory.last()@);
            }
        }
    }
}

/// What becomes of an upload whose content hashes to `computed`: nothing, or the
/// error.
pub open spec fn digest_verdict(claimed: Option<Seq<char>>, computed: Seq<char>) -> Option<
    StoreErrorView,
> {
    match claimed {
        Some(c) => if c == computed {
            None
        } else {
            Some(
                StoreErrorView::Rejected(
                    "digest mismatch: expected "@ + c + ", computed "@ + computed,
                ),
            )
        },
        None => None,
    }
}

/// Hold the computed digest against the claimed one. Where they differ the
/// staging file is to go.
pub fn check_digest(claimed: Option<&str>, computed: &str) -> (verdict: Result<(), Refusal>)
    ensures
        match verdict {
            Ok(()) => digest_verdict(text_option(claimed), computed@) is None,
            Err(r) => r.remove_staging && digest_verdict(text_option(claimed), computed@) == Some(
                r.error@,
            ),
        },
{
    match claimed {
        None => Ok(()),
        Some(digest) => {
            if same_text(digest, computed) {
                Ok(())
            } else {
                let mut text = joined("digest mismatch: expected ", digest);
                text.append(", computed ");
                text.append(computed);
                Err(Refusal { error: StoreError::Rejected(text), remove_staging: true })
            }
        },
    }
}

/// One step of turning a staged file into a blob. The source is the file that
/// becomes the blob: the staging file, or its ciphertext.
#[derive(Debug)]
pub enum CompletionStep {
    /// Remove the source: the blob is there already.
    DiscardSource,
    /// Create the directory of the blob.
    CreateBlobDir,
    /// Flush the source to disk.
    SyncSource,
    /// Give the source the name of the blob.
    RenameSource,
    /// Flush the directory of the blob to disk.
    SyncBlobDir,
    /// Record where the blob of this address is and how to decrypt it.
    Bind(String),
    /// Remove the staging file.
    RemoveStaging,
    /// Make the blob reachable under this address too.
    Link(String),
    /// Keep a metadata value of the blob.
    PutMeta(String, Vec<u8>),
    /// Keep the part manifest of the blob.
    PutManifest,
}

/// A [`CompletionStep`] with its texts as sequences of characters.
#[verifier::ext_equal]
pub enum StepView {
    DiscardSource,
    CreateBlobDir,
    SyncSource,
    RenameSource,
    SyncBlobDir,
    Bind(Seq<char>),
    RemoveStaging,
    Link(Seq<char>),
    PutMeta(Seq<char>, Seq<u8>),
    PutManifest,
}

impl View for CompletionStep {
    type V = StepView;

    open spec fn view(&self) -> StepView {
        match self {
            CompletionStep::DiscardSource => StepView::DiscardSource,
            CompletionStep::CreateBlobDir => StepView::CreateBlobDir,
            CompletionStep::SyncSource => StepView::SyncSource,
            CompletionStep::RenameSource => StepView::RenameSource,
            CompletionStep::SyncBlobDir => StepView::SyncBlobDir,
            CompletionStep::Bind(sigma) => StepView::Bind(sigma@),
            CompletionStep::RemoveStaging => StepView::RemoveStaging,
            CompletionStep::Link(kappa) => StepView::Link(kappa@),
            CompletionStep::PutMeta(key, value) => StepView::PutMeta(key@, value@),
            CompletionStep::PutManifest => StepView::PutManifest,
        }
    }
}

/// The steps by their views.
pub open spec fn steps_view(steps: Seq<CompletionStep>) -> Seq<StepView> {
    steps.map_values(|s: CompletionStep| s@)
}

/// How the source becomes the blob. Its bytes reach the disk before its name
/// does, and the name is flushed after.
pub open spec fn publish_steps(exists: bool, fsync: bool) -> Seq<StepView> {
    if exists {
        seq![StepView::DiscardSource]
    } else if fsync {
        seq![
            StepView::CreateBlobDir,
            StepView::SyncSource,
            StepView::RenameSource,
            StepView::SyncBlobDir,
        ]
    } else {
        seq![StepView::CreateBlobDir, StepView::RenameSource]
    }
}

/// A binding record for each address.
pub open spec fn bind_steps(sigmas: Seq<Seq<char>>) -> Seq<StepView> {
    sigmas.map_values(|s: Seq<char>| StepView::Bind(s))
}

/// A link for each address.
pub open spec fn link_steps(kappas: Seq<Seq<char>>) -> Seq<StepView> {
    kappas.map_values(|k: Seq<char>| StepView::Link(k))
}

/// The eight bytes of `n`, the most significant first.
pub open spec fn be_bytes64(n: u64) -> Seq<u8> {
    crate::crypto::aead::be_bytes((n / 0x1_0000_0000) as u32) + crate::crypto::aead::be_bytes(
        (n % 0x1_0000_0000) as u32,
    )
}

/// What is kept about the parts: the checksums of the whole and the manifest;
/// nothing where there are no parts.
pub open spec fn part_steps(parts: Seq<PartDigests>) -> Seq<StepView> {
    if parts.len() == 0 {
        Seq::empty()
    } else {
        seq![
            StepView::PutMeta(
                "_s3_checksum_crc32c"@,
                crate::crypto::aead::be_bytes(
                    (crate::parts::crc_over(Crc::Crc32c, parts) % 0x1_0000_0000) as u32,
                ),
            ),
            StepView::PutMeta(
                "_s3_checksum_crc64nvme"@,
                be_bytes64(crate::parts::crc_over(Crc::Crc64Nvme, parts)),
            ),
            StepView::PutManifest,
        ]
    }
}

/// All steps of a completion, in order. `encrypted` tells whether the source is
/// a ciphertext.
pub open spec fn completion_steps(
    encrypted: bool,
    fsync: bool,
    exists: bool,
    digest: Seq<char>,
    additional: Seq<Seq<char>>,
    parts: Seq<PartDigests>,
) -> Seq<StepView> {
    publish_steps(exists, fsync) + if encrypted {
        bind_steps(seq![digest] + additional).push(StepView::RemoveStaging)
    } else {
        link_steps(additional)
    } + part_steps(parts)
}

/// What completing an upload does and returns.
pub struct CompletionPlan {
    /// What is to be done, in this order.
    pub steps: Vec<CompletionStep>,
    /// What is returned when it is done.
    pub result: IngestResult,
}

impl CompletionPlan {
    /// The plan turns a staged file with this digest and these additional
    /// addresses into a blob, at the address of its ciphertext where there is one.
    pub open spec fn completes(
        self,
        digest: Seq<char>,
        additional: Seq<Seq<char>>,
        ciphertext: Option<String>,
        exists: bool,
        fsync: bool,
        parts: Seq<PartDigests>,
    ) -> bool {
        &&& steps_view(self.steps@) == completion_steps(
            ciphertext is Some,
            fsync,
            exists,
            digest,
            additional,
            parts,
        )
        &&& self.result.kappa@ == match ciphertext {
            Some(kappa) => kappa@,
            None => digest,
        }
        &&& self.result.newly_stored == !exists
        &&& crate::text::texts(self.result.additional_kappas@) == additional
        &&& match self.result.etag {
            Some(etag) => crate::parts::composite_etag(parts) == Some(etag@),
            None => crate::parts::composite_etag(parts) is None,
        }
    }
}

/// Completing an upload came out as `decision`. Content that could not be hashed
/// and content that does not have the claimed digest are rejected, and the
/// staging file is to go; any other content is published under its addresses,
/// the first of which is its digest.
pub open spec fn completion_decided(
    claimed: Option<Seq<char>>,
    hashed: Result<Vec<String>, String>,
    ciphertext: Option<String>,
    exists: bool,
    fsync: bool,
    parts: Seq<PartDigests>,
    decision: Result<CompletionPlan, Refusal>,
) -> bool {
    match hashed {
        Err(text) => decision matches Err(r) && r.remove_staging && r.error@
            == StoreErrorView::Rejected(text@),
        Ok(addresses) => match digest_verdict(claimed, addresses@[0]@) {
            Some(error) => decision matches Err(r) && r.remove_staging && r.error@ == error,
            None => decision matches Ok(plan) && plan.completes(
                addresses@[0]@,
                crate::text::texts(addresses@).skip(1),
                ciphertext,
                exists,
                fsync,
                parts,
            ),
        },
    }
}

/// Four bytes, the most significant first.
fn be32(n: u32) -> (bytes: Vec<u8>)
    ensures
        bytes@ == crate::crypto::aead::be_bytes(n),
{
    let mut bytes: Vec<u8> = Vec::new();
    bytes.push((n / 0x100_0000) as u8);
    bytes.push((n / 0x1_0000 % 0x100) as u8);
    bytes.push((n / 0x100 % 0x100) as u8);
    bytes.push((n % 0x100) as u8);
    assert(bytes@ =~= crate::crypto::aead::be_bytes(n));
    bytes
}

/// Eight bytes, the most significant first.
fn be64(n: u64) -> (bytes: Vec<u8>)
    ensures
        bytes@ == be_bytes64(n),
{
    let mut bytes = be32((n / 0x1_0000_0000) as u32);
    let low = be32((n % 0x1_0000_0000) as u32);
    let ghost high = bytes@;
    bytes.extend_from_slice(low.as_slice());
    assert(bytes@ =~= high + low@);
    bytes
}

/// How the source becomes the blob.
fn publish(exists: bool, fsync: bool) -> (steps: Vec<CompletionStep>)
    ensures
        steps_view(steps@) == publish_steps(exists, fsync),
{
    let mut steps: Vec<CompletionStep> = Vec::new();
    if exists {
        steps.push(CompletionStep::DiscardSource);
    } else {
        steps.push(CompletionStep::CreateBlobDir);
        if fsync {
            steps.push(CompletionStep::SyncSource);
        }
        steps.push(CompletionStep::RenameSource);
        if fsync {
            steps.push(CompletionStep::SyncBlobDir);
        }
    }
    assert(steps_view(steps@) =~= publish_steps(exists, fsync));
    steps
}

/// Plan the completion of an upload whose digest is verified.
fn plan_completion(
    digest: String,
    additional: Vec<String>,
    ciphertext: Option<String>,
    exists: bool,
    fsync: bool,
    parts: &[PartDigests],
) -> (plan: CompletionPlan)
    ensures
        plan.completes(
            digest@,
            crate::text::texts(additional@),
            ciphertext,
            exists,
            fsync,
            parts@,
        ),
{
    let ghost names = crate::text::texts(additional@);
    let ghost head = publish_steps(exists, fsync);
    let mut steps = publish(exists, fsync);
    let encrypted = ciphertext.is_some();
    if encrypted {
        steps.push(CompletionStep::Bind(digest.clone()));
    }
    let mut i: usize = 0;
    let ghost base = steps_view(steps@);
    assert(names.take(0) =~= Seq::<Seq<char>>::empty());
    assert(base =~= head + if encrypted {
        bind_steps(seq![digest@])
    } else {
        Seq::empty()
    });
    assert(steps_view(steps@) =~= base + if encrypted {
        bind_steps(names.take(0))
    } else {
        link_steps(names.take(0))
    });
    while i < additional.len()
        invariant
            i <= additional@.len(),
            names == crate::text::texts(additional@),
            steps_view(steps@) == base + if encrypted {
                bind_steps(names.take(i as int))
            } else {
                link_steps(names.take(i as int))
            },
        decreases additional@.len() - i,
    {
        let ghost before = steps_view(steps@);
        let name = additional[i].clone();
        if encrypted {
            steps.push(CompletionStep::Bind(name));
            assert(bind_steps(names.take(i + 1)) =~= bind_steps(names.take(i as int)).push(
                StepView::Bind(names[i as int]),
            ));
            assert(steps_view(steps@) =~= before.push(StepView::Bind(names[i as int])));
        } else {
            steps.push(CompletionStep::Link(name));
            assert(link_steps(names.take(i + 1)) =~= link_steps(names.take(i as int)).push(
                StepView::Link(names[i as int]),
            ));
            assert(steps_view(steps@) =~= before.push(StepView::Link(names[i as int])));
        }
        i = i + 1;
    }
    assert(names.take(i as int) =~= names);
    assert(bind_steps(seq![digest@] + names) =~= bind_steps(seq![digest@]) + bind_steps(names));
    let ghost before = steps_view(steps@);
    if encrypted {
        steps.push(CompletionStep::RemoveStaging);
        assert(steps_view(steps@) =~= before.push(StepView::RemoveStaging));
    }
    let ghost middle = if encrypted {
        bind_steps(seq![digest@] + names).push(StepView::RemoveStaging)
    } else {
        link_steps(names)
    };
    assert(steps_view(steps@) =~= head + middle);
    let kappa = match ciphertext {
        Some(kappa) => kappa,
        None => digest,
    };
    let mut result = IngestResult::new(kappa, !exists).with_additional(additional);
    if let Some(etag) = compute_composite_etag(parts) {
        result = result.with_etag(etag);
    }
    if let Some(crc32c) = combined_crc(Crc::Crc32c, parts) {
        let value = be32((crc32c % 0x1_0000_0000) as u32);
        steps.push(CompletionStep::PutMeta("_s3_checksum_crc32c".to_owned(), value));
    }
    if let Some(crc64nvme) = combined_crc(Crc::Crc64Nvme, parts) {
        let value = be64(crc64nvme);
        steps.push(CompletionStep::PutMeta("_s3_checksum_crc64nvme".to_owned(), value));
    }
    if parts.len() > 0 {
        steps.push(CompletionStep::PutManifest);
    }
    assert(steps_view(steps@) =~= head + middle + part_steps(parts@));
    CompletionPlan { steps, result }
}

/// Decide the completion of an upload from what is known by then: the digest that
/// was claimed, the addresses that the staged content hashes to or why it could
/// not be hashed, the address of the ciphertext where the content is encrypted,
/// whether a blob is already there, and the parts.
pub fn decide_completion(
    claimed: Option<&str>,
    hashed: Result<Vec<String>, String>,
    ciphertext: Option<String>,
    exists: bool,
    fsync: bool,
    parts: &[PartDigests],
) -> (decision: Result<CompletionPlan, Refusal>)
    requires
        hashed matches Ok(addresses) ==> addresses@.len() > 0,
    ensures
        completion_decided(
            text_option(claimed),
            hashed,
            ciphertext,
            exists,
            fsync,
            parts@,
            decision,
        ),
{
    match hashed {
        Err(text) => Err(Refusal { error: StoreError::Rejected(text), remove_staging: true }),
        Ok(addresses) => {
            let ghost all = addresses@;
            match check_digest(claimed, addresses[0].as_str()) {
                Err(refusal) => Err(refusal),
                Ok(()) => {
                    let mut additional = addresses;
                    let digest = additional.remove(0);
                    assert(crate::text::texts(additional@) =~= crate::text::texts(all).skip(1));
                    Ok(plan_completion(digest, additional, ciphertext, exists, fsync, parts))
                },
            }
        },
    }
}

/// Nothing is published but under the digest that the content hashes to, and
/// where a digest was claimed it is that one.
pub proof fn law_published_digest_is_verified(
    claimed: Option<Seq<char>>,
    hashed: Result<Vec<String>, String>,
    ciphertext: Option<String>,
    exists: bool,
    fsync: bool,
    parts: Seq<PartDigests>,
    decision: Result<CompletionPlan, Refusal>,
)
    requires
        completion_decided(claimed, hashed, ciphertext, exists, fsync, parts, decision),
    ensures
        decision matches Ok(plan) ==> {
            &&& hashed is Ok
            &&& claimed is Some ==> claimed == Some(hashed->Ok_0@[0]@)
            &&& ciphertext is None ==> plan.result.kappa@ == hashed->Ok_0@[0]@
        },
        decision matches Err(r) ==> r.remove_staging && r.error@ is Rejected,
        decision is Err <==> hashed is Err || claimed is Some && claimed != Some(
            hashed->Ok_0@[0]@,
        ),
{
}

/// The ETag that a completion returns is made of the MD5 digests of the pieces
/// that were recorded in the session and of their number, whatever was claimed
/// and encrypted or not; there is none without a piece.
pub proof fn law_etag_of_completed_upload(
    states: Seq<crate::upload::SessionView>,
    pieces: Seq<Seq<u8>>,
    claimed: Option<Seq<char>>,
    hashed: Result<Vec<String>, String>,
    ciphertext: Option<String>,
    exists: bool,
    fsync: bool,
    plan: CompletionPlan,
)
    requires
        crate::upload::recorded(states, pieces),
        completion_decided(
            claimed,
            hashed,
            ciphertext,
            exists,
            fsync,
            states.last().parts,
            Ok::<CompletionPlan, Refusal>(plan),
        ),
    ensures
        pieces.len() == 0 <==> plan.result.etag is None,
        pieces.len() > 0 ==> plan.result.etag->0@ == crate::parts::etag_of(
            crate::parts::md5_hash(crate::parts::piece_md5s(pieces)),
            pieces.len(),
        ),
{
    crate::upload::law_parts_digest_pieces(states, pieces);
    crate::parts::law_etag_of_pieces(states.last().parts, pieces);
}

/// What a completion works on, apart from metadata.
#[verifier::ext_equal]
pub struct BlobFiles {
    /// The staging file, where there is one.
    pub staging: Option<Seq<u8>>,
    /// The ciphertext of the staging file, where there is one.
    pub ciphertext: Option<Seq<u8>>,
    /// The blobs by their addresses.
    pub blobs: Map<Seq<char>, Seq<u8>>,
    /// The addresses of the blobs that binding records lead to.
    pub bindings: Map<Seq<char>, Seq<char>>,
}

impl BlobFiles {
    /// The file that becomes the blob.
    pub open spec fn source(self, encrypted: bool) -> Option<Seq<u8>> {
        if encrypted {
            self.ciphertext
        } else {
            self.staging
        }
    }

    /// The same without that file.
    pub open spec fn without_source(self, encrypted: bool) -> BlobFiles {
        if encrypted {
            BlobFiles { ciphertext: None, ..self }
        } else {
            BlobFiles { staging: None, ..self }
        }
    }

    /// The content is under the one address and under every other of those named;
    /// elsewhere the blobs are the same as before.
    pub open spec fn adds(
        self,
        before: BlobFiles,
        address: Seq<char>,
        others: Seq<Seq<char>>,
        content: Seq<u8>,
    ) -> bool {
        &&& forall|k: Seq<char>|
            k == address || others.contains(k) ==> #[trigger] self.blobs.contains_key(k)
                && self.blobs[k] == content
        &&& forall|k: Seq<char>|
            k != address && !others.contains(k) ==> (#[trigger] self.blobs.contains_key(k)
                <==> before.blobs.contains_key(k)) && (self.blobs.contains_key(k)
                ==> self.blobs[k] == before.blobs[k])
    }

    /// What one step of a completion makes of it, with the blob at `address`. A
    /// link leaves an address alone that has a blob already.
    pub open spec fn after_step(
        self,
        encrypted: bool,
        address: Seq<char>,
        step: StepView,
    ) -> BlobFiles {
        match step {
            StepView::DiscardSource => self.without_source(encrypted),
            StepView::RenameSource => BlobFiles {
                blobs: self.blobs.insert(address, self.source(encrypted)->0),
                ..self.without_source(encrypted)
            },
            StepView::Bind(sigma) => BlobFiles {
                bindings: self.bindings.insert(sigma, address),
                ..self
            },
            StepView::RemoveStaging => BlobFiles { staging: None, ..self },
            StepView::Link(kappa) => if self.blobs.contains_key(kappa) {
                self
            } else {
                BlobFiles { blobs: self.blobs.insert(kappa, self.blobs[address]), ..self }
            },
            _ => self,
        }
    }

    /// What the steps of a completion make of it.
    pub open spec fn after_steps(
        self,
        encrypted: bool,
        address: Seq<char>,
        steps: Seq<StepView>,
    ) -> BlobFiles
        decreases steps.len(),
    {
        if steps.len() == 0 {
            self
        } else {
            self.after_steps(encrypted, address, steps.drop_last()).after_step(
                encrypted,
                address,
                steps.last(),
            )
        }
    }
}

/// Steps in a row are taken in a row.
proof fn steps_in_a_row(
    files: BlobFiles,
    encrypted: bool,
    address: Seq<char>,
    first: Seq<StepView>,
    second: Seq<StepView>,
)
    ensures
        files.after_steps(encrypted, address, first + second) == files.after_steps(
            encrypted,
            address,
            first,
        ).after_steps(encrypted, address, second),
    decreases second.len(),
{
    if second.len() == 0 {
        assert(first + second =~= first);
    } else {
        assert((first + second).drop_last() =~= first + second.drop_last());
        steps_in_a_row(files, encrypted, address, first, second.drop_last());
    }
}

/// Publishing consumes the source and leaves its content at the address.
proof fn published(
    files: BlobFiles,
    encrypted: bool,
    fsync: bool,
    address: Seq<char>,
    content: Seq<u8>,
)
    requires
        files.source(encrypted) == Some(content),
        files.blobs.contains_key(address) ==> files.blobs[address] == content,
    ensures
        files.after_steps(
            encrypted,
            address,
            publish_steps(files.blobs.contains_key(address), fsync),
        ) == (BlobFiles {
            blobs: files.blobs.insert(address, content),
            ..files.without_source(encrypted)
        }),
{
    reveal_with_fuel(BlobFiles::after_steps, 5);
    let exists = files.blobs.contains_key(address);
    let steps = publish_steps(exists, fsync);
    if exists {
        assert(files.blobs.insert(address, content) =~= files.blobs);
        assert(steps.drop_last() =~= Seq::<StepView>::empty());
    } else if fsync {
        let three = steps.drop_last();
        assert(three.drop_last().drop_last().drop_last() =~= Seq::<StepView>::empty());
        assert(steps.last() == StepView::SyncBlobDir);
        assert(three.last() == StepView::RenameSource);
        assert(three.drop_last().last() == StepView::SyncSource);
    } else {
        assert(steps.drop_last().drop_last() =~= Seq::<StepView>::empty());
        assert(steps.drop_last().last() == StepView::CreateBlobDir);
    }
}

/// Linking leaves the content of the blob at every address linked and all else
/// as it was.
proof fn linked(files: BlobFiles, address: Seq<char>, kappas: Seq<Seq<char>>, content: Seq<u8>)
    requires
        files.blobs.contains_key(address),
        files.blobs[address] == content,
        forall|i: int|
            0 <= i < kappas.len() && files.blobs.contains_key(#[trigger] kappas[i])
                ==> files.blobs[kappas[i]] == content,
    ensures
        ({
            let after = files.after_steps(false, address, link_steps(kappas));
            &&& after == (BlobFiles { blobs: after.blobs, ..files })
            &&& forall|k: Seq<char>| #[trigger]
                after.blobs.contains_key(k) <==> files.blobs.contains_key(k) || kappas.contains(k)
            &&& forall|k: Seq<char>| #[trigger]
                after.blobs.contains_key(k) ==> after.blobs[k] == if kappas.contains(k) {
                    content
                } else {
                    files.blobs[k]
                }
        }),
    decreases kappas.len(),
{
    if kappas.len() > 0 {
        let front = kappas.drop_last();
        assert(link_steps(kappas).drop_last() =~= link_steps(front));
        assert forall|i: int|
            0 <= i < front.len() && files.blobs.contains_key(
                #[trigger] front[i],
            ) implies files.blobs[front[i]] == content by {
            assert(kappas[i] == front[i]);
        }
        linked(files, address, front, content);
        let before = files.after_steps(false, address, link_steps(front));
        let after = files.after_steps(false, address, link_steps(kappas));
        let last = kappas.last();
        assert(after == before.after_step(false, address, StepView::Link(last)));
        assert(before.blobs.contains_key(address));
        assert(before.blobs[address] == content);
        assert(files.blobs.contains_key(last) ==> files.blobs[last] == content) by {
            assert(kappas[kappas.len() - 1] == last);
        }
        assert forall|k: Seq<char>| kappas.contains(k) <==> front.contains(k) || k == last by {
            among_last(kappas, k);
        }
    }
}

/// What is among the addresses: the last, or one of those before it.
proof fn among_last(kappas: Seq<Seq<char>>, k: Seq<char>)
    requires
        kappas.len() > 0,
    ensures
        kappas.contains(k) <==> kappas.drop_last().contains(k) || k == kappas.last(),
{
    let front = kappas.drop_last();
    if kappas.contains(k) && k != kappas.last() {
        let i = choose|i: int| 0 <= i < kappas.len() && kappas[i] == k;
        assert(front[i] == k);
    }
    if front.contains(k) {
        let i = choose|i: int| 0 <= i < front.len() && front[i] == k;
        assert(kappas[i] == k);
    }
    assert(kappas[kappas.len() - 1] == kappas.last());
}

/// Binding leads every address bound to the blob and leaves all else as it was.
proof fn bound(files: BlobFiles, address: Seq<char>, sigmas: Seq<Seq<char>>)
    ensures
        ({
            let after = files.after_steps(true, address, bind_steps(sigmas));
            &&& after == (BlobFiles { bindings: after.bindings, ..files })
            &&& forall|s: Seq<char>| #[trigger]
                after.bindings.contains_key(s) <==> files.bindings.contains_key(s)
                    || sigmas.contains(s)
            &&& forall|s: Seq<char>| #[trigger]
                after.bindings.contains_key(s) ==> after.bindings[s] == if sigmas.contains(s) {
                    address
                } else {
                    files.bindings[s]
                }
        }),
    decreases sigmas.len(),
{
    if sigmas.len() > 0 {
        let front = sigmas.drop_last();
        assert(bind_steps(sigmas).drop_last() =~= bind_steps(front));
        bound(files, address, front);
        assert forall|s: Seq<char>| sigmas.contains(s) <==> front.contains(s) || s
            == sigmas.last() by {
            among_last(sigmas, s);
        }
    }
}

/// What is kept about the parts touches no file.
proof fn parts_touch_no_file(
    files: BlobFiles,
    encrypted: bool,
    address: Seq<char>,
    parts: Seq<PartDigests>,
)
    ensures
        files.after_steps(encrypted, address, part_steps(parts)) == files,
{
    reveal_with_fuel(BlobFiles::after_steps, 4);
    let steps = part_steps(parts);
    if parts.len() > 0 {
        assert(steps.drop_last().drop_last().drop_last() =~= Seq::<StepView>::empty());
        assert(steps.drop_last().last() is PutMeta);
        assert(steps.drop_last().drop_last().last() is PutMeta);
    }
}

/// A completion without encryption consumes the staging file, leaves its content
/// under the digest and under every additional address, and touches no other
/// blob.
pub proof fn law_plain_completion_stores_content(
    files: BlobFiles,
    fsync: bool,
    digest: Seq<char>,
    additional: Seq<Seq<char>>,
    parts: Seq<PartDigests>,
    content: Seq<u8>,
)
    requires
        files.staging == Some(content),
        files.blobs.contains_key(digest) ==> files.blobs[digest] == content,
        forall|i: int|
            0 <= i < additional.len() && files.blobs.contains_key(#[trigger] additional[i])
                ==> files.blobs[additional[i]] == content,
    ensures
        ({
            let after = files.after_steps(
                false,
                digest,
                completion_steps(
                    false,
                    fsync,
                    files.blobs.contains_key(digest),
                    digest,
                    additional,
                    parts,
                ),
            );
            &&& after == (BlobFiles { staging: None, blobs: after.blobs, ..files })
            &&& after.adds(files, digest, additional, content)
        }),
{
    let exists = files.blobs.contains_key(digest);
    let head = publish_steps(exists, fsync);
    let links = link_steps(additional);
    let named = files.after_steps(false, digest, head);
    published(files, false, fsync, digest, content);
    assert forall|i: int|
        0 <= i < additional.len() && named.blobs.contains_key(
            #[trigger] additional[i],
        ) implies named.blobs[additional[i]] == content by {}
    linked(named, digest, additional, content);
    steps_in_a_row(files, false, digest, head, links);
    steps_in_a_row(files, false, digest, head + links, part_steps(parts));
    let after = named.after_steps(false, digest, links);
    parts_touch_no_file(after, false, digest, parts);
    assert(after == files.after_steps(
        false,
        digest,
        completion_steps(false, fsync, exists, digest, additional, parts),
    ));
    assert(after == (BlobFiles { staging: None, blobs: after.blobs, ..files }));
    assert forall|k: Seq<char>|
        k == digest || additional.contains(k) implies #[trigger] after.blobs.contains_key(k)
        && after.blobs[k] == content by {
        assert(named.blobs.contains_key(digest));
        assert(after.blobs.contains_key(k));
    }
}

/// A completion with encryption consumes the staging file and its ciphertext,
/// leaves the ciphertext at its own address, leads the digest and every
/// additional address there, and touches no other blob and no other binding.
pub proof fn law_encrypted_completion_binds_addresses(
    files: BlobFiles,
    fsync: bool,
    address: Seq<char>,
    digest: Seq<char>,
    additional: Seq<Seq<char>>,
    parts: Seq<PartDigests>,
    ciphertext: Seq<u8>,
)
    requires
        files.ciphertext == Some(ciphertext),
        files.blobs.contains_key(address) ==> files.blobs[address] == ciphertext,
    ensures
        ({
            let after = files.after_steps(
                true,
                address,
                completion_steps(
                    true,
                    fsync,
                    files.blobs.contains_key(address),
                    digest,
                    additional,
                    parts,
                ),
            );
            &&& after.staging is None
            &&& after.ciphertext is None
            &&& after.blobs == files.blobs.insert(address, ciphertext)
            &&& forall|s: Seq<char>|
                s == digest || additional.contains(s) ==> #[trigger] after.bindings.contains_key(s)
                    && after.bindings[s] == address
            &&& forall|s: Seq<char>|
                s != digest && !additional.contains(s) ==> (#[trigger] after.bindings.contains_key(
                    s,
                ) <==> files.bindings.contains_key(s)) && (after.bindings.contains_key(s)
                    ==> after.bindings[s] == files.bindings[s])
        }),
{
    let exists = files.blobs.contains_key(address);
    let head = publish_steps(exists, fsync);
    let sigmas = seq![digest] + additional;
    let binds = bind_steps(sigmas);
    let last = binds.push(StepView::RemoveStaging);
    let named = files.after_steps(true, address, head);
    published(files, true, fsync, address, ciphertext);
    bound(named, address, sigmas);
    steps_in_a_row(files, true, address, head, last);
    steps_in_a_row(files, true, address, head + last, part_steps(parts));
    assert(last.drop_last() =~= binds);
    assert(last.last() == StepView::RemoveStaging);
    let led = named.after_steps(true, address, binds);
    let done = named.after_steps(true, address, last);
    assert(done == led.after_step(true, address, StepView::RemoveStaging));
    parts_touch_no_file(done, true, address, parts);
    assert(done == files.after_steps(
        true,
        address,
        completion_steps(true, fsync, exists, digest, additional, parts),
    ));
    assert(done.bindings == led.bindings);
    assert(done.blobs == named.blobs);
    assert(done.ciphertext is None);
    assert forall|s: Seq<char>| sigmas.contains(s) <==> s == digest || additional.contains(s) by {
        if sigmas.contains(s) && s != digest {
            let i = choose|i: int| 0 <= i < sigmas.len() && sigmas[i] == s;
            assert(additional[i - 1] == s);
        }
        if additional.contains(s) {
            let i = choose|i: int| 0 <= i < additional.len() && additional[i] == s;
            assert(sigmas[i + 1] == s);
        }
        assert(sigmas[0] == digest);
    }
}

/// Completing an upload of which the right digest is claimed, without encryption.
/// `address_of` is the address of the content under an algorithm, which it names.
/// The completion is granted and returns the claimed digest and the addresses
/// under the other mandatory algorithms, with SHA-256 the only one of them none
/// or the one under SHA-256. It tells whether no blob was there, consumes the
/// staging file and leaves its content under each address that it returns.
pub proof fn law_completed_upload(
    algorithm: Seq<char>,
    mandatory: Seq<Axis>,
    address_of: spec_fn(Seq<char>) -> Seq<char>,
    hashed: Result<Vec<String>, String>,
    fsync: bool,
    parts: Seq<PartDigests>,
    decision: Result<CompletionPlan, Refusal>,
    files: BlobFiles,
    content: Seq<u8>,
)
    requires
        forall|a: Seq<char>| #[trigger]
            hashing_axes(algorithm, mandatory).contains(a) ==> claimed_algorithm(
                Some(address_of(a)),
            ) == a,
        hashed matches Ok(addresses) && crate::text::texts(addresses@) == hashing_axes(
            algorithm,
            mandatory,
        ).map_values(address_of),
        completion_decided(
            Some(address_of(algorithm)),
            hashed,
            None,
            files.blobs.contains_key(address_of(algorithm)),
            fsync,
            parts,
            decision,
        ),
        files.staging == Some(content),
        forall|i: int|
            0 <= i < hashing_axes(algorithm, mandatory).len() && files.blobs.contains_key(
                address_of(#[trigger] hashing_axes(algorithm, mandatory)[i]),
            ) ==> files.blobs[address_of(hashing_axes(algorithm, mandatory)[i])] == content,
    ensures
        decision matches Ok(plan) && ({
            let kappa = plan.result.kappa@;
            let additional = crate::text::texts(plan.result.additional_kappas@);
            let after = files.after_steps(false, kappa, steps_view(plan.steps@));
            &&& kappa == address_of(algorithm)
            &&& plan.result.newly_stored == !files.blobs.contains_key(kappa)
            &&& additional == hashing_axes(algorithm, mandatory).skip(1).map_values(address_of)
            &&& additional.no_duplicates()
            &&& !additional.contains(kappa)
            &&& mandatory.len() == 1 && mandatory[0]@ == "sha256"@ ==> additional == if algorithm
                == "sha256"@ {
                Seq::empty()
            } else {
                seq![address_of("sha256"@)]
            }
            &&& after.staging is None
            &&& after.adds(files, kappa, additional, content)
        }),
{
    let axes = hashing_axes(algorithm, mandatory);
    let all = axes.map_values(address_of);
    law_axes_are_covered(algorithm, mandatory);
    assert(all[0] == address_of(algorithm));
    let addresses = hashed->Ok_0;
    assert(addresses@[0]@ == crate::text::texts(addresses@)[0]);
    assert(digest_verdict(Some(all[0]), addresses@[0]@) is None);
    assert(decision is Ok);
    let plan = decision->Ok_0;
    let additional = crate::text::texts(plan.result.additional_kappas@);
    assert(additional =~= axes.skip(1).map_values(address_of));
    assert forall|i: int, j: int|
        0 <= i < axes.len() && 0 <= j < axes.len() && i != j implies all[i] != all[j] by {
        assert(axes.contains(axes[i]));
        assert(axes.contains(axes[j]));
    }
    assert forall|i: int, j: int|
        0 <= i < additional.len() && 0 <= j < additional.len() && i
            != j implies additional[i] != additional[j] by {
        assert(all[i + 1] != all[j + 1]);
    }
    assert(!additional.contains(all[0])) by {
        if additional.contains(all[0]) {
            let i = choose|i: int| 0 <= i < additional.len() && additional[i] == all[0];
            assert(all[i + 1] == all[0]);
        }
    }
    assert forall|i: int|
        0 <= i < additional.len() && files.blobs.contains_key(
            #[trigger] additional[i],
        ) implies files.blobs[additional[i]] == content by {
        assert(additional[i] == address_of(axes[i + 1]));
    }
    assert(files.blobs.contains_key(all[0]) ==> files.blobs[all[0]] == content) by {
        assert(axes[0] == algorithm);
    }
    law_plain_completion_stores_content(files, fsync, all[0], additional, parts, content);
    if mandatory.len() == 1 && mandatory[0]@ == "sha256"@ {
        reveal_with_fuel(hashing_axes, 2);
        assert(mandatory.drop_last() =~= Seq::<Axis>::empty());
        let one = seq![algorithm];
        assert(one[0] == algorithm);
        if algorithm == "sha256"@ {
            assert(one.contains("sha256"@));
            assert(additional =~= Seq::<Seq<char>>::empty());
        } else {
            assert(!one.contains("sha256"@));
            assert(axes =~= one.push("sha256"@));
            assert(additional =~= seq![address_of("sha256"@)]);
        }
    }
}

/// Where files are flushed, a blob gets its name only behind the flush of its
/// bytes: after a power loss no blob stands under its address with bytes that
/// never reached the disk.
pub proof fn law_data_before_name(
    encrypted: bool,
    exists: bool,
    digest: Seq<char>,
    additional: Seq<Seq<char>>,
    parts: Seq<PartDigests>,
    i: int,
)
    requires
        0 <= i < completion_steps(encrypted, true, exists, digest, additional, parts).len(),
        completion_steps(encrypted, true, exists, digest, additional, parts)[i]
            == StepView::RenameSource,
    ensures
        exists|j: int|
            0 <= j < i && #[trigger] completion_steps(
                encrypted,
                true,
                exists,
                digest,
                additional,
                parts,
            )[j] == StepView::SyncSource,
{
    let steps = completion_steps(encrypted, true, exists, digest, additional, parts);
    let head = publish_steps(exists, true);
    let sigmas = seq![digest] + additional;
    if i >= head.len() {
        let k = i - head.len();
        if encrypted {
            if k < sigmas.len() {
                assert(steps[i] == StepView::Bind(sigmas[k]));
            } else if k == sigmas.len() {
                assert(steps[i] == StepView::RemoveStaging);
            } else {
                assert(steps[i] == part_steps(parts)[k - sigmas.len() - 1]);
            }
        } else if k < additional.len() {
            assert(steps[i] == StepView::Link(additional[k]));
        } else {
            assert(steps[i] == part_steps(parts)[k - additional.len()]);
        }
    } else {
        assert(steps[i] == head[i]);
        assert(steps[1] == head[1]);
    }
}

/// Every address of the content leads to the blob: each has a binding record
/// where the blob is a ciphertext, and each additional one a link where not.
pub proof fn law_every_address_leads_to_blob(
    encrypted: bool,
    fsync: bool,
    exists: bool,
    digest: Seq<char>,
    additional: Seq<Seq<char>>,
    parts: Seq<PartDigests>,
)
    ensures
        encrypted ==> completion_steps(
            encrypted,
            fsync,
            exists,
            digest,
            additional,
            parts,
        ).contains(StepView::Bind(digest)),
        forall|i: int|
            0 <= i < additional.len() ==> completion_steps(
                encrypted,
                fsync,
                exists,
                digest,
                additional,
                parts,
            ).contains(
                if encrypted {
                    StepView::Bind(#[trigger] additional[i])
                } else {
                    StepView::Link(additional[i])
                },
            ),
{
    let steps = completion_steps(encrypted, fsync, exists, digest, additional, parts);
    let n = publish_steps(exists, fsync).len() as int;
    if encrypted {
        assert(steps[n] == StepView::Bind((seq![digest] + additional)[0]));
    }
    assert forall|i: int| 0 <= i < additional.len() implies steps.contains(
        if encrypted {
            StepView::Bind(#[trigger] additional[i])
        } else {
            StepView::Link(additional[i])
        },
    ) by {
        if encrypted {
            assert(steps[n + 1 + i] == StepView::Bind((seq![digest] + additional)[i + 1]));
        } else {
            assert(steps[n + i] == StepView::Link(additional[i]));
        }
    }
}

/// One part in a manifest.
#[derive(Debug)]
pub struct ManifestRow {
    pub part_number: u32,
    pub offset: u64,
    pub size: u64,
    /// The MD5 digest in hexadecimal.
    pub md5: String,
    pub crc32c: u64,
    pub crc64nvme: u64,
}

impl ManifestRow {
    /// The row describes the part.
    pub open spec fn of(self, part: PartDigests) -> bool {
        &&& self.part_number == part.part_number
        &&& self.offset == part.offset
        &&& self.size == part.size
        &&& self.md5@ == crate::text::hex_lower(part.md5@)
        &&& self.crc32c == part.crc32c
        &&& self.crc64nvme == part.crc64nvme
    }
}

/// The rows of a part manifest; none where there are no parts.
pub fn part_manifest(parts: &[PartDigests]) -> (rows: Option<Vec<ManifestRow>>)
    ensures
        match rows {
            None => parts@.len() == 0,
            Some(r) => {
                &&& parts@.len() > 0
                &&& r@.len() == parts@.len()
                &&& forall|i: int| 0 <= i < r@.len() ==> (#[trigger] r@[i]).of(parts@[i])
            },
        },
{
    if parts.len() == 0 {
        return None;
    }
    let mut rows: Vec<ManifestRow> = Vec::new();
    let mut i: usize = 0;
    while i < parts.len()
        invariant
            i <= parts@.len(),
            rows@.len() == i,
            forall|j: int| 0 <= j < i ==> (#[trigger] rows@[j]).of(parts@[j]),
        decreases parts@.len() - i,
    {
        let part: PartDigests = parts[i];
        rows.push(
            ManifestRow {
                part_number: part.part_number,
                offset: part.offset,
                size: part.size,
                md5: hex_text(part.md5.as_slice()),
                crc32c: part.crc32c,
                crc64nvme: part.crc64nvme,
            },
        );
        i = i + 1;
    }
    Some(rows)
}

/// The algorithm of a claimed digest is what stands in front of its first colon: with
/// the colon behind it it begins the digest, and it holds no colon itself. Without a
/// colon, or without a claim, it is SHA-256.
pub proof fn law_claimed_algorithm(claimed: Option<&str>, algorithm: String)
    requires
        call_ensures(digest_algorithm, (claimed,), algorithm),
    ensures
        claimed matches Some(c) ==> {
            &&& c@.contains(':') ==> {
                &&& algorithm@.push(':').is_prefix_of(c@)
                &&& !algorithm@.contains(':')
            }
            &&& !c@.contains(':') ==> algorithm@ == "sha256"@
        },
        claimed is None ==> algorithm@ == "sha256"@,
{
    if let Some(c) = claimed {
        if c@.contains(':') {
            c@.index_of_first_ensures(':');
            let i = c@.index_of_first(':')->0;
            assert(algorithm@ =~= c@.take(i));
            assert(algorithm@.push(':') =~= c@.take(i + 1));
            assert(c@.take(i + 1) =~= c@.subrange(0, i + 1));
            assert forall|j: int| 0 <= j < algorithm@.len() implies algorithm@[j] != ':' by {
                assert(c@[j] == algorithm@[j]);
            }
        }
    }
}

/// Every algorithm that is hashed under is the first or a mandatory one.
proof fn no_other_axes(algorithm: Seq<char>, mandatory: Seq<Axis>, i: int)
    requires
        0 <= i < hashing_axes(algorithm, mandatory).len(),
    ensures
        i == 0 || exists|j: int|
            0 <= j < mandatory.len() && (#[trigger] mandatory[j])@ == hashing_axes(
                algorithm,
                mandatory,
            )[i],
    decreases mandatory.len(),
{
    if mandatory.len() > 0 {
        let front = mandatory.drop_last();
        let before = hashing_axes(algorithm, front);
        if i < before.len() {
            no_other_axes(algorithm, front, i);
            if i > 0 {
                let j = choose|j: int|
                    0 <= j < front.len() && (#[trigger] front[j])@ == before[i];
                assert(mandatory[j]@ == before[i]);
            }
        } else {
            assert(mandatory[mandatory.len() - 1]@ == hashing_axes(algorithm, mandatory)[i]);
        }
    }
}

/// With fewer mandatory algorithms the beginning of the list stays the same.
proof fn axes_grow_behind(algorithm: Seq<char>, mandatory: Seq<Axis>, n: int)
    requires
        0 <= n <= mandatory.len(),
    ensures
        hashing_axes(algorithm, mandatory.take(n)).is_prefix_of(hashing_axes(algorithm, mandatory)),
    decreases mandatory.len(),
{
    if n == mandatory.len() {
        assert(mandatory.take(n) =~= mandatory);
    } else {
        assert(mandatory.drop_last().take(n) =~= mandatory.take(n));
        axes_grow_behind(algorithm, mandatory.drop_last(), n);
    }
}

/// A staged file is hashed under the claimed algorithm first, then under each
/// mandatory one in their order, under none twice and under no other. `fewer` are
/// the first of the mandatory ones.
pub proof fn law_upload_axes(
    claimed: Option<&str>,
    mandatory: &Vec<Axis>,
    axes: Vec<String>,
    algorithm: String,
    fewer: &Vec<Axis>,
    fewer_axes: Vec<String>,
)
    requires
        call_ensures(upload_axes, (claimed, mandatory), axes),
        call_ensures(digest_algorithm, (claimed,), algorithm),
        call_ensures(upload_axes, (claimed, fewer), fewer_axes),
        fewer@.len() <= mandatory@.len(),
        fewer@ == mandatory@.take(fewer@.len() as int),
    ensures
        axes@.len() > 0,
        axes@[0]@ == algorithm@,
        crate::text::texts(axes@).no_duplicates(),
        forall|i: int|
            0 <= i < mandatory@.len() ==> crate::text::texts(axes@).contains(
                (#[trigger] mandatory@[i])@,
            ),
        forall|i: int|
            0 < i < axes@.len() ==> exists|j: int|
                0 <= j < mandatory@.len() && (#[trigger] mandatory@[j])@ == (
                #[trigger] axes@[i])@,
        crate::text::texts(fewer_axes@).is_prefix_of(crate::text::texts(axes@)),
{
    let name = claimed_algorithm(text_option(claimed));
    let all = hashing_axes(name, mandatory@);
    law_axes_are_covered(name, mandatory@);
    assert(axes@[0]@ == crate::text::texts(axes@)[0]);
    assert forall|i: int| 0 < i < axes@.len() implies exists|j: int|
        0 <= j < mandatory@.len() && (#[trigger] mandatory@[j])@ == (#[trigger] axes@[i])@ by {
        assert(crate::text::texts(axes@)[i] == axes@[i]@);
        no_other_axes(name, mandatory@, i);
    }
    axes_grow_behind(name, mandatory@, fewer@.len() as int);
}

/// A computed digest is accepted exactly where none was claimed or the very same one
/// was; the refusal names both and takes the staging file with it.
pub proof fn law_digest_is_checked(
    claimed: Option<&str>,
    computed: &str,
    verdict: Result<(), Refusal>,
)
    requires
        call_ensures(check_digest, (claimed, computed), verdict),
    ensures
        verdict is Ok <==> (claimed matches Some(c) ==> c@ == computed@),
        verdict matches Err(r) ==> {
            &&& r.remove_staging
            &&& r.error matches StoreError::Rejected(text) && text@
                == "digest mismatch: expected "@ + claimed->0@ + ", computed "@ + computed@
        },
{
}

/// A completion is granted exactly where the content was hashed and has the digest
/// that was claimed, if one was; a refused one is rejected, with the reason, and takes
/// the staging file with it. What is granted is returned under the address of the
/// ciphertext, or under the digest where there is none, with all other addresses in
/// their order; it is newly stored exactly where no blob was there.
pub proof fn law_completion_result(
    claimed: Option<&str>,
    hashed: Result<Vec<String>, String>,
    ciphertext: Option<String>,
    present: bool,
    fsync: bool,
    parts: &[PartDigests],
    decision: Result<CompletionPlan, Refusal>,
)
    requires
        call_ensures(
            decide_completion,
            (claimed, hashed, ciphertext, present, fsync, parts),
            decision,
        ),
        hashed matches Ok(addresses) ==> addresses@.len() > 0,
    ensures
        decision is Ok <==> (hashed matches Ok(addresses) && (claimed matches Some(c) ==> c@
            == addresses@[0]@)),
        decision matches Err(r) ==> r.remove_staging && r.error is Rejected,
        hashed matches Err(reason) ==> (decision matches Err(r) && (
        r.error matches StoreError::Rejected(text) && text@ == reason@)),
        decision matches Ok(plan) ==> {
            &&& ciphertext matches Some(kappa) ==> plan.result.kappa@ == kappa@
            &&& ciphertext is None ==> plan.result.kappa@ == hashed->Ok_0@[0]@
            &&& plan.result.newly_stored == !present
            &&& plan.result.additional_kappas@.len() == hashed->Ok_0@.len() - 1
            &&& forall|i: int|
                0 <= i < plan.result.additional_kappas@.len() ==> (
                #[trigger] plan.result.additional_kappas@[i])@ == hashed->Ok_0@[i + 1]@
            &&& plan.result.etag is Some <==> parts@.len() > 0
        },
{
    if let Ok(plan) = decision {
        let addresses = hashed->Ok_0;
        let additional = plan.result.additional_kappas@;
        let names = crate::text::texts(additional);
        assert(names =~= crate::text::texts(addresses@).skip(1));
        assert(names.len() == additional.len());
        assert forall|i: int| 0 <= i < additional.len() implies (#[trigger] additional[i])@
            == addresses@[i + 1]@ by {
            assert(names[i] == additional[i]@);
            assert(crate::text::texts(addresses@)[i + 1] == addresses@[i + 1]@);
        }
    }
}

/// Where the step stands among the others of a completion.
proof fn step_at(
    encrypted: bool,
    fsync: bool,
    present: bool,
    digest: Seq<char>,
    additional: Seq<Seq<char>>,
    parts: Seq<PartDigests>,
    i: int,
)
    requires
        0 <= i < completion_steps(encrypted, fsync, present, digest, additional, parts).len(),
    ensures
        ({
            let steps = completion_steps(encrypted, fsync, present, digest, additional, parts);
            let head = publish_steps(present, fsync).len() as int;
            let middle = if encrypted {
                additional.len() as int + 2
            } else {
                additional.len() as int
            };
            &&& steps.len() == head + middle + part_steps(parts).len()
            &&& i < head ==> steps[i] == publish_steps(present, fsync)[i]
            &&& head <= i < head + middle && encrypted ==> steps[i] == if i == head {
                StepView::Bind(digest)
            } else if i < head + middle - 1 {
                StepView::Bind(additional[i - head - 1])
            } else {
                StepView::RemoveStaging
            }
            &&& head <= i < head + middle && !encrypted ==> steps[i] == StepView::Link(
                additional[i - head],
            )
            &&& head + middle <= i ==> steps[i] == part_steps(parts)[i - head - middle]
        }),
{
    let sigmas = seq![digest] + additional;
    let binds = bind_steps(sigmas);
    let head = publish_steps(present, fsync);
    if encrypted {
        assert(sigmas.len() == additional.len() + 1);
        let k = i - head.len();
        if 0 <= k < binds.len() {
            assert(binds[k] == StepView::Bind(sigmas[k]));
        }
    }
}

/// What a completion does to the file that becomes the blob: where the blob is there
/// the file is removed and nothing is named; where not, the directory of the blob is
/// made and the file gets the name of the blob, between the flush of the file and the
/// flush of the directory where files are flushed, and without any where they are not.
pub proof fn law_source_is_published_once(
    encrypted: bool,
    fsync: bool,
    present: bool,
    digest: Seq<char>,
    additional: Seq<Seq<char>>,
    parts: Seq<PartDigests>,
    i: int,
)
    requires
        0 <= i < completion_steps(encrypted, fsync, present, digest, additional, parts).len(),
    ensures
        ({
            let steps = completion_steps(encrypted, fsync, present, digest, additional, parts);
            &&& steps[i] is DiscardSource <==> present && i == 0
            &&& steps[i] is CreateBlobDir <==> !present && i == 0
            &&& steps[i] is SyncSource <==> !present && fsync && i == 1
            &&& steps[i] is RenameSource <==> !present && i == if fsync {
                2int
            } else {
                1int
            }
            &&& steps[i] is SyncBlobDir <==> !present && fsync && i == 3
        }),
        completion_steps(encrypted, fsync, present, digest, additional, parts).len() == (
        if present {
            1int
        } else if fsync {
            4int
        } else {
            2int
        }) + additional.len() + (if encrypted {
            2int
        } else {
            0int
        }) + (if parts.len() == 0 {
            0int
        } else {
            3int
        }),
{
    step_at(encrypted, fsync, present, digest, additional, parts, i);
}

/// Where the steps of a completion lead addresses: with encryption the digest and
/// every additional address get a binding record, in their order, and the staging file
/// goes behind them; without, every additional address gets a link. Nothing else is
/// bound, linked or removed.
pub proof fn law_addresses_are_led_to_blob(
    encrypted: bool,
    fsync: bool,
    present: bool,
    digest: Seq<char>,
    additional: Seq<Seq<char>>,
    parts: Seq<PartDigests>,
    i: int,
)
    requires
        0 <= i < completion_steps(encrypted, fsync, present, digest, additional, parts).len(),
    ensures
        ({
            let steps = completion_steps(encrypted, fsync, present, digest, additional, parts);
            let first = if present {
                1int
            } else if fsync {
                4int
            } else {
                2int
            };
            &&& steps[i] matches StepView::Bind(sigma) ==> encrypted && first <= i <= first
                + additional.len() && sigma == if i == first {
                digest
            } else {
                additional[i - first - 1]
            }
            &&& steps[i] matches StepView::Link(kappa) ==> !encrypted && first <= i < first
                + additional.len() && kappa == additional[i - first]
            &&& encrypted && first <= i <= first + additional.len() ==> steps[i] is Bind
            &&& !encrypted && first <= i < first + additional.len() ==> steps[i] is Link
            &&& steps[i] is RemoveStaging <==> encrypted && i == first + additional.len() + 1
        }),
{
    step_at(encrypted, fsync, present, digest, additional, parts, i);
}

/// The number that bytes spell, the most significant first.
pub open spec fn spelled_number(bytes: Seq<u8>) -> int
    decreases bytes.len(),
{
    if bytes.len() == 0 {
        0
    } else {
        0x100 * spelled_number(bytes.drop_last()) + bytes.last()
    }
}

/// Four bytes spell the number that they were made of.
proof fn be_bytes_spell(n: u32)
    ensures
        crate::crypto::aead::be_bytes(n).len() == 4,
        spelled_number(crate::crypto::aead::be_bytes(n)) == n,
{
    reveal_with_fuel(spelled_number, 5);
    let bytes = crate::crypto::aead::be_bytes(n);
    let three = bytes.drop_last();
    let two = three.drop_last();
    let one = two.drop_last();
    assert(n == 0x100_0000 * (n / 0x100_0000) + 0x1_0000 * (n / 0x1_0000 % 0x100) + 0x100 * (n
        / 0x100 % 0x100) + n % 0x100) by (bit_vector);
    assert(n / 0x100_0000 < 0x100) by (bit_vector);
    assert(one.drop_last() =~= Seq::<u8>::empty());
    assert(one.last() == bytes[0] && two.last() == bytes[1] && three.last() == bytes[2]);
}

/// Bytes behind others spell on.
proof fn spelled_on(a: Seq<u8>, b: Seq<u8>)
    requires
        b.len() == 4,
    ensures
        spelled_number(a + b) == 0x1_0000_0000 * spelled_number(a) + spelled_number(b),
{
    reveal_with_fuel(spelled_number, 5);
    let c = a + b;
    let b3 = b.drop_last();
    let b2 = b3.drop_last();
    let b1 = b2.drop_last();
    assert(b1.drop_last() =~= Seq::<u8>::empty());
    assert(c.drop_last() =~= a + b3);
    assert((a + b3).drop_last() =~= a + b2);
    assert((a + b2).drop_last() =~= a + b1);
    assert((a + b1).drop_last() =~= a);
}

/// What a completion keeps about parts: where there are any, the CRC-32C checksum of
/// the whole as four bytes and the CRC-64/NVME one as eight, each with its most
/// significant byte first, and the manifest, behind everything else; where there are
/// none, nothing.
pub proof fn law_checksums_are_kept(
    encrypted: bool,
    fsync: bool,
    present: bool,
    digest: Seq<char>,
    additional: Seq<Seq<char>>,
    parts: Seq<PartDigests>,
    i: int,
)
    requires
        0 <= i < completion_steps(encrypted, fsync, present, digest, additional, parts).len(),
    ensures
        ({
            let steps = completion_steps(encrypted, fsync, present, digest, additional, parts);
            let n = steps.len() as int;
            &&& steps[i] is PutMeta <==> parts.len() > 0 && (i == n - 3 || i == n - 2)
            &&& steps[i] is PutManifest <==> parts.len() > 0 && i == n - 1
            &&& steps[i] matches StepView::PutMeta(key, value) ==> if i == n - 3 {
                &&& key == "_s3_checksum_crc32c"@
                &&& value.len() == 4
                &&& spelled_number(value) == crate::parts::crc_over(Crc::Crc32c, parts)
                    % 0x1_0000_0000
            } else {
                &&& key == "_s3_checksum_crc64nvme"@
                &&& value.len() == 8
                &&& spelled_number(value) == crate::parts::crc_over(Crc::Crc64Nvme, parts)
            }
        }),
{
    step_at(encrypted, fsync, present, digest, additional, parts, i);
    let c32 = crate::parts::crc_over(Crc::Crc32c, parts);
    let c64 = crate::parts::crc_over(Crc::Crc64Nvme, parts);
    be_bytes_spell((c32 % 0x1_0000_0000) as u32);
    let high = (c64 / 0x1_0000_0000) as u32;
    let low = (c64 % 0x1_0000_0000) as u32;
    be_bytes_spell(high);
    be_bytes_spell(low);
    spelled_on(crate::crypto::aead::be_bytes(high), crate::crypto::aead::be_bytes(low));
}

/// The checksums that a completion keeps are those of the content: where the parts
/// have the sizes and the digests of the pieces that it was put in, what is kept
/// spells the checksums of all pieces in a row.
pub proof fn law_kept_checksums_are_those_of_content(
    parts: &[PartDigests],
    pieces: Seq<Seq<u8>>,
    crc32c: Option<u64>,
    crc64nvme: Option<u64>,
)
    requires
        call_ensures(combined_crc, (Crc::Crc32c, parts), crc32c),
        call_ensures(combined_crc, (Crc::Crc64Nvme, parts), crc64nvme),
        crate::parts::digests_of(parts@, pieces),
        pieces.len() > 0,
    ensures
        part_steps(parts@).len() == 3,
        part_steps(parts@)[0] matches StepView::PutMeta(key, value) && spelled_number(value)
            == crate::parts::crc_of(32, crate::parts::in_a_row(pieces)) % 0x1_0000_0000,
        part_steps(parts@)[1] matches StepView::PutMeta(key, value) && spelled_number(value)
            == crate::parts::crc_of(64, crate::parts::in_a_row(pieces)),
        part_steps(parts@)[2] is PutManifest,
{
    let c64 = crate::parts::crc_over(Crc::Crc64Nvme, parts@);
    be_bytes_spell((crate::parts::crc_over(Crc::Crc32c, parts@) % 0x1_0000_0000) as u32);
    let high = (c64 / 0x1_0000_0000) as u32;
    let low = (c64 % 0x1_0000_0000) as u32;
    be_bytes_spell(high);
    be_bytes_spell(low);
    spelled_on(crate::crypto::aead::be_bytes(high), crate::crypto::aead::be_bytes(low));
}

/// A manifest has a row for each part, in their order, that tells all of it, its MD5
/// digest in hexadecimal. There is none without a part.
pub proof fn law_manifest_tells_the_parts(
    parts: &[PartDigests],
    rows: Option<Vec<ManifestRow>>,
    i: int,
)
    requires
        call_ensures(part_manifest, (parts,), rows),
    ensures
        rows is None <==> parts@.len() == 0,
        rows matches Some(r) ==> {
            &&& r@.len() == parts@.len()
            &&& 0 <= i < parts@.len() ==> {
                &&& r@[i].part_number == parts@[i].part_number
                &&& r@[i].offset == parts@[i].offset
                &&& r@[i].size == parts@[i].size
                &&& crate::text::hex_reads_as(r@[i].md5@, parts@[i].md5@)
                &&& r@[i].crc32c == parts@[i].crc32c
                &&& r@[i].crc64nvme == parts@[i].crc64nvme
            }
        },
{
    if 0 <= i < parts@.len() {
        crate::text::law_hex_reads_back(parts@[i].md5@);
        if let Some(r) = rows {
            assert(r@[i].of(parts@[i]));
        }
    }
}

/// The steps that a granted completion returns are those of its content, in order:
/// with encryption exactly where there is a ciphertext, with flushes exactly where
/// they were asked for, under the digest and the addresses that were hashed.
pub proof fn law_decided_steps(
    claimed: Option<&str>,
    hashed: Result<Vec<String>, String>,
    ciphertext: Option<String>,
    present: bool,
    fsync: bool,
    parts: &[PartDigests],
    plan: CompletionPlan,
    i: int,
)
    requires
        call_ensures(
            decide_completion,
            (claimed, hashed, ciphertext, present, fsync, parts),
            Ok::<CompletionPlan, Refusal>(plan),
        ),
        hashed matches Ok(addresses) ==> addresses@.len() > 0,
        0 <= i < plan.steps@.len(),
    ensures
        ({
            let steps = completion_steps(
                ciphertext is Some,
                fsync,
                present,
                hashed->Ok_0@[0]@,
                crate::text::texts(hashed->Ok_0@).skip(1),
                parts@,
            );
            &&& plan.steps@.len() == steps.len()
            &&& match steps[i] {
                StepView::DiscardSource => plan.steps@[i] is DiscardSource,
                StepView::CreateBlobDir => plan.steps@[i] is CreateBlobDir,
                StepView::SyncSource => plan.steps@[i] is SyncSource,
                StepView::RenameSource => plan.steps@[i] is RenameSource,
                StepView::SyncBlobDir => plan.steps@[i] is SyncBlobDir,
                StepView::Bind(s) => plan.steps@[i] matches CompletionStep::Bind(t) && t@ == s,
                StepView::RemoveStaging => plan.steps@[i] is RemoveStaging,
                StepView::Link(k) => plan.steps@[i] matches CompletionStep::Link(t) && t@ == k,
                StepView::PutMeta(k, v) => plan.steps@[i] matches CompletionStep::PutMeta(t, b)
                    && t@ == k && b@ == v,
                StepView::PutManifest => plan.steps@[i] is PutManifest,
            }
        }),
{
    assert(steps_view(plan.steps@)[i] == plan.steps@[i]@);
}

} // verus!
